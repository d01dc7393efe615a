use vstd::prelude::*;

use ab_glyph::{FontVec, PxScale};
use image::{Rgba, RgbaImage};
use imageproc::drawing::{draw_text_mut, text_size};

use crate::canvas::size_fits;

verus! {

#[verifier::external_type_specification]
#[verifier::external_body]
pub struct ExFontVec(FontVec);

/// A parsed font together with the bytes it was parsed from.
///
/// The fields are private: a value is only made by `from_bytes`, so the
/// face always is the parse of `data`.
pub struct GlyphFont {
    data: Vec<u8>,
    face: FontVec,
}

impl GlyphFont {
    /// The font file's bytes.
    pub closed spec fn bytes(&self) -> Seq<u8> {
        self.data@
    }

    /// Parses the first face of a font file; `None` when the bytes are
    /// not a font.
    pub fn from_bytes(data: Vec<u8>) -> (r: Option<GlyphFont>)
        ensures
            r is Some <==> font_parses(data@),
            r matches Some(f) ==> f.bytes() == data@,
    {
        match parse_face(&data) {
            Some(face) => Some(GlyphFont { data, face }),
            None => None,
        }
    }
}

/// The bytes hold a font file whose first face can be read.
pub uninterp spec fn font_parses(data: Seq<u8>) -> bool;

/// Relies on ab_glyph::FontVec::try_from_vec_and_index: parses face 0 of the
/// given bytes, or reports that they are no font.
#[verifier::external_body]
fn parse_face(data: &Vec<u8>) -> (r: Option<FontVec>)
    ensures
        r is Some <==> font_parses(data@),
{
    FontVec::try_from_vec_and_index(data.clone(), 0).ok()
}

/// The alpha plane that drawing `text` in opaque white at pixel scale
/// `scale`, from the top-left corner, leaves on a transparent square canvas
/// of side `side`, for the font file `font`; row-major.
pub uninterp spec fn text_coverage(font: Seq<u8>, text: Seq<char>, scale: nat, side: nat) -> Seq<
    u8,
>;

/// Width and height in pixels of `text` laid out at pixel scale `scale` in
/// the font file `font`.
pub uninterp spec fn laid_out_size(font: Seq<u8>, text: Seq<char>, scale: nat) -> (nat, nat);

/// Bound on the laid-out extent under which glyph positions stay far from
/// the limits of the rasterizer's 32-bit pixel coordinates.
pub const MAX_EXTENT: u32 = 0x4000_0000;

/// `text` at `scale` is small enough to be drawn.
pub open spec fn drawable(font: Seq<u8>, text: Seq<char>, scale: nat) -> bool {
    let e = laid_out_size(font, text, scale);
    e.0 < MAX_EXTENT && e.1 < MAX_EXTENT
}

/// Relies on imageproc::drawing::text_size: the width and height of the
/// laid-out text, rounded down and held at `u32::MAX`.
#[verifier::external_body]
pub(crate) fn text_extent(font: &GlyphFont, text: &str, scale: u16) -> (r: (u32, u32))
    ensures
        r.0 == laid_out_size(font.bytes(), text@, scale as nat).0,
        r.1 == laid_out_size(font.bytes(), text@, scale as nat).1,
{
    text_size(PxScale { x: scale.into(), y: scale.into() }, &font.face, text)
}

/// Whether `text` at `scale` is small enough to be drawn.
pub fn fits_drawing(font: &GlyphFont, text: &str, scale: u16) -> (r: bool)
    ensures
        r == drawable(font.bytes(), text@, scale as nat),
{
    let (w, h) = text_extent(font, text, scale);
    w < MAX_EXTENT && h < MAX_EXTENT
}

/// Relies on imageproc::drawing::draw_text_mut: it draws `text` onto a
/// transparent `side`×`side` canvas, each glyph clipped to the canvas, and
/// draws nothing for an empty string. The alpha channel is handed back.
#[verifier::external_body]
pub(crate) fn draw_coverage(font: &GlyphFont, text: &str, scale: u16, side: u32) -> (r: Vec<u8>)
    requires
        size_fits(side as nat),
        drawable(font.bytes(), text@, scale as nat),
    ensures
        r@.len() == (side as nat) * (side as nat),
        r@ == text_coverage(font.bytes(), text@, scale as nat, side as nat),
        text@.len() == 0 ==> forall|i: int| 0 <= i < r@.len() ==> r@[i] == 0,
{
    let mut layer = RgbaImage::from_pixel(side, side, Rgba([0, 0, 0, 0]));
    let white = Rgba([255u8, 255, 255, 255]);
    draw_text_mut(&mut layer, white, 0, 0, PxScale { x: scale.into(), y: scale.into() }, &font.face, text);
    layer.pixels().map(|px| px[3]).collect()
}

/// Inclusive pixel coordinates of the smallest rectangle that holds every
/// pixel with non-zero alpha.
#[derive(Clone, Copy, Debug, PartialEq, Eq, Structural)]
pub struct BoundingBox {
    pub min_x: u32,
    pub min_y: u32,
    pub max_x: u32,
    pub max_y: u32,
}

impl BoundingBox {
    pub open spec fn width(self) -> int {
        self.max_x - self.min_x + 1
    }

    pub open spec fn height(self) -> int {
        self.max_y - self.min_y + 1
    }
}

/// Some pixel of the `side`×`side` alpha plane `a` is not transparent.
pub open spec fn has_ink(a: Seq<u8>, side: nat) -> bool {
    exists|p: int| 0 <= p < side * side && #[trigger] a[p] > 0
}

/// `b` is the tight box of the non-transparent pixels of `a`: it holds them
/// all, and each of its four edges touches one of them.
pub open spec fn is_tight_box(a: Seq<u8>, side: nat, b: BoundingBox) -> bool {
    let n = side as int;
    &&& b.min_x <= b.max_x < n
    &&& b.min_y <= b.max_y < n
    &&& forall|p: int|
        0 <= p < n * n && #[trigger] a[p] > 0 ==> b.min_x <= p % n <= b.max_x && b.min_y <= p / n
            <= b.max_y
    &&& exists|p: int| 0 <= p < n * n && #[trigger] a[p] > 0 && p % n == b.min_x
    &&& exists|p: int| 0 <= p < n * n && #[trigger] a[p] > 0 && p % n == b.max_x
    &&& exists|p: int| 0 <= p < n * n && #[trigger] a[p] > 0 && p / n == b.min_y
    &&& exists|p: int| 0 <= p < n * n && #[trigger] a[p] > 0 && p / n == b.max_y
}

/// An alpha plane has at most one tight box.
pub proof fn lemma_tight_box_unique(a: Seq<u8>, side: nat, b1: BoundingBox, b2: BoundingBox)
    requires
        is_tight_box(a, side, b1),
        is_tight_box(a, side, b2),
    ensures
        b1 == b2,
{
    let n = side as int;
    let p1 = choose|p: int| 0 <= p < n * n && #[trigger] a[p] > 0 && p % n == b1.min_x;
    let p2 = choose|p: int| 0 <= p < n * n && #[trigger] a[p] > 0 && p % n == b2.min_x;
    let q1 = choose|p: int| 0 <= p < n * n && #[trigger] a[p] > 0 && p % n == b1.max_x;
    let q2 = choose|p: int| 0 <= p < n * n && #[trigger] a[p] > 0 && p % n == b2.max_x;
    let r1 = choose|p: int| 0 <= p < n * n && #[trigger] a[p] > 0 && p / n == b1.min_y;
    let r2 = choose|p: int| 0 <= p < n * n && #[trigger] a[p] > 0 && p / n == b2.min_y;
    let s1 = choose|p: int| 0 <= p < n * n && #[trigger] a[p] > 0 && p / n == b1.max_y;
    let s2 = choose|p: int| 0 <= p < n * n && #[trigger] a[p] > 0 && p / n == b2.max_y;
    assert(a[p1] > 0 && a[p2] > 0 && a[q1] > 0 && a[q2] > 0);
    assert(a[r1] > 0 && a[r2] > 0 && a[s1] > 0 && a[s2] > 0);
}

/// `r` is the bounding box of `a`, or `None` exactly when `a` has no ink.
pub open spec fn box_of(a: Seq<u8>, side: nat, r: Option<BoundingBox>) -> bool {
    match r {
        None => !has_ink(a, side),
        Some(b) => is_tight_box(a, side, b),
    }
}

/// Scans a `side`×`side` alpha plane for the tight box of its
/// non-transparent pixels.
pub fn alpha_bounding_box(alpha: &Vec<u8>, side: u32) -> (r: Option<BoundingBox>)
    requires
        alpha@.len() == (side as nat) * (side as nat),
        (side as nat) * (side as nat) <= usize::MAX,
    ensures
        box_of(alpha@, side as nat, r),
{
    let n: usize = (side as usize) * (side as usize);
    let ghost s = side as int;
    let mut found = false;
    let mut min_x: u32 = 0;
    let mut min_y: u32 = 0;
    let mut max_x: u32 = 0;
    let mut max_y: u32 = 0;
    let ghost mut w_min_x: int = 0;
    let ghost mut w_max_x: int = 0;
    let ghost mut w_min_y: int = 0;
    let ghost mut w_max_y: int = 0;
    let mut p: usize = 0;
    while p < n
        invariant
            n == s * s,
            s == side,
            alpha@.len() == n,
            p <= n,
            !found ==> forall|q: int| 0 <= q < p ==> #[trigger] alpha@[q] == 0,
            found ==> {
                &&& min_x <= max_x < s
                &&& min_y <= max_y < s
                &&& forall|q: int|
                    0 <= q < p && #[trigger] alpha@[q] > 0 ==> min_x <= q % s <= max_x && min_y
                        <= q / s <= max_y
                &&& 0 <= w_min_x < n && alpha@[w_min_x] > 0 && w_min_x % s == min_x
                &&& 0 <= w_max_x < n && alpha@[w_max_x] > 0 && w_max_x % s == max_x
                &&& 0 <= w_min_y < n && alpha@[w_min_y] > 0 && w_min_y / s == min_y
                &&& 0 <= w_max_y < n && alpha@[w_max_y] > 0 && w_max_y / s == max_y
            },
        decreases n - p,
    {
        proof {
            assert(s > 0 && (p as int) / s < s) by (nonlinear_arith)
                requires
                    p < n,
                    n == s * s,
                    s >= 0,
            ;
        }
        if alpha[p] > 0 {
            let x = (p % (side as usize)) as u32;
            let y = (p / (side as usize)) as u32;
            if !found {
                found = true;
                min_x = x;
                max_x = x;
                min_y = y;
                max_y = y;
                proof {
                    w_min_x = p as int;
                    w_max_x = p as int;
                    w_min_y = p as int;
                    w_max_y = p as int;
                }
            } else {
                if x < min_x {
                    min_x = x;
                    proof {
                        w_min_x = p as int;
                    }
                }
                if x > max_x {
                    max_x = x;
                    proof {
                        w_max_x = p as int;
                    }
                }
                if y < min_y {
                    min_y = y;
                    proof {
                        w_min_y = p as int;
                    }
                }
                if y > max_y {
                    max_y = y;
                    proof {
                        w_max_y = p as int;
                    }
                }
            }
        }
        p += 1;
    }
    if found {
        let b = BoundingBox { min_x, min_y, max_x, max_y };
        assert(alpha@[w_min_x] > 0);
        assert(alpha@[w_max_x] > 0);
        assert(alpha@[w_min_y] > 0);
        assert(alpha@[w_max_y] > 0);
        Some(b)
    } else {
        None
    }
}

} // verus!
