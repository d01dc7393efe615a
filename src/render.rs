use vstd::prelude::*;

use crate::canvas::{size_fits, Canvas, Rgb};
use crate::compose::{composite_byte, composite_layer};
use crate::fit::{center_offset, centering_offset, fit_scale, solve_fit, MAX_PADDING};
use crate::glyph::{
    alpha_bounding_box,
    box_of,
    draw_coverage,
    drawable,
    fits_drawing,
    has_ink,
    is_tight_box,
    lemma_tight_box_unique,
    text_coverage,
    BoundingBox,
    GlyphFont,
};
use crate::pattern::{generate_pattern, is_pattern, pattern_byte};

verus! {

/// Pixel scale of the measuring pass.
pub const REF_SCALE: u16 = 200;

/// Side of the scratch canvas of the measuring pass.
pub const REF_CANVAS: u32 = 512;

/// Largest pixel scale handed to the rasterizer.
pub const MAX_SCALE: u16 = 0xffff;

/// Everything a render depends on besides the font and the side length.
#[derive(Clone, Debug)]
pub struct StyleParams {
    pub text: String,
    pub background: Rgb,
    pub grad_start: Rgb,
    pub grad_end: Rgb,
    /// Margin on each edge, in thousandths of the side (at most 400).
    pub padding: u32,
    pub chevron: bool,
}

/// The tight box of `text` drawn at `scale` on a `side`×`side` scratch
/// canvas, or `None` when nothing is drawn (always so for empty text) or
/// the text is too large to be drawn.
pub fn measure_text_bbox(font: &GlyphFont, text: &str, scale: u16, side: u32) -> (r: Option<
    BoundingBox,
>)
    requires
        size_fits(side as nat),
    ensures
        drawable(font.bytes(), text@, scale as nat) ==> box_of(
            text_coverage(font.bytes(), text@, scale as nat, side as nat),
            side as nat,
            r,
        ),
        !drawable(font.bytes(), text@, scale as nat) ==> r is None,
        text@.len() == 0 ==> r is None,
{
    if !fits_drawing(font, text, scale) {
        return None;
    }
    let alpha = draw_coverage(font, text, scale, side);
    proof {
        assert((side as nat) * (side as nat) <= 4 * (side as nat) * (side as nat))
            by (nonlinear_arith);
    }
    let r = alpha_bounding_box(&alpha, side);
    proof {
        if text@.len() == 0 && r is Some {
            let b = r->0;
            let p = choose|p: int|
                0 <= p < (side as int) * (side as int) && #[trigger] alpha@[p] > 0 && p % (
                side as int) == b.min_x;
            assert(alpha@[p] == 0);
        }
    }
    r
}

/// The scale handed to the rasterizer: the fitted one, held at `MAX_SCALE`.
pub open spec fn render_scale(b: BoundingBox, size: int, padding: int) -> int {
    let s = fit_scale(b, REF_SCALE as int, size, padding);
    if s > MAX_SCALE {
        MAX_SCALE as int
    } else {
        s
    }
}

/// `c` is the background of side `size` for `style`.
pub open spec fn is_background(c: Canvas, style: StyleParams, size: nat) -> bool {
    is_pattern(c, style.background, size, style.chevron)
}

/// `c` is the background with the coverage `layer` (of side `2 * size`,
/// whose tight box is `b`) centered on it in the style's gradient.
pub open spec fn is_composited(
    c: Canvas,
    style: StyleParams,
    size: nat,
    layer: Seq<u8>,
    b: BoundingBox,
) -> bool {
    &&& c.wf()
    &&& c.size == size
    &&& forall|p: int, ch: int|
        0 <= p < c.area() && 0 <= ch < 4 ==> #[trigger] c.byte(p, ch) == composite_byte(
            pattern_byte(style.background, size, style.chevron, p, ch),
            layer,
            2 * size as int,
            center_offset(size as int, b.min_x as int, b.max_x as int),
            center_offset(size as int, b.min_y as int, b.max_y as int),
            style.grad_start,
            style.grad_end,
            size as int,
            p,
            ch,
        )
}

/// `c` is the icon of side `size` for `style` and the font file `font`:
/// the background alone when the text is empty, too large to draw, or the
/// measuring pass or the final pass draws nothing; else the text at its
/// fitted scale, centered and blended in.
pub open spec fn is_rendered(c: Canvas, style: StyleParams, font: Seq<u8>, size: nat) -> bool {
    let text = style.text@;
    let reference = text_coverage(font, text, REF_SCALE as nat, REF_CANVAS as nat);
    let measured = text.len() > 0 && drawable(font, text, REF_SCALE as nat);
    &&& !measured ==> is_background(c, style, size)
    &&& measured && !has_ink(reference, REF_CANVAS as nat) ==> is_background(c, style, size)
    &&& measured && has_ink(reference, REF_CANVAS as nat) ==> exists|b: BoundingBox|
        #[trigger] is_tight_box(reference, REF_CANVAS as nat, b)
    &&& forall|b: BoundingBox|
        measured && #[trigger] is_tight_box(reference, REF_CANVAS as nat, b) ==> {
            let scale = render_scale(b, size as int, style.padding as int) as nat;
            let layer = text_coverage(font, text, scale, 2 * size);
            let drawn = drawable(font, text, scale);
            &&& (!drawn || !has_ink(layer, 2 * size)) ==> is_background(c, style, size)
            &&& drawn && has_ink(layer, 2 * size) ==> exists|b2: BoundingBox|
                #[trigger] is_tight_box(layer, 2 * size, b2)
            &&& forall|b2: BoundingBox|
                drawn && #[trigger] is_tight_box(layer, 2 * size, b2) ==> is_composited(
                    c,
                    style,
                    size,
                    layer,
                    b2,
                )
        }
}

/// Renders `style.text` with `font` over the background into a canvas of
/// side `size`: measure at the reference scale, fit, draw at the fitted
/// scale on a scratch canvas twice the side, center the drawn pixels and
/// blend them in the diagonal gradient.
pub fn generate_image(style: &StyleParams, font: &GlyphFont, size: u32) -> (c: Canvas)
    requires
        size_fits(2 * (size as nat)),
        style.padding <= MAX_PADDING,
    ensures
        c.wf(),
        c.size == size,
        c.opaque(),
        is_rendered(c, *style, font.bytes(), size as nat),
{
    proof {
        assert(4 * (size as nat) * (size as nat) <= 4 * (2 * (size as nat)) * (2 * (size as nat)))
            by (nonlinear_arith);
    }
    let mut img = generate_pattern(style.background, size, style.chevron);
    let ghost reference = text_coverage(
        font.bytes(),
        style.text@,
        REF_SCALE as nat,
        REF_CANVAS as nat,
    );
    if style.text.as_str().is_empty() {
        return img;
    }
    let b = match measure_text_bbox(font, style.text.as_str(), REF_SCALE, REF_CANVAS) {
        Some(b) => b,
        None => {
            return img;
        },
    };
    assert(is_tight_box(reference, REF_CANVAS as nat, b));
    let fitted = solve_fit(b, REF_SCALE, size, style.padding);
    let scale: u16 = if fitted > MAX_SCALE as u64 {
        MAX_SCALE
    } else {
        fitted as u16
    };
    proof {
        assert(2 * size < 0x1_0000_0000) by (nonlinear_arith)
            requires
                size_fits(2 * (size as nat)),
                isize::MAX < 0x8000_0000_0000_0000,
        ;
    }
    let side = 2 * size;
    proof {
        assert((side as nat) * (side as nat) <= 4 * (side as nat) * (side as nat))
            by (nonlinear_arith);
        assert forall|b1: BoundingBox| #[trigger]
            is_tight_box(reference, REF_CANVAS as nat, b1) implies b1 == b by {
            lemma_tight_box_unique(reference, REF_CANVAS as nat, b1, b);
        }
    }
    if !fits_drawing(font, style.text.as_str(), scale) {
        return img;
    }
    let layer = draw_coverage(font, style.text.as_str(), scale, side);
    let b2 = match alpha_bounding_box(&layer, side) {
        Some(b2) => b2,
        None => {
            return img;
        },
    };
    let ox = centering_offset(size, b2.min_x, b2.max_x);
    let oy = centering_offset(size, b2.min_y, b2.max_y);
    assert(is_tight_box(layer@, side as nat, b2));
    let ghost before = img;
    composite_layer(&mut img, &layer, side, ox, oy, style.grad_start, style.grad_end);
    proof {
        assert forall|b3: BoundingBox| #[trigger]
            is_tight_box(layer@, side as nat, b3) implies b3 == b2 by {
            lemma_tight_box_unique(layer@, side as nat, b3, b2);
        }
        assert forall|p: int, ch: int| 0 <= p < img.area() && 0 <= ch < 4 implies #[trigger] img.byte(
            p,
            ch,
        ) == composite_byte(
            pattern_byte(style.background, size as nat, style.chevron, p, ch),
            layer@,
            2 * size as int,
            center_offset(size as int, b2.min_x as int, b2.max_x as int),
            center_offset(size as int, b2.min_y as int, b2.max_y as int),
            style.grad_start,
            style.grad_end,
            size as int,
            p,
            ch,
        ) by {
            assert(before.byte(p, ch) == pattern_byte(
                style.background,
                size as nat,
                style.chevron,
                p,
                ch,
            ));
        }
        assert forall|p: int| 0 <= p < img.area() implies #[trigger] img.byte(p, 3) == 255 by {
            assert(before.byte(p, 3) == 255);
            assert(img.byte(p, 3) == composite_byte(
                before.byte(p, 3),
                layer@,
                side as int,
                ox as int,
                oy as int,
                style.grad_start,
                style.grad_end,
                size as int,
                p,
                3,
            ));
        }
    }
    img
}

/// Two well-formed canvases of one side with the same bytes at every
/// pixel hold the same buffer.
proof fn lemma_same_bytes(c1: Canvas, c2: Canvas)
    requires
        c1.wf(),
        c2.wf(),
        c1.size == c2.size,
        forall|p: int, ch: int|
            0 <= p < c1.area() && 0 <= ch < 4 ==> #[trigger] c1.byte(p, ch) == c2.byte(p, ch),
    ensures
        c1.pixels@ == c2.pixels@,
{
    let size = c1.size as nat;
    assert forall|k: int| 0 <= k < c1.pixels@.len() implies c1.pixels@[k] == c2.pixels@[k] by {
        let p = k / 4;
        let ch = k % 4;
        assert(4 * size * size == 4 * (size * size)) by (nonlinear_arith);
        assert(0 <= p < c1.area()) by (nonlinear_arith)
            requires
                0 <= k < 4 * (size * size),
                p == k / 4,
                c1.area() == size * size,
        ;
        assert(c1.byte(p, ch) == c2.byte(p, ch));
    }
    assert(c1.pixels@ =~= c2.pixels@);
}

proof fn lemma_background_unique(c1: Canvas, c2: Canvas, style: StyleParams, size: nat)
    requires
        is_background(c1, style, size),
        is_background(c2, style, size),
    ensures
        c1.size == c2.size,
        c1.pixels@ == c2.pixels@,
{
    assert forall|p: int, ch: int| 0 <= p < c1.area() && 0 <= ch < 4 implies #[trigger] c1.byte(
        p,
        ch,
    ) == c2.byte(p, ch) by {
        assert(c1.byte(p, ch) == pattern_byte(style.background, size, style.chevron, p, ch));
        assert(c2.byte(p, ch) == pattern_byte(style.background, size, style.chevron, p, ch));
    }
    lemma_same_bytes(c1, c2);
}

/// With empty text the icon is exactly the background that
/// `generate_pattern` makes for the same color, side and pattern switch.
pub proof fn lemma_empty_text_is_background(
    icon: Canvas,
    background: Canvas,
    style: StyleParams,
    font: Seq<u8>,
    size: nat,
)
    requires
        is_rendered(icon, style, font, size),
        style.text@.len() == 0,
        is_pattern(background, style.background, size, style.chevron),
    ensures
        icon.size == background.size,
        icon.pixels@ == background.pixels@,
{
    lemma_background_unique(icon, background, style, size);
}

/// Rendering is deterministic: two icons rendered from the same style,
/// font bytes and side are the same canvas, byte for byte.
pub proof fn lemma_render_deterministic(
    c1: Canvas,
    c2: Canvas,
    style: StyleParams,
    font: Seq<u8>,
    size: nat,
)
    requires
        is_rendered(c1, style, font, size),
        is_rendered(c2, style, font, size),
    ensures
        c1.size == c2.size,
        c1.pixels@ == c2.pixels@,
{
    let text = style.text@;
    let reference = text_coverage(font, text, REF_SCALE as nat, REF_CANVAS as nat);
    let measured = text.len() > 0 && drawable(font, text, REF_SCALE as nat);
    if !measured || !has_ink(reference, REF_CANVAS as nat) {
        lemma_background_unique(c1, c2, style, size);
    } else {
        let b = choose|b: BoundingBox| #[trigger] is_tight_box(reference, REF_CANVAS as nat, b);
        let scale = render_scale(b, size as int, style.padding as int) as nat;
        let layer = text_coverage(font, text, scale, 2 * size);
        if !drawable(font, text, scale) || !has_ink(layer, 2 * size) {
            lemma_background_unique(c1, c2, style, size);
        } else {
            let b2 = choose|b2: BoundingBox| #[trigger] is_tight_box(layer, 2 * size, b2);
            assert(is_composited(c1, style, size, layer, b2));
            assert(is_composited(c2, style, size, layer, b2));
            assert forall|p: int, ch: int| 0 <= p < c1.area() && 0 <= ch < 4 implies #[trigger] c1.byte(
                p,
                ch,
            ) == c2.byte(p, ch) by {
                assert(c2.byte(p, ch) == composite_byte(
                    pattern_byte(style.background, size, style.chevron, p, ch),
                    layer,
                    2 * size as int,
                    center_offset(size as int, b2.min_x as int, b2.max_x as int),
                    center_offset(size as int, b2.min_y as int, b2.max_y as int),
                    style.grad_start,
                    style.grad_end,
                    size as int,
                    p,
                    ch,
                ));
            }
            lemma_same_bytes(c1, c2);
        }
    }
}

} // verus!
