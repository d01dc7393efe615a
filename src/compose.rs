use vstd::prelude::*;

use crate::canvas::{area_of, size_fits, Canvas, Rgb};

verus! {

/// Gradient position of column `x`, row `y` of a canvas of side `size`,
/// as a numerator over `2 * size`: `x + (size - y)`, clamped to
/// `0..=2 * size`.
pub open spec fn gradient_pos(x: int, y: int, size: int) -> int {
    let t = x + (size - y);
    if t < 0 {
        0
    } else if t > 2 * size {
        2 * size
    } else {
        t
    }
}

/// Channel value `a + (b - a) * t` at `t = pos / den`, rounded down.
pub open spec fn lerp(a: u8, b: u8, pos: int, den: int) -> int {
    (a * (den - pos) + b * pos) / den
}

/// `fg * alpha + bg * (1 - alpha)` with `alpha = a / 255`, rounded down.
pub open spec fn blend(fg: int, bg: u8, a: u8) -> int {
    (fg * a + bg * (255 - a)) / 255
}

/// Coverage of the layer pixel that lands on column `x`, row `y` of the
/// canvas, or 0 when it falls outside the layer.
pub open spec fn layer_alpha(layer: Seq<u8>, side: int, ox: int, oy: int, x: int, y: int) -> u8 {
    let sx = x - ox;
    let sy = y - oy;
    if 0 <= sx < side && 0 <= sy < side {
        layer[sy * side + sx]
    } else {
        0
    }
}

/// Byte `ch` of pixel `p` once the gradient-filled layer, shifted by
/// `(ox, oy)`, is blended over a canvas of side `size` that held `old`
/// there.
pub open spec fn composite_byte(
    old: u8,
    layer: Seq<u8>,
    side: int,
    ox: int,
    oy: int,
    start: Rgb,
    end: Rgb,
    size: int,
    p: int,
    ch: int,
) -> u8 {
    let x = p % size;
    let y = p / size;
    let a = layer_alpha(layer, side, ox, oy, x, y);
    if a == 0 {
        old
    } else if ch == 3 {
        255
    } else {
        blend(
            lerp(start.channel(ch), end.channel(ch), gradient_pos(x, y, size), 2 * size),
            old,
            a,
        ) as u8
    }
}

proof fn lemma_lerp_bounds(a: u8, b: u8, pos: int, den: int)
    requires
        0 <= pos <= den,
        den > 0,
    ensures
        0 <= lerp(a, b, pos, den) <= 255,
{
    assert(0 <= a * (den - pos) + b * pos <= 255 * den) by (nonlinear_arith)
        requires
            0 <= pos <= den,
            0 <= a <= 255,
            0 <= b <= 255,
    ;
    assert(lerp(a, b, pos, den) <= 255) by (nonlinear_arith)
        requires
            0 <= a * (den - pos) + b * pos <= 255 * den,
            den > 0,
            lerp(a, b, pos, den) == (a * (den - pos) + b * pos) / den,
    ;
}

/// The gradient's channel at a position.
fn lerp_channel(a: u8, b: u8, pos: u64, den: u64) -> (r: u8)
    requires
        pos <= den,
        0 < den <= 0x1_0000_0000_0000,
    ensures
        r == lerp(a, b, pos as int, den as int),
{
    proof {
        lemma_lerp_bounds(a, b, pos as int, den as int);
        assert((a as int) * ((den - pos) as int) <= 255 * 0x1_0000_0000_0000) by (nonlinear_arith)
            requires
                a <= 255,
                den - pos <= 0x1_0000_0000_0000,
                den - pos >= 0,
        ;
        assert((b as int) * (pos as int) <= 255 * 0x1_0000_0000_0000) by (nonlinear_arith)
            requires
                b <= 255,
                pos <= 0x1_0000_0000_0000,
        ;
    }
    (((a as u64) * (den - pos) + (b as u64) * pos) / den) as u8
}

/// Source-over blend of `fg` on `bg` with coverage `a`.
fn blend_channel(fg: u8, bg: u8, a: u8) -> (r: u8)
    ensures
        r == blend(fg as int, bg, a),
{
    proof {
        assert(0 <= (fg as int) * (a as int) + (bg as int) * (255 - a) <= 255 * 255)
            by (nonlinear_arith)
            requires
                fg <= 255,
                bg <= 255,
                a <= 255,
        ;
    }
    (((fg as u32) * (a as u32) + (bg as u32) * (255 - a as u32)) / 255) as u8
}

/// Blends the coverage `layer` (side `side`, shifted by `(ox, oy)`) over
/// `img`, each covered pixel taking the diagonal gradient from `start`
/// to `end` at its own position; covered pixels become opaque, the rest
/// stay as they were.
pub fn composite_layer(
    img: &mut Canvas,
    layer: &Vec<u8>,
    side: u32,
    ox: i64,
    oy: i64,
    start: Rgb,
    end: Rgb,
)
    requires
        old(img).wf(),
        layer@.len() == (side as nat) * (side as nat),
        (side as nat) * (side as nat) <= usize::MAX,
        -0x1_0000_0000_0000 <= ox <= 0x1_0000_0000_0000,
        -0x1_0000_0000_0000 <= oy <= 0x1_0000_0000_0000,
    ensures
        final(img).wf(),
        final(img).size == old(img).size,
        forall|p: int, ch: int|
            0 <= p < old(img).area() && 0 <= ch < 4 ==> #[trigger] final(img).byte(p, ch)
                == composite_byte(
                old(img).byte(p, ch),
                layer@,
                side as int,
                ox as int,
                oy as int,
                start,
                end,
                old(img).size as int,
                p,
                ch,
            ),
{
    let size = img.size;
    let n = area_of(size);
    let ghost old_img = *img;
    proof {
        assert(4 * (size as nat) * (size as nat) == 4 * (n as nat)) by (nonlinear_arith)
            requires
                n == (size as nat) * (size as nat),
        ;
    }
    let mut p: usize = 0;
    while p < n
        invariant
            img.size == size,
            size == old_img.size,
            old_img.wf(),
            n == old_img.area(),
            img.pixels@.len() == 4 * n,
            4 * (size as nat) * (size as nat) == 4 * (n as nat),
            4 * n <= usize::MAX,
            size_fits(size as nat),
            p <= n,
            layer@.len() == (side as nat) * (side as nat),
            (side as nat) * (side as nat) <= usize::MAX,
            -0x1_0000_0000_0000 <= ox <= 0x1_0000_0000_0000,
            -0x1_0000_0000_0000 <= oy <= 0x1_0000_0000_0000,
            forall|q: int, ch: int|
                0 <= q < p && 0 <= ch < 4 ==> #[trigger] img.byte(q, ch) == composite_byte(
                    old_img.byte(q, ch),
                    layer@,
                    side as int,
                    ox as int,
                    oy as int,
                    start,
                    end,
                    size as int,
                    q,
                    ch,
                ),
            forall|q: int, ch: int|
                p <= q < n && 0 <= ch < 4 ==> #[trigger] img.byte(q, ch) == old_img.byte(q, ch),
        decreases n - p,
    {
        proof {
            assert(size > 0 && (p as int) / (size as int) < size) by (nonlinear_arith)
                requires
                    p < n,
                    n == (size as int) * (size as int),
            ;
        }
        let ghost before = img.pixels@;
        let ghost before_img = *img;
        proof {
            assert forall|c: int| 0 <= c < 4 implies before[4 * p + c] == old_img.byte(
                p as int,
                c,
            ) by {
                assert(img.byte(p as int, c) == old_img.byte(p as int, c));
            }
        }
        let x = (p % (size as usize)) as u32;
        let y = (p / (size as usize)) as u32;
        let sx: i64 = x as i64 - ox;
        let sy: i64 = y as i64 - oy;
        let a: u8 = if 0 <= sx && sx < side as i64 && 0 <= sy && sy < side as i64 {
            proof {
                assert(sy * (side as int) + sx < (side as int) * (side as int)) by (nonlinear_arith)
                    requires
                        0 <= sx < side,
                        0 <= sy < side,
                ;
            }
            layer[(sy as usize) * (side as usize) + (sx as usize)]
        } else {
            0
        };
        assert(a == layer_alpha(layer@, side as int, ox as int, oy as int, x as int, y as int));
        let i = 4 * p;
        if a > 0 {
            let den: u64 = 2 * (size as u64);
            let pos: u64 = x as u64 + (size - y) as u64;
            assert(pos as int == gradient_pos(x as int, y as int, size as int));
            let r = blend_channel(lerp_channel(start.r, end.r, pos, den), img.pixels[i], a);
            let g = blend_channel(lerp_channel(start.g, end.g, pos, den), img.pixels[i + 1], a);
            let b = blend_channel(lerp_channel(start.b, end.b, pos, den), img.pixels[i + 2], a);
            img.pixels[i] = r;
            img.pixels[i + 1] = g;
            img.pixels[i + 2] = b;
            img.pixels[i + 3] = 255;
        }
        proof {
            assert forall|c: int| 0 <= c < 4 implies #[trigger] img.byte(p as int, c)
                == composite_byte(
                old_img.byte(p as int, c),
                layer@,
                side as int,
                ox as int,
                oy as int,
                start,
                end,
                size as int,
                p as int,
                c,
            ) by {
                assert(old_img.byte(p as int, c) == before[4 * p + c]);
            }
            assert forall|q: int, c: int| 0 <= q < n && q != p && 0 <= c < 4 implies #[trigger] img.byte(q, c)
                == before_img.byte(q, c) by {}
            assert forall|q: int, c: int| 0 <= q < p && 0 <= c < 4 implies #[trigger] img.byte(q, c)
                == composite_byte(
                old_img.byte(q, c),
                layer@,
                side as int,
                ox as int,
                oy as int,
                start,
                end,
                size as int,
                q,
                c,
            ) by {
                assert(img.byte(q, c) == before_img.byte(q, c));
            }
            assert forall|q: int, c: int| p < q < n && 0 <= c < 4 implies #[trigger] img.byte(q, c)
                == old_img.byte(q, c) by {
                assert(img.byte(q, c) == before_img.byte(q, c));
            }
        }
        p += 1;
    }
}

} // verus!
