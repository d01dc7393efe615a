use vstd::prelude::*;

use crate::glyph::BoundingBox;

verus! {

/// Padding is given in thousandths of the canvas side, per edge.
pub const PADDING_UNIT: u32 = 1000;

/// Largest accepted padding: four tenths of the side on each edge.
pub const MAX_PADDING: u32 = 400;

/// The larger of the box's two sides.
pub open spec fn longer_side(b: BoundingBox) -> int {
    if b.width() >= b.height() {
        b.width()
    } else {
        b.height()
    }
}

/// The drawing area left by `padding` thousandths on each edge, times 1000.
pub open spec fn scaled_target(size: int, padding: int) -> int {
    size * (PADDING_UNIT - 2 * padding)
}

/// `ref_scale` times the tighter of `target / width` and `target / height`,
/// rounded down, where `target = size * (1 - 2 * padding / 1000)`.
pub open spec fn fit_scale(b: BoundingBox, ref_scale: int, size: int, padding: int) -> int {
    (ref_scale * scaled_target(size, padding)) / (PADDING_UNIT * longer_side(b))
}

/// Scale at which text that measured `b` at `ref_scale` fills a square of
/// side `size` less the padding, keeping its aspect ratio.
pub fn solve_fit(b: BoundingBox, ref_scale: u16, size: u32, padding: u32) -> (r: u64)
    requires
        b.min_x <= b.max_x,
        b.min_y <= b.max_y,
        padding <= MAX_PADDING,
    ensures
        r == fit_scale(b, ref_scale as int, size as int, padding as int),
{
    let w: u64 = (b.max_x - b.min_x) as u64 + 1;
    let h: u64 = (b.max_y - b.min_y) as u64 + 1;
    let m: u64 = if w >= h {
        w
    } else {
        h
    };
    let keep: u64 = (PADDING_UNIT - 2 * padding) as u64;
    proof {
        assert((size as u64) * keep <= 0xffff_ffff_u64 * 1000) by (nonlinear_arith)
            requires
                size <= 0xffff_ffff_u64,
                keep <= 1000,
        ;
    }
    let t: u64 = (size as u64) * keep;
    proof {
        assert(t <= 0xffff_ffff_u64 * 1000) by (nonlinear_arith)
            requires
                t == (size as int) * ((PADDING_UNIT - 2 * padding) as int),
                size <= 0xffff_ffff_u64,
                (PADDING_UNIT - 2 * padding) <= 1000,
                (PADDING_UNIT - 2 * padding) >= 0,
        ;
        assert((ref_scale as int) * t <= 0xffff * 0xffff_ffff_u64 * 1000) by (nonlinear_arith)
            requires
                t <= 0xffff_ffff_u64 * 1000,
                ref_scale <= 0xffff,
        ;
    }
    (ref_scale as u64) * t / (1000 * m)
}

/// Shift that moves the pixel span `lo..=hi` to the middle of `0..size`:
/// the space left over is halved, rounding down, on the low side.
pub open spec fn center_offset(size: int, lo: int, hi: int) -> int {
    (size - (hi - lo + 1)) / 2 - lo
}

/// The offset `center_offset(size, lo, hi)`.
pub fn centering_offset(size: u32, lo: u32, hi: u32) -> (r: i64)
    requires
        lo <= hi,
    ensures
        r == center_offset(size as int, lo as int, hi as int),
{
    let d: i64 = size as i64 - ((hi - lo) as i64 + 1);
    let half: i64 = if d >= 0 {
        d / 2
    } else {
        -((1 - d) / 2)
    };
    half - lo as i64
}

/// A span placed by `center_offset` has as much room before it as after
/// it, or one pixel more after it.
pub proof fn lemma_span_centered(size: int, lo: int, hi: int)
    requires
        lo <= hi,
    ensures
        ({
            let off = center_offset(size, lo, hi);
            let before = lo + off;
            let after = size - 1 - (hi + off);
            after == before || after == before + 1
        }),
{
}

} // verus!
