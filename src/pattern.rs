use vstd::prelude::*;

use crate::canvas::{area_of, sat_add, sat_sub, size_fits, Canvas, Rgb};

verus! {

/// Width in pixels of one period of the horizontal zigzag.
pub const ZIGZAG_PERIOD: u32 = 20;

/// Vertical distance between two stripes.
pub const STRIPE_SPACING: u32 = 6;

/// Brightening of the highlight line.
pub const HIGHLIGHT: u8 = 10;

/// Darkening of the shadow line under the highlight.
pub const SHADOW: u8 = 6;

/// Triangle wave: distance of `x mod 20` from the middle of the period.
pub open spec fn zigzag(x: int) -> int {
    let m = x % (ZIGZAG_PERIOD as int) - (ZIGZAG_PERIOD as int) / 2;
    if m < 0 {
        -m
    } else {
        m
    }
}

/// Stripe residue of the pixel at column `x`, row `y`.
pub open spec fn stripe(x: int, y: int) -> int {
    (y + zigzag(x)) % (STRIPE_SPACING as int)
}

/// Color channel `c` of the background at column `x`, row `y`.
pub open spec fn pattern_channel(c: u8, x: int, y: int, chevron: bool) -> u8 {
    if !chevron {
        c
    } else if stripe(x, y) == 0 {
        sat_add(c, HIGHLIGHT)
    } else if stripe(x, y) == 1 {
        sat_sub(c, SHADOW)
    } else {
        c
    }
}

/// Byte `ch` of pixel number `p` of the background of side `size`.
pub open spec fn pattern_byte(base: Rgb, size: nat, chevron: bool, p: int, ch: int) -> u8 {
    if ch == 3 {
        255
    } else {
        pattern_channel(base.channel(ch), p % (size as int), p / (size as int), chevron)
    }
}

/// The background of side `size`, as the whole canvas.
pub open spec fn is_pattern(c: Canvas, base: Rgb, size: nat, chevron: bool) -> bool {
    &&& c.wf()
    &&& c.size == size
    &&& forall|p: int, ch: int|
        0 <= p < c.area() && 0 <= ch < 4 ==> #[trigger] c.byte(p, ch) == pattern_byte(
            base,
            size,
            chevron,
            p,
            ch,
        )
}

fn saturating_add(a: u8, d: u8) -> (r: u8)
    ensures
        r == sat_add(a, d),
{
    if a > 255 - d {
        255
    } else {
        a + d
    }
}

fn saturating_sub(a: u8, d: u8) -> (r: u8)
    ensures
        r == sat_sub(a, d),
{
    if a < d {
        0
    } else {
        a - d
    }
}

fn stripe_of(x: u32, y: u32) -> (r: u32)
    ensures
        r as int == stripe(x as int, y as int),
{
    let m = x % ZIGZAG_PERIOD;
    let z: u32 = if m < ZIGZAG_PERIOD / 2 {
        ZIGZAG_PERIOD / 2 - m
    } else {
        m - ZIGZAG_PERIOD / 2
    };
    (y % STRIPE_SPACING + z) % STRIPE_SPACING
}

/// Fills a `size`×`size` canvas with `base` at full opacity and, when
/// `chevron` is set, overlays the zigzag stripes: residue 0 of
/// `(y + zigzag(x)) mod 6` is brightened by 10, residue 1 darkened by 6.
pub fn generate_pattern(base: Rgb, size: u32, chevron: bool) -> (c: Canvas)
    requires
        size_fits(size as nat),
    ensures
        is_pattern(c, base, size as nat, chevron),
        c.opaque(),
{
    let n = area_of(size);
    let mut pixels: Vec<u8> = Vec::with_capacity(4 * n);
    let mut p: usize = 0;
    while p < n
        invariant
            n as nat == (size as nat) * (size as nat),
            4 * (n as nat) <= usize::MAX,
            p <= n,
            pixels@.len() == 4 * p,
            forall|q: int, ch: int|
                0 <= q < p && 0 <= ch < 4 ==> #[trigger] pixels@[4 * q + ch] == pattern_byte(
                    base,
                    size as nat,
                    chevron,
                    q,
                    ch,
                ),
        decreases n - p,
    {
        proof {
            assert(size > 0) by (nonlinear_arith)
                requires
                    p < n,
                    n as nat == (size as nat) * (size as nat),
            ;
            assert((p as int) / (size as int) < size) by (nonlinear_arith)
                requires
                    p < n,
                    n as nat == (size as nat) * (size as nat),
                    size > 0,
            ;
        }
        let x = (p % (size as usize)) as u32;
        let y = (p / (size as usize)) as u32;
        let s = stripe_of(x, y);
        let mut ch: usize = 0;
        while ch < 4
            invariant
                0 <= ch <= 4,
                p < n,
                4 * (n as nat) <= usize::MAX,
                pixels@.len() == 4 * p + ch,
                x as int == p as int % (size as int),
                y as int == p as int / (size as int),
                s as int == stripe(x as int, y as int),
                forall|q: int, c: int|
                    0 <= q < p && 0 <= c < 4 ==> #[trigger] pixels@[4 * q + c] == pattern_byte(
                        base,
                        size as nat,
                        chevron,
                        q,
                        c,
                    ),
                forall|c: int|
                    0 <= c < ch ==> #[trigger] pixels@[4 * p + c] == pattern_byte(
                        base,
                        size as nat,
                        chevron,
                        p as int,
                        c,
                    ),
            decreases 4 - ch,
        {
            let v: u8 = if ch == 3 {
                255
            } else {
                let c = base.get(ch);
                if !chevron {
                    c
                } else if s == 0 {
                    saturating_add(c, HIGHLIGHT)
                } else if s == 1 {
                    saturating_sub(c, SHADOW)
                } else {
                    c
                }
            };
            pixels.push(v);
            ch += 1;
        }
        p += 1;
    }
    let c = Canvas { size, pixels };
    assert(4 * (size as nat) * (size as nat) == 4 * (n as nat)) by (nonlinear_arith)
        requires
            n as nat == (size as nat) * (size as nat),
    ;
    assert forall|q: int, ch: int| 0 <= q < c.area() && 0 <= ch < 4 implies #[trigger] c.byte(q, ch)
        == pattern_byte(base, size as nat, chevron, q, ch) by {
        assert(pixels@[4 * q + ch] == pattern_byte(base, size as nat, chevron, q, ch));
    }
    assert forall|q: int| 0 <= q < c.area() implies #[trigger] c.byte(q, 3) == 255 by {
        assert(c.byte(q, 3) == pattern_byte(base, size as nat, chevron, q, 3));
    }
    c
}

} // verus!
