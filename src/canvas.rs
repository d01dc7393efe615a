use vstd::prelude::*;

verus! {

/// An opaque color as three 8-bit channels.
#[derive(Clone, Copy, Debug, PartialEq, Eq, Structural)]
pub struct Rgb {
    pub r: u8,
    pub g: u8,
    pub b: u8,
}

impl Rgb {
    pub open spec fn channel(self, ch: int) -> u8 {
        if ch == 0 {
            self.r
        } else if ch == 1 {
            self.g
        } else {
            self.b
        }
    }

    pub fn new(r: u8, g: u8, b: u8) -> (c: Rgb)
        ensures
            c == (Rgb { r, g, b }),
    {
        Rgb { r, g, b }
    }

    /// The channel with index `ch` (0 red, 1 green, 2 blue).
    pub fn get(&self, ch: usize) -> (v: u8)
        requires
            ch < 3,
        ensures
            v == self.channel(ch as int),
    {
        if ch == 0 {
            self.r
        } else if ch == 1 {
            self.g
        } else {
            self.b
        }
    }
}

/// A square grid of RGBA pixels, row-major from the top row down,
/// four bytes per pixel.
#[derive(Clone, Debug)]
pub struct Canvas {
    pub size: u32,
    pub pixels: Vec<u8>,
}

/// A side length whose pixel buffer fits in one allocation.
pub open spec fn size_fits(size: nat) -> bool {
    4 * size * size <= isize::MAX
}

impl Canvas {
    pub open spec fn wf(&self) -> bool {
        &&& self.pixels@.len() == 4 * (self.size as nat) * (self.size as nat)
        &&& size_fits(self.size as nat)
    }

    /// Number of pixels.
    pub open spec fn area(&self) -> nat {
        (self.size as nat) * (self.size as nat)
    }

    /// Byte `ch` (0 red .. 3 alpha) of pixel number `p` (row-major).
    pub open spec fn byte(&self, p: int, ch: int) -> u8 {
        self.pixels@[4 * p + ch]
    }

    /// Every pixel is fully opaque.
    pub open spec fn opaque(&self) -> bool {
        forall|p: int| 0 <= p < self.area() ==> #[trigger] self.byte(p, 3) == 255
    }

    pub fn size(&self) -> (s: u32)
        ensures
            s == self.size,
    {
        self.size
    }

    pub fn pixels(&self) -> (v: &Vec<u8>)
        ensures
            v@ == self.pixels@,
    {
        &self.pixels
    }
}

/// `a + d`, held at 255.
pub open spec fn sat_add(a: u8, d: u8) -> u8 {
    if a as int + d as int > 255 {
        255
    } else {
        (a + d) as u8
    }
}

/// `a - d`, held at 0.
pub open spec fn sat_sub(a: u8, d: u8) -> u8 {
    if a < d {
        0
    } else {
        (a - d) as u8
    }
}

/// Pixel count of a square of side `size`, as an index bound.
pub fn area_of(size: u32) -> (n: usize)
    requires
        size_fits(size as nat),
    ensures
        n as nat == (size as nat) * (size as nat),
        4 * (n as nat) <= usize::MAX,
{
    proof {
        let s = size as nat;
        assert(s * s <= 4 * s * s) by (nonlinear_arith);
        assert(4 * s * s == 4 * (s * s)) by (nonlinear_arith);
    }
    (size as usize) * (size as usize)
}

} // verus!
