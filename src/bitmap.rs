use vstd::prelude::*;

use crate::bytes::{le16, le32, push_u16, push_u32, push_zeros, zeros};
use crate::canvas::{area_of, size_fits, Canvas};

verus! {

/// Size of the bitmap info header.
pub const BMP_HEADER_LEN: u32 = 40;

/// Bytes of the all-zero AND mask: rows of one bit per pixel, each padded
/// to a multiple of four bytes.
pub open spec fn mask_len(size: nat) -> nat {
    ((size + 31) / 32) * 4 * size
}

/// Bitmap info header for a masked 32-bit icon image of side `size`: the
/// height field is twice the side, one plane, 32 bits per pixel, and zero
/// compression, image size, resolution and palette fields.
pub open spec fn bmp_header(size: nat) -> Seq<u8> {
    le32(BMP_HEADER_LEN as nat) + le32(size) + le32(2 * size) + le16(1) + le16(32) + zeros(24)
}

/// Byte `k` of the pixel data: rows bottom-up, each pixel as B, G, R, A.
pub open spec fn bmp_pixel_byte(size: nat, px: Seq<u8>, k: int) -> u8 {
    let n = size as int;
    let j = k / 4;
    let m = k % 4;
    let row = n - 1 - j / n;
    let col = j % n;
    let ch = if m == 3 {
        3
    } else {
        2 - m
    };
    px[4 * (row * n + col) + ch]
}

/// The pixel data of the RGBA pixels `px` of a square of side `size`.
pub open spec fn bmp_pixels(size: nat, px: Seq<u8>) -> Seq<u8> {
    Seq::new(4 * size * size, |k: int| bmp_pixel_byte(size, px, k))
}

/// The whole bitmap payload of the RGBA pixels `px` of a square of side
/// `size`: header, pixel data, mask.
pub open spec fn bmp_payload(size: nat, px: Seq<u8>) -> Seq<u8> {
    bmp_header(size) + bmp_pixels(size, px) + zeros(mask_len(size))
}

/// Encodes `c` as an uncompressed 32-bit icon bitmap with its mask.
pub fn encode_bmp(c: &Canvas) -> (r: Vec<u8>)
    requires
        c.wf(),
    ensures
        r@ == bmp_payload(c.size as nat, c.pixels@),
        r@.len() == BMP_HEADER_LEN + 4 * c.area() + mask_len(c.size as nat),
{
    let size = c.size;
    let n = area_of(size);
    proof {
        assert(2 * size < 0x1_0000_0000 && ((size as int + 31) / 32) * 4 * size <= 4 * n)
            by (nonlinear_arith)
            requires
                size_fits(size as nat),
                n == (size as int) * (size as int),
                isize::MAX < 0x8000_0000_0000_0000,
        ;
    }
    let mut out: Vec<u8> = Vec::new();
    push_u32(&mut out, BMP_HEADER_LEN);
    push_u32(&mut out, size);
    push_u32(&mut out, 2 * size);
    push_u16(&mut out, 1);
    push_u16(&mut out, 32);
    push_zeros(&mut out, 24);
    let ghost header = out@;
    assert(c.pixels@.len() == 4 * n) by (nonlinear_arith)
        requires
            c.pixels@.len() == 4 * (size as nat) * (size as nat),
            n == (size as int) * (size as int),
    ;
    assert(header =~= bmp_header(size as nat));
    let mut j: usize = 0;
    while j < n
        invariant
            c.wf(),
            c.size == size,
            n == c.area(),
            4 * n <= usize::MAX,
            c.pixels@.len() == 4 * n,
            j <= n,
            header == bmp_header(size as nat),
            out@ =~= header + Seq::new(4 * (j as nat), |k: int| bmp_pixel_byte(size as nat, c.pixels@, k)),
        decreases n - j,
    {
        proof {
            assert(size > 0 && (j as int) / (size as int) < size) by (nonlinear_arith)
                requires
                    j < n,
                    n == (size as int) * (size as int),
            ;
        }
        let row = size as usize - 1 - j / (size as usize);
        let col = j % (size as usize);
        proof {
            assert(row * (size as int) + col < n) by (nonlinear_arith)
                requires
                    row < size,
                    col < size,
                    n == (size as int) * (size as int),
            ;
        }
        let src = 4 * (row * (size as usize) + col);
        out.push(c.pixels[src + 2]);
        out.push(c.pixels[src + 1]);
        out.push(c.pixels[src]);
        out.push(c.pixels[src + 3]);
        proof {
            let s = Seq::new(4 * ((j + 1) as nat), |k: int| bmp_pixel_byte(size as nat, c.pixels@, k));
            assert forall|k: int| 4 * j <= k < 4 * j + 4 implies s[k] == out@[header.len() + k] by {
                assert(k / 4 == j);
            }
        }
        j += 1;
    }
    let mlen = ((size as usize + 31) / 32) * 4 * (size as usize);
    push_zeros(&mut out, mlen);
    assert(out@ =~= bmp_payload(c.size as nat, c.pixels@));
    out
}

/// A bitmap payload starts with the header length 40, declares twice the
/// side as its height, and is header, pixels and mask long.
pub proof fn lemma_bmp_layout(size: nat, px: Seq<u8>)
    ensures
        bmp_payload(size, px).subrange(0, 4) == le32(40),
        bmp_payload(size, px).subrange(8, 12) == le32(2 * size),
        bmp_payload(size, px).len() == 40 + 4 * size * size + mask_len(size),
{
    assert(bmp_payload(size, px).subrange(0, 4) =~= le32(40));
    assert(bmp_payload(size, px).subrange(8, 12) =~= le32(2 * size));
}

} // verus!
