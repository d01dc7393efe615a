use vstd::prelude::*;

verus! {

/// The two bytes of `x`, least significant first.
pub open spec fn le16(x: nat) -> Seq<u8> {
    seq![(x % 256) as u8, ((x / 256) % 256) as u8]
}

/// The four bytes of `x`, least significant first.
pub open spec fn le32(x: nat) -> Seq<u8> {
    seq![
        (x % 256) as u8,
        ((x / 256) % 256) as u8,
        ((x / 65536) % 256) as u8,
        ((x / 16777216) % 256) as u8,
    ]
}

/// The little-endian 16-bit number at `k` in `s`.
pub open spec fn read16(s: Seq<u8>, k: int) -> nat {
    (s[k] + 256 * s[k + 1]) as nat
}

/// The little-endian 32-bit number at `k` in `s`.
pub open spec fn read32(s: Seq<u8>, k: int) -> nat {
    (s[k] + 256 * s[k + 1] + 65536 * s[k + 2] + 16777216 * s[k + 3]) as nat
}

/// `n` zero bytes.
pub open spec fn zeros(n: nat) -> Seq<u8> {
    Seq::new(n, |i: int| 0u8)
}

/// Reading back what `le16` wrote gives the number.
pub proof fn lemma_read16(x: nat)
    requires
        x < 0x1_0000,
    ensures
        read16(le16(x), 0) == x,
{
    let s = le16(x);
    assert(s[0] == x % 256 && s[1] == (x / 256) % 256);
    assert(x == x % 256 + 256 * ((x / 256) % 256)) by (nonlinear_arith)
        requires
            x < 0x1_0000,
    ;
}

/// Reading back what `le32` wrote gives the number.
pub proof fn lemma_read32(x: nat)
    requires
        x < 0x1_0000_0000,
    ensures
        read32(le32(x), 0) == x,
{
    let s = le32(x);
    let a = x / 256;
    let b = a / 256;
    let c = b / 256;
    assert(x == x % 256 + 256 * a) by (nonlinear_arith)
        requires
            a == x / 256,
    ;
    assert(a == a % 256 + 256 * b) by (nonlinear_arith)
        requires
            b == a / 256,
    ;
    assert(b == b % 256 + 256 * c) by (nonlinear_arith)
        requires
            c == b / 256,
    ;
    assert(x / 65536 == b) by (nonlinear_arith)
        requires
            a == x / 256,
            b == a / 256,
    ;
    assert(x / 16777216 == c) by (nonlinear_arith)
        requires
            a == x / 256,
            b == a / 256,
            c == b / 256,
    ;
    assert(c < 256) by (nonlinear_arith)
        requires
            x < 0x1_0000_0000,
            c == x / 16777216,
    ;
    assert(c % 256 == c);
    assert(s[0] == x % 256 && s[1] == a % 256 && s[2] == b % 256 && s[3] == c % 256);
}

/// Appends `x` as two little-endian bytes.
pub fn push_u16(out: &mut Vec<u8>, x: u16)
    ensures
        final(out)@ == old(out)@ + le16(x as nat),
{
    out.push((x % 256) as u8);
    out.push((x / 256) as u8);
    assert(final(out)@ =~= old(out)@ + le16(x as nat));
}

/// Appends `x` as four little-endian bytes.
pub fn push_u32(out: &mut Vec<u8>, x: u32)
    ensures
        final(out)@ == old(out)@ + le32(x as nat),
{
    out.push((x % 256) as u8);
    out.push(((x / 256) % 256) as u8);
    out.push(((x / 65536) % 256) as u8);
    out.push((x / 16777216) as u8);
    assert(final(out)@ =~= old(out)@ + le32(x as nat));
}

/// Appends `n` zero bytes.
pub fn push_zeros(out: &mut Vec<u8>, n: usize)
    ensures
        final(out)@ == old(out)@ + zeros(n as nat),
{
    let ghost start = out@;
    let mut i: usize = 0;
    while i < n
        invariant
            i <= n,
            out@ =~= start + zeros(i as nat),
        decreases n - i,
    {
        out.push(0);
        i += 1;
    }
}

/// Appends all of `src`.
pub fn push_all(out: &mut Vec<u8>, src: &Vec<u8>)
    ensures
        final(out)@ == old(out)@ + src@,
{
    let ghost start = out@;
    let mut i: usize = 0;
    while i < src.len()
        invariant
            i <= src@.len(),
            out@ =~= start + src@.subrange(0, i as int),
        decreases src@.len() - i,
    {
        out.push(src[i]);
        i += 1;
    }
}

} // verus!
