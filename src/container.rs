use vstd::prelude::*;

use crate::bytes::{le16, le32, push_all, push_u16, push_u32, read16, read32};

verus! {

/// How an entry's image is stored.
#[derive(Clone, Copy, Debug, PartialEq, Eq, Structural)]
pub enum EntryKind {
    /// A compressed PNG image.
    Png,
    /// An uncompressed 32-bit bitmap followed by its mask.
    Bitmap,
}

/// One image of an icon container.
#[derive(Clone, Debug)]
pub struct IconEntry {
    pub size: u32,
    pub kind: EntryKind,
    pub payload: Vec<u8>,
}

/// Bytes before the first payload: the file header and the directory.
pub open spec fn header_len(n: nat) -> nat {
    6 + 16 * n
}

/// Width or height as stored in a directory entry: 0 stands for 256 and more.
pub open spec fn dim_byte(size: nat) -> u8 {
    if size >= 256 {
        0
    } else {
        size as u8
    }
}

/// Total payload length of the first `i` entries.
pub open spec fn prefix_len(es: Seq<IconEntry>, i: int) -> nat
    decreases i,
{
    if i <= 0 {
        0
    } else {
        prefix_len(es, i - 1) + es[i - 1].payload@.len()
    }
}

/// Where the payload of entry `i` starts.
pub open spec fn entry_offset(es: Seq<IconEntry>, i: int) -> nat {
    header_len(es.len()) + prefix_len(es, i)
}

/// The 16-byte directory entry: width, height, two reserved bytes, one
/// plane, 32 bits per pixel, payload length and payload offset.
pub open spec fn dir_entry(size: nat, len: nat, offset: nat) -> Seq<u8> {
    seq![dim_byte(size), dim_byte(size), 0u8, 0u8] + le16(1) + le16(32) + le32(len) + le32(offset)
}

/// The directory entries of the first `i` entries.
pub open spec fn directory(es: Seq<IconEntry>, i: int) -> Seq<u8>
    decreases i,
{
    if i <= 0 {
        Seq::empty()
    } else {
        directory(es, i - 1) + dir_entry(
            es[i - 1].size as nat,
            es[i - 1].payload@.len(),
            entry_offset(es, i - 1),
        )
    }
}

/// The payloads of the first `i` entries, one after the other.
pub open spec fn payloads(es: Seq<IconEntry>, i: int) -> Seq<u8>
    decreases i,
{
    if i <= 0 {
        Seq::empty()
    } else {
        payloads(es, i - 1) + es[i - 1].payload@
    }
}

/// The file header: reserved 0, type 1 (icon), entry count.
pub open spec fn file_header(n: nat) -> Seq<u8> {
    le16(0) + le16(1) + le16(n)
}

/// The container file holding `es` in order.
pub open spec fn container_bytes(es: Seq<IconEntry>) -> Seq<u8> {
    file_header(es.len()) + directory(es, es.len() as int) + payloads(es, es.len() as int)
}

/// The entries fit the format: their count in 16 bits, every offset and
/// length in 32 bits.
pub open spec fn container_fits(es: Seq<IconEntry>) -> bool {
    &&& es.len() <= 0xffff
    &&& header_len(es.len()) + prefix_len(es, es.len() as int) <= 0xffff_ffff
}

proof fn lemma_prefix_len_mono(es: Seq<IconEntry>, i: int, j: int)
    requires
        0 <= i <= j,
    ensures
        prefix_len(es, i) <= prefix_len(es, j),
    decreases j - i,
{
    if i < j {
        lemma_prefix_len_mono(es, i, j - 1);
    }
}

proof fn lemma_directory(es: Seq<IconEntry>, i: int)
    requires
        0 <= i <= es.len(),
    ensures
        directory(es, i).len() == 16 * i,
        forall|j: int|
            0 <= j < i ==> #[trigger] directory(es, i).subrange(16 * j, 16 * j + 16) == dir_entry(
                es[j].size as nat,
                es[j].payload@.len(),
                entry_offset(es, j),
            ),
    decreases i,
{
    if i > 0 {
        lemma_directory(es, i - 1);
        let d = directory(es, i - 1);
        let e = dir_entry(
            es[i - 1].size as nat,
            es[i - 1].payload@.len(),
            entry_offset(es, i - 1),
        );
        assert forall|j: int| 0 <= j < i implies #[trigger] directory(es, i).subrange(
            16 * j,
            16 * j + 16,
        ) == dir_entry(es[j].size as nat, es[j].payload@.len(), entry_offset(es, j)) by {
            if j < i - 1 {
                assert(directory(es, i).subrange(16 * j, 16 * j + 16) =~= d.subrange(
                    16 * j,
                    16 * j + 16,
                ));
            } else {
                assert(directory(es, i).subrange(16 * j, 16 * j + 16) =~= e);
            }
        }
    }
}

proof fn lemma_payloads(es: Seq<IconEntry>, i: int)
    requires
        0 <= i <= es.len(),
    ensures
        payloads(es, i).len() == prefix_len(es, i),
        forall|j: int|
            0 <= j < i ==> #[trigger] payloads(es, i).subrange(
                prefix_len(es, j) as int,
                (prefix_len(es, j) + es[j].payload@.len()) as int,
            ) == es[j].payload@,
    decreases i,
{
    if i > 0 {
        lemma_payloads(es, i - 1);
        let d = payloads(es, i - 1);
        assert forall|j: int| 0 <= j < i implies #[trigger] payloads(es, i).subrange(
            prefix_len(es, j) as int,
            (prefix_len(es, j) + es[j].payload@.len()) as int,
        ) == es[j].payload@ by {
            if j < i - 1 {
                lemma_prefix_len_mono(es, j + 1, i - 1);
                assert(payloads(es, i).subrange(
                    prefix_len(es, j) as int,
                    (prefix_len(es, j) + es[j].payload@.len()) as int,
                ) =~= d.subrange(prefix_len(es, j) as int, (prefix_len(es, j) + es[j].payload@.len()) as int));
            } else {
                assert(payloads(es, i).subrange(
                    prefix_len(es, j) as int,
                    (prefix_len(es, j) + es[j].payload@.len()) as int,
                ) =~= es[j].payload@);
            }
        }
    }
}

/// Writes the container file for `entries`: header, directory, payloads.
pub fn write_container(entries: &Vec<IconEntry>) -> (r: Vec<u8>)
    requires
        container_fits(entries@),
    ensures
        r@ == container_bytes(entries@),
{
    let n = entries.len();
    let ghost es = entries@;
    let mut out: Vec<u8> = Vec::new();
    push_u16(&mut out, 0);
    push_u16(&mut out, 1);
    push_u16(&mut out, n as u16);
    let ghost head = out@;
    assert(head =~= file_header(n as nat));
    let mut offset: u32 = (6 + 16 * n) as u32;
    let mut i: usize = 0;
    while i < n
        invariant
            es == entries@,
            n == es.len(),
            container_fits(es),
            i <= n,
            offset == entry_offset(es, i as int),
            out@ =~= head + directory(es, i as int),
        decreases n - i,
    {
        let e = &entries[i];
        let len = e.payload.len();
        proof {
            lemma_prefix_len_mono(es, i + 1, n as int);
        }
        let dim: u8 = if e.size >= 256 {
            0
        } else {
            e.size as u8
        };
        out.push(dim);
        out.push(dim);
        out.push(0);
        out.push(0);
        push_u16(&mut out, 1);
        push_u16(&mut out, 32);
        push_u32(&mut out, len as u32);
        push_u32(&mut out, offset);
        offset = offset + len as u32;
        i += 1;
    }
    let ghost dir_end = out@;
    let mut k: usize = 0;
    while k < n
        invariant
            es == entries@,
            n == es.len(),
            k <= n,
            dir_end == head + directory(es, n as int),
            out@ =~= dir_end + payloads(es, k as int),
        decreases n - k,
    {
        push_all(&mut out, &entries[k].payload);
        k += 1;
    }
    out
}

/// Directory entry `i` of the file `f`, read back, describes entry `i` of
/// `es`, and its payload lies where the entry says.
pub open spec fn entry_reads_back(f: Seq<u8>, es: Seq<IconEntry>, i: int) -> bool {
    let at = 6 + 16 * i;
    let len = read32(f, at + 8);
    let off = read32(f, at + 12);
    &&& f[at] == dim_byte(es[i].size as nat)
    &&& f[at + 1] == dim_byte(es[i].size as nat)
    &&& read16(f, at + 4) == 1
    &&& read16(f, at + 6) == 32
    &&& len == es[i].payload@.len()
    &&& off == entry_offset(es, i)
    &&& off + len <= f.len()
    &&& f.subrange(off as int, (off + len) as int) == es[i].payload@
}

/// Reading a written container back: the header gives reserved 0, type 1
/// and the entry count; each directory entry gives the image's width and
/// height byte, its payload length and an offset at which exactly that
/// payload lies; the payloads fill the rest of the file.
pub proof fn lemma_container_round_trip(es: Seq<IconEntry>)
    requires
        container_fits(es),
    ensures
        ({
            let f = container_bytes(es);
            let n = es.len() as int;
            &&& read16(f, 0) == 0
            &&& read16(f, 2) == 1
            &&& read16(f, 4) == n
            &&& prefix_len(es, n) == f.len() - header_len(n as nat)
            &&& forall|i: int| 0 <= i < n ==> #[trigger] entry_reads_back(f, es, i)
        }),
{
    let f = container_bytes(es);
    let n = es.len() as int;
    let head = file_header(n as nat);
    let dir = directory(es, n);
    let pay = payloads(es, n);
    lemma_directory(es, n);
    lemma_payloads(es, n);
    crate::bytes::lemma_read16(0);
    crate::bytes::lemma_read16(1);
    crate::bytes::lemma_read16(n as nat);
    assert(f.subrange(0, 2) =~= le16(0));
    assert(f.subrange(2, 4) =~= le16(1));
    assert(f.subrange(4, 6) =~= le16(n as nat));
    assert(read16(f, 0) == read16(f.subrange(0, 2), 0));
    assert(read16(f, 2) == read16(f.subrange(2, 4), 0));
    assert(read16(f, 4) == read16(f.subrange(4, 6), 0));
    assert forall|i: int| 0 <= i < n implies #[trigger] entry_reads_back(f, es, i) by {
        let at = 6 + 16 * i;
        let len = es[i].payload@.len();
        let off = entry_offset(es, i);
        let e = dir_entry(es[i].size as nat, len, off);
        assert(dir.subrange(16 * i, 16 * i + 16) == e);
        assert(f.subrange(at, at + 16) =~= e);
        lemma_prefix_len_mono(es, i + 1, n);
        crate::bytes::lemma_read16(1);
        crate::bytes::lemma_read16(32);
        crate::bytes::lemma_read32(len);
        crate::bytes::lemma_read32(off);
        assert(e.subrange(8, 12) =~= le32(len));
        assert(e.subrange(12, 16) =~= le32(off));
        assert(e.subrange(4, 6) =~= le16(1));
        assert(e.subrange(6, 8) =~= le16(32));
        assert(f[at] == e[0] && f[at + 1] == e[1]);
        assert(read16(f, at + 4) == read16(e.subrange(4, 6), 0));
        assert(read16(f, at + 6) == read16(e.subrange(6, 8), 0));
        assert(read32(f, at + 8) == read32(e.subrange(8, 12), 0));
        assert(read32(f, at + 12) == read32(e.subrange(12, 16), 0));
        assert(pay.subrange(prefix_len(es, i) as int, (prefix_len(es, i) + len) as int) == es[i].payload@);
        assert(f.subrange(off as int, (off + len) as int) =~= pay.subrange(
            prefix_len(es, i) as int,
            (prefix_len(es, i) + len) as int,
        ));
    }
}

} // verus!
