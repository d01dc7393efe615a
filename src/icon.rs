use vstd::prelude::*;

use image::codecs::png::PngEncoder;
use image::imageops::FilterType;
use image::{ExtendedColorType, ImageEncoder, ImageError, RgbaImage};

use crate::bitmap::{bmp_payload, encode_bmp, lemma_bmp_layout, mask_len};
use crate::canvas::{size_fits, Canvas};
use crate::container::{container_bytes, header_len, prefix_len, write_container, EntryKind, IconEntry};

verus! {

#[verifier::external_type_specification]
#[verifier::external_body]
pub struct ExImageError(ImageError);

/// Why an icon file could not be made.
#[derive(Clone, Copy, Debug, PartialEq, Eq, Structural)]
pub enum IconError {
    /// The PNG encoder refused an image.
    Encoding,
    /// Too many images, or payloads too long for 32-bit offsets.
    TooLarge,
}

/// The PNG file that the `image` crate writes for the RGBA pixels `px` of
/// a square of side `size`.
pub uninterp spec fn png_of(px: Seq<u8>, size: nat) -> Seq<u8>;

/// Relies on image::codecs::png::PngEncoder::write_image: encodes a buffer
/// of `4 * size * size` RGBA bytes as one PNG image into a `Vec`, which
/// fails only for a zero width or height.
#[verifier::external_body]
fn png_encode(px: &Vec<u8>, size: u32) -> (r: Result<Vec<u8>, ImageError>)
    requires
        px@.len() == 4 * (size as nat) * (size as nat),
    ensures
        r matches Ok(b) ==> b@ == png_of(px@, size as nat),
        size >= 1 ==> r is Ok,
{
    let mut out: Vec<u8> = Vec::new();
    PngEncoder::new(&mut out).write_image(px, size, size, ExtendedColorType::Rgba8)?;
    Ok(out)
}

/// Relies on image::imageops::resize with FilterType::Lanczos3: the result
/// is `to`×`to`, and a copy of the input when the side does not change.
#[verifier::external_body]
fn resize_lanczos(px: &Vec<u8>, from: u32, to: u32) -> (r: Vec<u8>)
    requires
        px@.len() == 4 * (from as nat) * (from as nat),
        size_fits(to as nat),
    ensures
        r@.len() == 4 * (to as nat) * (to as nat),
        from == to ==> r@ == px@,
{
    let src = RgbaImage::from_raw(from, from, px.clone()).unwrap();
    image::imageops::resize(&src, to, to, FilterType::Lanczos3).into_raw()
}

/// Encodes `c` as a PNG file; an empty canvas cannot be encoded.
pub fn encode_png(c: &Canvas) -> (r: Result<Vec<u8>, IconError>)
    requires
        c.wf(),
    ensures
        r matches Ok(b) ==> b@ == png_of(c.pixels@, c.size as nat),
        r matches Err(e) ==> e == IconError::Encoding,
        c.size >= 1 ==> r is Ok,
{
    match png_encode(&c.pixels, c.size) {
        Ok(b) => Ok(b),
        Err(_) => Err(IconError::Encoding),
    }
}

/// `c` at side `size`, resampled with a Lanczos filter unless the side is
/// the same.
pub fn resize(c: &Canvas, size: u32) -> (r: Canvas)
    requires
        c.wf(),
        size_fits(size as nat),
    ensures
        r.wf(),
        r.size == size,
        size == c.size ==> r.pixels@ == c.pixels@,
{
    if size == c.size {
        Canvas { size, pixels: c.pixels.clone() }
    } else {
        let pixels = resize_lanczos(&c.pixels, c.size, size);
        Canvas { size, pixels }
    }
}

/// How an image of side `size` is stored: PNG from 256 up, else bitmap.
pub open spec fn kind_for(size: nat) -> EntryKind {
    if size >= 256 {
        EntryKind::Png
    } else {
        EntryKind::Bitmap
    }
}

/// The payload stored for the RGBA pixels `px` of a square of side `size`.
pub open spec fn entry_payload(size: nat, px: Seq<u8>) -> Seq<u8> {
    if size >= 256 {
        png_of(px, size)
    } else {
        bmp_payload(size, px)
    }
}

/// `e` is the container entry for the image `img`.
pub open spec fn entry_of(img: Canvas, e: IconEntry) -> bool {
    &&& e.size == img.size
    &&& e.kind == kind_for(img.size as nat)
    &&& e.payload@ == entry_payload(img.size as nat, img.pixels@)
}

/// The container entry for `img`: PNG from side 256 up, else a masked
/// bitmap.
pub fn icon_entry(img: &Canvas) -> (r: IconEntry)
    requires
        img.wf(),
        img.size >= 1,
    ensures
        entry_of(*img, r),
{
    if img.size >= 256 {
        match png_encode(&img.pixels, img.size) {
            Ok(b) => IconEntry { size: img.size, kind: EntryKind::Png, payload: b },
            Err(_) => {
                assert(false);
                IconEntry { size: img.size, kind: EntryKind::Png, payload: Vec::new() }
            },
        }
    } else {
        IconEntry { size: img.size, kind: EntryKind::Bitmap, payload: encode_bmp(img) }
    }
}

/// `es` holds the entries of the first `k` images.
pub open spec fn entries_of(images: Seq<Canvas>, es: Seq<IconEntry>, k: int) -> bool {
    &&& es.len() == k
    &&& forall|j: int| 0 <= j < k ==> entry_of(images[j], #[trigger] es[j])
}

/// Total payload length of the first `k` images.
pub open spec fn images_len(images: Seq<Canvas>, k: int) -> nat
    decreases k,
{
    if k <= 0 {
        0
    } else {
        images_len(images, k - 1) + entry_payload(
            images[k - 1].size as nat,
            images[k - 1].pixels@,
        ).len()
    }
}

/// The images fit one container: at most 65535 of them, and every offset
/// and length within 32 bits.
pub open spec fn images_fit(images: Seq<Canvas>) -> bool {
    &&& images.len() <= 0xffff
    &&& header_len(images.len()) + images_len(images, images.len() as int) <= 0xffff_ffff
}

/// Builds the icon container holding one entry per image, in order.
pub fn icon_file_from_images(images: &Vec<Canvas>) -> (r: Result<Vec<u8>, IconError>)
    requires
        forall|i: int| 0 <= i < images@.len() ==> (#[trigger] images@[i]).wf() && images@[i].size >= 1,
    ensures
        r is Ok <==> images_fit(images@),
        r matches Ok(f) ==> exists|es: Seq<IconEntry>|
            entries_of(images@, es, images@.len() as int) && f@ == container_bytes(es),
        r matches Err(e) ==> e == IconError::TooLarge,
{
    let n = images.len();
    if n > 0xffff {
        return Err(IconError::TooLarge);
    }
    let head: u64 = 6 + 16 * (n as u64);
    let mut total: u64 = head;
    let mut entries: Vec<IconEntry> = Vec::new();
    let mut i: usize = 0;
    while i < n
        invariant
            n == images@.len(),
            n <= 0xffff,
            forall|j: int| 0 <= j < n ==> (#[trigger] images@[j]).wf() && images@[j].size >= 1,
            head == header_len(n as nat),
            i <= n,
            entries_of(images@, entries@, i as int),
            prefix_len(entries@, i as int) == images_len(images@, i as int),
            total == head + prefix_len(entries@, i as int),
            total <= 0xffff_ffff,
        decreases n - i,
    {
        let e = icon_entry(&images[i]);
        let len = e.payload.len();
        let ghost before = entries@;
        entries.push(e);
        proof {
            lemma_prefix_len_prefix(entries@, before, i as int);
            assert(entries_of(images@, entries@, i + 1));
            assert(prefix_len(entries@, i + 1) == images_len(images@, i + 1));
        }
        if len as u64 > 0xffff_ffff - total {
            proof {
                lemma_images_len_mono(images@, i + 1, n as int);
            }
            return Err(IconError::TooLarge);
        }
        total = total + len as u64;
        i += 1;
    }
    Ok(write_container(&entries))
}

/// `images` are `base` at each of `sizes`: each of its side, and `base`
/// itself where the side is the same.
pub open spec fn resized_from(base: Canvas, sizes: Seq<u32>, images: Seq<Canvas>) -> bool {
    &&& images.len() == sizes.len()
    &&& forall|j: int|
        0 <= j < sizes.len() ==> {
            &&& (#[trigger] images[j]).wf()
            &&& images[j].size == sizes[j]
            &&& sizes[j] == base.size ==> images[j].pixels@ == base.pixels@
        }
}

/// Length of the bitmap payload of side `size`.
pub open spec fn bitmap_len(size: nat) -> nat {
    40 + 4 * size * size + mask_len(size)
}

/// Total bitmap payload length of the first `k` of `sizes`.
pub open spec fn bitmaps_len(sizes: Seq<u32>, k: int) -> nat
    decreases k,
{
    if k <= 0 {
        0
    } else {
        bitmaps_len(sizes, k - 1) + bitmap_len(sizes[k - 1] as nat)
    }
}

/// Every one of `sizes` is stored as a bitmap.
pub open spec fn all_bitmaps(sizes: Seq<u32>) -> bool {
    forall|i: int| 0 <= i < sizes.len() ==> #[trigger] sizes[i] < 256
}

/// Builds the icon container for `base` at each of `sizes`, in order:
/// PNG images from 256 up, masked bitmaps below.
pub fn build_icon_file(base: &Canvas, sizes: &Vec<u32>) -> (r: Result<Vec<u8>, IconError>)
    requires
        base.wf(),
        forall|i: int| 0 <= i < sizes@.len() ==> 1 <= #[trigger] sizes@[i] <= base.size,
    ensures
        r matches Ok(f) ==> exists|images: Seq<Canvas>, es: Seq<IconEntry>|
            resized_from(*base, sizes@, images) && images_fit(images) && entries_of(
                images,
                es,
                sizes@.len() as int,
            ) && f@ == container_bytes(es),
        r is Err ==> exists|images: Seq<Canvas>|
            resized_from(*base, sizes@, images) && !images_fit(images),
        r matches Err(e) ==> e == IconError::TooLarge,
        sizes@.len() > 0xffff ==> r is Err,
        all_bitmaps(sizes@) && sizes@.len() <= 0xffff && header_len(sizes@.len()) + bitmaps_len(
            sizes@,
            sizes@.len() as int,
        ) <= 0xffff_ffff ==> r is Ok,
{
    let n = sizes.len();
    let mut images: Vec<Canvas> = Vec::new();
    let mut i: usize = 0;
    while i < n
        invariant
            base.wf(),
            n == sizes@.len(),
            forall|j: int| 0 <= j < n ==> 1 <= #[trigger] sizes@[j] <= base.size,
            i <= n,
            resized_from(*base, sizes@.subrange(0, i as int), images@),
            all_bitmaps(sizes@) ==> images_len(images@, i as int) == bitmaps_len(sizes@, i as int),
        decreases n - i,
    {
        let s = sizes[i];
        proof {
            assert(4 * (s as nat) * (s as nat) <= 4 * (base.size as nat) * (base.size as nat))
                by (nonlinear_arith)
                requires
                    s <= base.size,
            ;
        }
        let img = resize(base, s);
        let ghost before = images@;
        images.push(img);
        proof {
            lemma_images_len_prefix(images@, before, i as int);
            if all_bitmaps(sizes@) {
                assert(sizes@[i as int] < 256);
                lemma_bmp_layout(s as nat, img.pixels@);
            }
            assert forall|j: int| 0 <= j < i + 1 implies {
                &&& (#[trigger] images@[j]).wf()
                &&& images@[j].size == sizes@.subrange(0, i + 1)[j]
                &&& sizes@.subrange(0, i + 1)[j] == base.size ==> images@[j].pixels@
                    == base.pixels@
            } by {
                if j < i {
                    assert(images@[j] == before[j]);
                    assert(sizes@.subrange(0, i + 1)[j] == sizes@.subrange(0, i as int)[j]);
                }
            }
        }
        i += 1;
    }
    proof {
        assert(sizes@.subrange(0, n as int) =~= sizes@);
    }
    icon_file_from_images(&images)
}

/// The payload lengths of the first `k` entries depend on those entries alone.
proof fn lemma_prefix_len_prefix(a: Seq<IconEntry>, b: Seq<IconEntry>, k: int)
    requires
        0 <= k <= b.len(),
        k <= a.len(),
        forall|j: int| 0 <= j < k ==> a[j] == b[j],
    ensures
        prefix_len(a, k) == prefix_len(b, k),
    decreases k,
{
    if k > 0 {
        lemma_prefix_len_prefix(a, b, k - 1);
    }
}

proof fn lemma_images_len_prefix(a: Seq<Canvas>, b: Seq<Canvas>, k: int)
    requires
        0 <= k <= b.len(),
        k <= a.len(),
        forall|j: int| 0 <= j < k ==> a[j] == b[j],
    ensures
        images_len(a, k) == images_len(b, k),
    decreases k,
{
    if k > 0 {
        lemma_images_len_prefix(a, b, k - 1);
    }
}

proof fn lemma_images_len_mono(images: Seq<Canvas>, i: int, j: int)
    requires
        0 <= i <= j,
    ensures
        images_len(images, i) <= images_len(images, j),
    decreases j - i,
{
    if i < j {
        lemma_images_len_mono(images, i, j - 1);
    }
}

} // verus!
