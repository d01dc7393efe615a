use icon_marker::bitmap::encode_bmp;
use icon_marker::container::{write_container, EntryKind, IconEntry};
use icon_marker::fit::{centering_offset, solve_fit};
use icon_marker::glyph::{alpha_bounding_box, fits_drawing, BoundingBox, GlyphFont};
use icon_marker::icon::{build_icon_file, encode_png, icon_entry, icon_file_from_images, resize, IconError};
use icon_marker::path::ensure_extension;
use icon_marker::pattern::generate_pattern;
use icon_marker::render::{generate_image, measure_text_bbox, StyleParams};
use icon_marker::{composite_layer, Canvas, Rgb};

fn test_font() -> GlyphFont {
    let defs = egui::FontDefinitions::default();
    let data = defs.font_data["Ubuntu-Light"].font.to_vec();
    GlyphFont::from_bytes(data).expect("bundled font parses")
}

fn style(text: &str) -> StyleParams {
    StyleParams {
        text: text.to_string(),
        background: Rgb::new(242, 220, 198),
        grad_start: Rgb::new(120, 90, 220),
        grad_end: Rgb::new(20, 170, 130),
        padding: 160,
        chevron: true,
    }
}

fn px(c: &Canvas, x: usize, y: usize) -> [u8; 4] {
    let i = 4 * (y * c.size as usize + x);
    [c.pixels[i], c.pixels[i + 1], c.pixels[i + 2], c.pixels[i + 3]]
}

fn le16(b: &[u8], k: usize) -> usize {
    b[k] as usize | (b[k + 1] as usize) << 8
}

fn le32(b: &[u8], k: usize) -> usize {
    le16(b, k) | le16(b, k + 2) << 16
}

#[test]
fn pattern_stripes_and_base() {
    let c = generate_pattern(Rgb::new(242, 220, 198), 256, true);
    assert_eq!(c.size, 256);
    assert_eq!(c.pixels.len(), 256 * 256 * 4);
    // column 0: zigzag 10; row 0 -> residue 4, row 2 -> 0, row 3 -> 1
    assert_eq!(px(&c, 0, 0), [242, 220, 198, 255]);
    assert_eq!(px(&c, 0, 2), [252, 230, 208, 255]);
    assert_eq!(px(&c, 0, 3), [236, 214, 192, 255]);
    // column 10: zigzag 0; row 6 -> residue 0, row 7 -> 1
    assert_eq!(px(&c, 10, 6), [252, 230, 208, 255]);
    assert_eq!(px(&c, 10, 7), [236, 214, 192, 255]);
    // column 25: zigzag |5 - 10| = 5; row 1 -> residue 0
    assert_eq!(px(&c, 25, 1), [252, 230, 208, 255]);
}

#[test]
fn pattern_saturates() {
    let c = generate_pattern(Rgb::new(250, 3, 128), 20, true);
    assert_eq!(px(&c, 0, 2), [255, 13, 138, 255]);
    assert_eq!(px(&c, 0, 3), [244, 0, 122, 255]);
}

#[test]
fn pattern_off_is_flat() {
    let c = generate_pattern(Rgb::new(1, 2, 3), 7, false);
    for p in c.pixels.chunks(4) {
        assert_eq!(p, &[1, 2, 3, 255]);
    }
}

#[test]
fn pattern_is_deterministic() {
    let a = generate_pattern(Rgb::new(10, 20, 30), 64, true);
    let b = generate_pattern(Rgb::new(10, 20, 30), 64, true);
    assert_eq!(a.pixels, b.pixels);
}

#[test]
fn bounding_box_of_plane() {
    let mut a = vec![0u8; 25];
    assert_eq!(alpha_bounding_box(&a, 5), None);
    a[5 + 3] = 1;
    a[3 * 5 + 1] = 200;
    assert_eq!(
        alpha_bounding_box(&a, 5),
        Some(BoundingBox { min_x: 1, min_y: 1, max_x: 3, max_y: 3 })
    );
    let mut b = vec![0u8; 16];
    b[15] = 9;
    assert_eq!(
        alpha_bounding_box(&b, 4),
        Some(BoundingBox { min_x: 3, min_y: 3, max_x: 3, max_y: 3 })
    );
}

#[test]
fn fit_scale_value() {
    let b = BoundingBox { min_x: 0, min_y: 0, max_x: 39, max_y: 144 };
    // 200 * 256 * (1 - 0.32) / 145 = 240.1...
    assert_eq!(solve_fit(b, 200, 256, 160), 240);
    // no padding, square box of 100: 200 * 256 / 100 = 512
    let sq = BoundingBox { min_x: 10, min_y: 20, max_x: 109, max_y: 119 };
    assert_eq!(solve_fit(sq, 200, 256, 0), 512);
    // largest padding: 200 * 256 * 0.2 / 100 = 102.4
    assert_eq!(solve_fit(sq, 200, 256, 400), 102);
}

#[test]
fn centering_offsets() {
    assert_eq!(centering_offset(256, 10, 49), 98);
    assert_eq!(centering_offset(256, 0, 255), 0);
    assert_eq!(centering_offset(10, 0, 12), -2);
    assert_eq!(centering_offset(9, 3, 3), 1);
}

#[test]
fn composite_blends_gradient() {
    let mut img = Canvas { size: 2, pixels: vec![100, 100, 100, 255].repeat(4) };
    let layer = vec![255u8, 128, 0, 0];
    composite_layer(&mut img, &layer, 2, 0, 0, Rgb::new(120, 90, 220), Rgb::new(20, 170, 130));
    assert_eq!(px(&img, 0, 0), [70, 130, 175, 255]);
    assert_eq!(px(&img, 1, 0), [72, 125, 126, 255]);
    assert_eq!(px(&img, 0, 1), [100, 100, 100, 255]);
    assert_eq!(px(&img, 1, 1), [100, 100, 100, 255]);
}

#[test]
fn composite_applies_offset() {
    let mut img = Canvas { size: 2, pixels: vec![0, 0, 0, 7].repeat(4) };
    let layer = vec![255u8];
    composite_layer(&mut img, &layer, 1, 1, 1, Rgb::new(9, 9, 9), Rgb::new(9, 9, 9));
    assert_eq!(px(&img, 1, 1), [9, 9, 9, 255]);
    assert_eq!(px(&img, 0, 0), [0, 0, 0, 7]);
}

#[test]
fn bitmap_entry_of_sixteen() {
    let c = generate_pattern(Rgb::new(1, 2, 3), 16, false);
    let b = encode_bmp(&c);
    assert_eq!(b.len(), 1128);
    assert_eq!(le32(&b, 0), 40);
    assert_eq!(le32(&b, 4), 16);
    assert_eq!(le32(&b, 8), 32);
    assert_eq!(le16(&b, 12), 1);
    assert_eq!(le16(&b, 14), 32);
    assert!(b[16..40].iter().all(|&x| x == 0));
    assert_eq!(&b[40..44], &[3, 2, 1, 255]);
    assert!(b[40 + 1024..].iter().all(|&x| x == 0));
}

#[test]
fn bitmap_rows_bottom_up_bgra() {
    let c = Canvas { size: 2, pixels: vec![1, 2, 3, 4, 5, 6, 7, 8, 9, 10, 11, 12, 13, 14, 15, 16] };
    let b = encode_bmp(&c);
    assert_eq!(b.len(), 40 + 16 + 8);
    assert_eq!(&b[40..56], &[11, 10, 9, 12, 15, 14, 13, 16, 3, 2, 1, 4, 7, 6, 5, 8]);
}

#[test]
fn container_layout_round_trip() {
    let entries: Vec<IconEntry> = [16u32, 32, 48, 256]
        .iter()
        .map(|&s| IconEntry {
            size: s,
            kind: if s >= 256 { EntryKind::Png } else { EntryKind::Bitmap },
            payload: vec![s as u8; s as usize / 8 + 1],
        })
        .collect();
    let f = write_container(&entries);
    assert_eq!(le16(&f, 0), 0);
    assert_eq!(le16(&f, 2), 1);
    assert_eq!(le16(&f, 4), 4);
    let mut sum = 0;
    for (i, e) in entries.iter().enumerate() {
        let at = 6 + 16 * i;
        let dim = if e.size >= 256 { 0 } else { e.size as u8 };
        assert_eq!(f[at], dim);
        assert_eq!(f[at + 1], dim);
        assert_eq!(le16(&f, at + 4), 1);
        assert_eq!(le16(&f, at + 6), 32);
        let len = le32(&f, at + 8);
        let off = le32(&f, at + 12);
        assert_eq!(off, 6 + 16 * 4 + sum);
        assert_eq!(&f[off..off + len], &e.payload[..]);
        sum += len;
    }
    assert_eq!(sum, f.len() - (6 + 16 * 4));
}

#[test]
fn empty_container() {
    let f = write_container(&Vec::new());
    assert_eq!(f, vec![0, 0, 1, 0, 0, 0]);
}

#[test]
fn icon_file_for_four_sizes() {
    let base = generate_pattern(Rgb::new(242, 220, 198), 256, true);
    let f = build_icon_file(&base, &vec![16, 32, 48, 256]).expect("icon file");
    assert_eq!(le16(&f, 0), 0);
    assert_eq!(le16(&f, 2), 1);
    assert_eq!(le16(&f, 4), 4);
    let widths: Vec<u8> = (0..4).map(|i| f[6 + 16 * i]).collect();
    assert_eq!(widths, vec![16, 32, 48, 0]);
    let heights: Vec<u8> = (0..4).map(|i| f[7 + 16 * i]).collect();
    assert_eq!(heights, vec![16, 32, 48, 0]);
    let mut sum = 0;
    for i in 0..4 {
        let len = le32(&f, 6 + 16 * i + 8);
        let off = le32(&f, 6 + 16 * i + 12);
        assert_eq!(off, 70 + sum);
        sum += len;
    }
    assert_eq!(sum, f.len() - (6 + 16 * 4));
    assert_eq!(le32(&f, 6 + 8), 1128);
    let off16 = le32(&f, 6 + 12);
    assert_eq!(le32(&f, off16), 40);
    assert_eq!(le32(&f, off16 + 8), 32);
    let off256 = le32(&f, 6 + 48 + 12);
    assert_eq!(&f[off256..off256 + 8], &[0x89, b'P', b'N', b'G', 0x0d, 0x0a, 0x1a, 0x0a]);
}

#[test]
fn icon_file_too_many_sizes() {
    let base = generate_pattern(Rgb::new(0, 0, 0), 16, false);
    let sizes = vec![16u32; 0x10000];
    assert_eq!(build_icon_file(&base, &sizes), Err(IconError::TooLarge));
}

#[test]
fn png_encoding_has_signature() {
    let c = generate_pattern(Rgb::new(5, 6, 7), 8, true);
    let b = encode_png(&c).expect("png");
    assert_eq!(&b[0..8], &[0x89, b'P', b'N', b'G', 0x0d, 0x0a, 0x1a, 0x0a]);
    assert_ne!(b, c.pixels);
}

#[test]
fn resize_changes_side() {
    let c = generate_pattern(Rgb::new(5, 6, 7), 64, false);
    let r = resize(&c, 16);
    assert_eq!(r.size, 16);
    assert_eq!(r.pixels.len(), 16 * 16 * 4);
    assert!(r.pixels.chunks(4).all(|p| p[3] == 255));
    let same = resize(&c, 64);
    assert_eq!(same.pixels, c.pixels);
}

#[test]
fn extension_is_ensured() {
    assert_eq!(ensure_extension("icon", "png"), "icon.png");
    assert_eq!(ensure_extension("icon.PNG", "png"), "icon.PNG");
    assert_eq!(ensure_extension("icon.jpg", "png"), "icon.png");
    assert_eq!(ensure_extension("a.b/icon", "ico"), "a.b/icon.ico");
    assert_eq!(ensure_extension("/tmp/.hidden", "ico"), "/tmp/.hidden.ico");
    assert_eq!(ensure_extension("x.tar.gz", "ico"), "x.tar.ico");
    assert_eq!(ensure_extension("name.", "png"), "name.png");
    assert_eq!(ensure_extension("a/b/", "ico"), "a/b.ico");
    assert_eq!(ensure_extension("a/b.ico/", "ico"), "a/b.ico/");
    assert_eq!(ensure_extension(r"C:\a.b\icon", "ico"), r"C:\a.b\icon.ico");
    assert_eq!(ensure_extension(r"C:\out\icon.PnG", "png"), r"C:\out\icon.PnG");
    assert_eq!(ensure_extension("dir/..", "ico"), "dir/..");
}

#[test]
fn font_rejects_garbage() {
    assert!(GlyphFont::from_bytes(vec![1, 2, 3, 4]).is_none());
}

#[test]
fn measure_glyph_and_empty_text() {
    let font = test_font();
    let b = measure_text_bbox(&font, "I", 200, 512).expect("glyph drawn");
    assert!(b.min_x <= b.max_x && b.max_x < 512);
    assert!(b.min_y <= b.max_y && b.max_y < 512);
    assert!(b.max_y - b.min_y > b.max_x - b.min_x);
    assert_eq!(measure_text_bbox(&font, "", 200, 512), None);
}

#[test]
fn empty_text_gives_background() {
    let font = test_font();
    let img = generate_image(&style(""), &font, 256);
    let bg = generate_pattern(Rgb::new(242, 220, 198), 256, true);
    assert_eq!(img.pixels, bg.pixels);
}

#[test]
fn rendered_icon_is_opaque() {
    let font = test_font();
    for text in ["I", "G", "Ag"] {
        let img = generate_image(&style(text), &font, 64);
        assert_eq!(img.size, 64);
        assert!(img.pixels.chunks(4).all(|p| p[3] == 255));
    }
}

#[test]
fn golden_scenario_is_deterministic() {
    let font = test_font();
    let a = generate_image(&style("I"), &font, 256);
    let b = generate_image(&style("I"), &font, 256);
    assert_eq!(a.size, 256);
    assert_eq!(a.pixels, b.pixels);
    let bg = generate_pattern(Rgb::new(242, 220, 198), 256, true);
    assert_ne!(a.pixels, bg.pixels);
}

#[test]
fn glyph_is_centered() {
    let font = test_font();
    let bg = generate_pattern(Rgb::new(242, 220, 198), 256, true);
    for padding in [0u32, 160, 400] {
        let mut s = style("I");
        s.padding = padding;
        let img = generate_image(&s, &font, 256);
        let (mut n, mut sx, mut sy) = (0.0f64, 0.0f64, 0.0f64);
        for p in 0..256 * 256 {
            if img.pixels[4 * p..4 * p + 3] != bg.pixels[4 * p..4 * p + 3] {
                n += 1.0;
                sx += (p % 256) as f64;
                sy += (p / 256) as f64;
            }
        }
        assert!(n > 0.0);
        assert!((sx / n - 127.5).abs() <= 1.0, "x centroid {}", sx / n);
        assert!((sy / n - 127.5).abs() <= 1.0, "y centroid {}", sy / n);
    }
}

#[test]
fn refit_is_stable() {
    let font = test_font();
    let b = measure_text_bbox(&font, "I", 200, 512).unwrap();
    let s1 = solve_fit(b, 200, 256, 160);
    let b2 = measure_text_bbox(&font, "I", s1 as u16, 512).unwrap();
    let s2 = solve_fit(b2, s1 as u16, 256, 160);
    let drift = (s2 as i64 - s1 as i64).abs();
    assert!(drift * 100 <= s1 as i64, "{} -> {}", s1, s2);
}

#[test]
fn entries_by_side() {
    let small = generate_pattern(Rgb::new(9, 8, 7), 16, false);
    let e = icon_entry(&small);
    assert_eq!(e.kind, EntryKind::Bitmap);
    assert_eq!(e.payload, encode_bmp(&small));
    let large = generate_pattern(Rgb::new(9, 8, 7), 256, true);
    let e = icon_entry(&large);
    assert_eq!(e.kind, EntryKind::Png);
    assert_eq!(e.payload, encode_png(&large).unwrap());
}

#[test]
fn icon_file_from_given_images() {
    let images = vec![
        generate_pattern(Rgb::new(1, 1, 1), 16, false),
        generate_pattern(Rgb::new(2, 2, 2), 256, true),
    ];
    let f = icon_file_from_images(&images).expect("fits");
    let entries = vec![icon_entry(&images[0]), icon_entry(&images[1])];
    assert_eq!(f, write_container(&entries));
    assert_eq!(le16(&f, 4), 2);
    assert_eq!(icon_file_from_images(&Vec::new()), Ok(vec![0, 0, 1, 0, 0, 0]));
}

#[test]
fn png_of_empty_canvas_fails() {
    let c = Canvas { size: 0, pixels: Vec::new() };
    assert_eq!(encode_png(&c), Err(IconError::Encoding));
}

#[test]
fn ordinary_text_is_drawable() {
    let font = test_font();
    assert!(fits_drawing(&font, "I", 200));
    assert!(fits_drawing(&font, "", 65535));
}
