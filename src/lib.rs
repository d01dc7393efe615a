//! Renders a short text into a square icon over a patterned background,
//! and packs the result at several resolutions into an icon container.

pub mod bitmap;
pub mod bytes;
pub mod canvas;
pub mod compose;
pub mod container;
pub mod fit;
pub mod glyph;
pub mod icon;
pub mod path;
pub mod pattern;
pub mod render;

pub use bitmap::encode_bmp;
pub use canvas::{Canvas, Rgb};
pub use compose::composite_layer;
pub use container::{write_container, EntryKind, IconEntry};
pub use fit::{centering_offset, solve_fit};
pub use glyph::{alpha_bounding_box, fits_drawing, BoundingBox, GlyphFont};
pub use icon::{build_icon_file, encode_png, icon_entry, icon_file_from_images, resize, IconError};
pub use path::ensure_extension;
pub use pattern::generate_pattern;
pub use render::{generate_image, measure_text_bbox, StyleParams};
