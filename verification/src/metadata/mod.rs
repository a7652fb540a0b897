//! Forensics on metadata tags and on the raw bytes that carry them.

pub mod analyzer;
pub mod c2pa;
pub mod exif_pixel;
