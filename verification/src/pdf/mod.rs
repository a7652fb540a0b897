//! Forensics on PDF documents: their structure, overlaid content, embedded images, and
//! rendered pages against embedded scans.

pub mod image_pipeline;
pub mod overlay;
pub mod render_compare;
pub mod structure;
