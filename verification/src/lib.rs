//! Image and document forensics.
//!
//! A file is opened as a [`Context`]: its original bytes, its decoded picture and its
//! metadata. Analyzers look at the context and report [`Finding`]s; [`risk`] weighs the
//! findings, collapses duplicates and explains them, and [`annotate`] draws them on the
//! picture.
//!
//! The library computes on integers and on texts, and every function states what it returns.
//! What takes floating point (transforms, correlations, means) is left to the caller: a
//! measuring function hands out exact sums, the caller hands back numbers as integers that
//! order as the numbers do (see [`number`]), and a deciding function turns these into
//! findings.
//!
//! - [`context`], [`raster`]: files, pictures and what the `image` crate does with them
//! - [`analyzer`]: which analyzers there are, when they run, and reports
//! - [`metadata`], [`pdf`], [`pixel`]: the analyzers
//! - [`risk`]: scores, key findings and explanations
//! - [`annotate`]: overlays
//! - the other modules: text, bytes, statistics, orders and grids that these share

pub mod analyzer;
pub mod annotate;
pub mod bits;
pub mod bytes;
pub mod clusters;
pub mod components;
pub mod context;
pub mod double;
pub mod finding;
pub mod grid;
pub mod histogram;
pub mod hough;
pub mod jpeg;
pub mod metadata;
pub mod number;
pub mod order;
pub mod outliers;
pub mod pdf;
pub mod pixel;
pub mod raster;
pub mod risk;
pub mod robust;
pub mod select;
pub mod share;
pub mod sobel;
pub mod text;
pub mod unicode;

pub use analyzer::Report;
pub use context::{ContentType, Context, ContextError, Tag};
pub use finding::{Finding, Region, Severity};
