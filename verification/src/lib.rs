//! A verified core for converting slide-show packages into paginated
//! documents: it opens the zip-based package, extracts metadata, markup
//! and embedded media, rasterizes each slide onto a pixel canvas, and
//! assembles the rasters into a single binary document, with progress
//! reporting and whole-pipeline retry around it.

pub mod errors;
pub mod extractor;
pub mod host;
pub mod pdf;
pub mod pipeline;
pub mod renderer;
pub mod text;
pub mod units;
pub mod xml;
