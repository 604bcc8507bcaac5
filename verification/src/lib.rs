//! Renders raster images as blocks of text glyphs.
//!
//! An image is optionally passed through an edge-detection or sharpening
//! convolution, resized so that it keeps its aspect ratio, and then mapped,
//! pixel by pixel, onto the glyphs of a palette ordered from strongest to
//! weakest.

pub mod ascii_art;
pub mod char_sets;
pub mod filter_type;
pub mod image_data;
