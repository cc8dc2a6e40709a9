//! Composes a pixel-art snapshot, packed as 4-bit palette indices, onto a
//! template raster.

pub mod color;
pub mod snapshot;
pub mod canvas;
