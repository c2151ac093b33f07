//! Symmetric five-by-five identicons: a mirrored colour grid and its raster.

pub mod border;
pub mod color;
pub mod error;
pub mod generate;
pub mod model;
pub mod names;
pub mod raster;
