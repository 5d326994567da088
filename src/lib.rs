//! Content-aware image resizing by seam carving: the energy of each pixel,
//! the least-energy seam through the image, and the removal or doubling of
//! seams one at a time, with vertical resizing done on the image turned a
//! quarter.

pub mod carve;
pub mod config;
pub mod grid;
pub mod raster;
