//! A verified photo-mosaic pipeline.
//!
//! Four landmark points are marked on each of two overlapping photographs.
//! The library fits the projective transform (homography) that carries one
//! set of landmarks onto the other, resamples the second photograph through
//! that transform into a shared canvas, and blends the two photographs into
//! one composite with a smoothed seam.
//!
//! All geometry is exact: landmark coordinates are integer pixel positions,
//! the homography is stored as an integer matrix (a projective map is only
//! defined up to scale, so an integer representative loses nothing), and
//! resampling rounds exact rational coordinates to the nearest pixel.

pub mod blend;
pub mod error;
pub mod geometry;
pub mod homography;
pub mod raster;
pub mod session;
pub mod warp;

use vstd::prelude::*;

verus! {

/// Largest width or height, in pixels, that any raster handled by this
/// library may have. A ceiling keeps every coordinate computation inside
/// `i128` and bounds the memory a single canvas can claim.
pub const MAX_DIM: usize = 32768;

} // verus!
