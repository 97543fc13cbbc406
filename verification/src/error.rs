//! Failure modes of the mosaic pipeline.

use vstd::prelude::*;

verus! {

/// Everything that can go wrong between picking landmarks and publishing a
/// composite. Every stage error aborts a merge atomically: no partial canvas
/// or half-blended image is ever published.
#[derive(Clone, Copy, Debug, PartialEq, Eq, Structural)]
pub enum MosaicError {
    /// Fewer than four correspondences were handed to the estimator.
    InsufficientPoints,
    /// The correspondence geometry admits no projective solution that this
    /// library can represent: collinear or duplicate landmarks, a transform
    /// whose bottom-right entry vanishes, or an exact solve whose integers
    /// grow past the arithmetic this library carries out.
    SingularTransform,
    /// The matrix handed to the warper cannot be inverted and resampled
    /// exactly; detection belongs to the estimator, but the warper re-checks
    /// rather than divide by zero.
    InvalidMatrix,
    /// A requested canvas is larger than the sane memory ceiling.
    CanvasOverflow,
}

} // verus!
