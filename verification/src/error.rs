//! How a crop can fail.

use vstd::prelude::*;

verus! {

/// The ways in which a crop operation ends without an image.
#[derive(Clone, Debug, PartialEq, Eq)]
pub enum CropError {
    /// The strategy's predicate matched no usable region: no pixel at all,
    /// pixels confined to a single row or column, or no traced region.
    NoContentFound,
    /// A rectangle to cut out has no area or does not lie inside the image.
    InvalidGeometry,
    /// The region tracer outside this crate reported an error; its message
    /// is carried along unchanged.
    BackendFailure(String),
}

} // verus!
