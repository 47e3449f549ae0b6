//! The ways a size-constrained re-encode can fail.
use vstd::prelude::*;

verus! {

/// Why an image could not be brought under its byte budget.
#[derive(Debug, Clone, Copy, PartialEq, Eq, Structural)]
pub enum CompressError {
    /// The source could not be read as a raster image.
    Decode,
    /// The encoder refused the raster.
    Encode,
    /// The next shrink would leave a width or height below one pixel.
    Resize,
    /// The result could not be written out.
    Io,
}

} // verus!
