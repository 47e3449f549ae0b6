//! Re-encodes an RGB raster as JPEG, shrinking it step by step until the
//! encoded bytes fit a byte budget.
pub mod codec;
pub mod error;
pub mod pixels;
pub mod scale;
pub mod shrink;
pub mod naming;
