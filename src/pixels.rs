//! An RGB raster: three bytes per pixel, rows top to bottom.
use vstd::prelude::*;

verus! {

/// A decoded image with three 8-bit channels per pixel and no alpha.
#[derive(Debug, Clone, PartialEq, Eq)]
pub struct PixelBuffer {
    pub width: u32,
    pub height: u32,
    pub data: Vec<u8>,
}

impl PixelBuffer {
    /// Both dimensions are positive and the samples fill exactly
    /// `width * height` pixels.
    pub open spec fn wf(&self) -> bool {
        &&& 1 <= self.width
        &&& 1 <= self.height
        &&& self.data@.len() == 3 * (self.width as int) * (self.height as int)
    }

    /// Takes a raster of the given dimensions; `None` when a dimension is zero
    /// or the samples do not fill it exactly.
    pub fn from_raw(width: u32, height: u32, data: Vec<u8>) -> (r: Option<PixelBuffer>)
        ensures
            r is Some <==> (1 <= width && 1 <= height && data@.len() == 3 * (width as int) * (height as int)),
            r matches Some(p) ==> p.wf() && p.width == width && p.height == height && p.data@ == data@,
    {
        if width == 0 || height == 0 {
            return None;
        }
        assert((width as u128) * (height as u128) <= 0xffff_ffff * 0xffff_ffff) by (nonlinear_arith)
            requires width <= 0xffff_ffff, height <= 0xffff_ffff;
        let wh: u128 = width as u128 * height as u128;
        assert(3 * (width as int) * (height as int) == wh * 3) by (nonlinear_arith)
            requires wh == width * height;
        if data.len() as u128 == wh * 3 {
            Some(PixelBuffer { width, height, data })
        } else {
            None
        }
    }

    pub fn width(&self) -> (r: u32)
        ensures
            r == self.width,
    {
        self.width
    }

    pub fn height(&self) -> (r: u32)
        ensures
            r == self.height,
    {
        self.height
    }

    /// Gives up the samples.
    pub fn into_raw(self) -> (r: Vec<u8>)
        ensures
            r@ == self.data@,
    {
        self.data
    }
}

} // verus!
