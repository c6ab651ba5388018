use vstd::prelude::*;

verus! {

/// A canonical monochrome raster: one byte per pixel, row-major, top-left
/// origin. Every pixel is exactly 0 (dark) or 255 (light).
pub struct QrBitmap {
    pub width: u32,
    pub height: u32,
    pub pixels: Vec<u8>,
}

impl QrBitmap {
    /// Well-formedness: the buffer covers the full rectangle and every
    /// sample is strictly binary.
    pub open spec fn wf(&self) -> bool {
        &&& self.pixels@.len() == self.width as int * self.height as int
        &&& forall|i: int|
            0 <= i < self.pixels@.len() ==> self.pixels@[i] == 0u8 || self.pixels@[i] == 255u8
    }
}

/// Input to the decode pipeline: either a raw RGBA raster or opaque
/// container-format bytes (format auto-detected by the generic decoder).
pub enum DecodeInput<'a> {
    Rgba { width: u32, height: u32, data: &'a [u8] },
    ImageBytes(&'a [u8]),
}

/// A single-channel luminance raster derived from an RGBA input.
pub struct GrayscaleRaster {
    pub width: u32,
    pub height: u32,
    pub samples: Vec<u8>,
}

impl GrayscaleRaster {
    /// Well-formedness: one luminance byte per pixel.
    pub open spec fn wf(&self) -> bool {
        self.samples@.len() == self.width as int * self.height as int
    }
}

} // verus!
