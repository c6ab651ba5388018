use vstd::prelude::*;

verus! {

/// Failures of the generation pipeline.
#[derive(Debug)]
pub enum GenerateError {
    /// The QR symbol encoder rejected the payload (for example, the text
    /// exceeds the symbol capacity at the chosen error-correction level).
    Qr(String),
    /// The PNG container encoder failed to serialize the raster.
    Png(String),
    /// A generic image container encoder (JPEG/WEBP) failed.
    Image(String),
}

/// Failures of the decode pipeline.
#[derive(Debug, Clone, Copy, PartialEq, Eq, Structural)]
pub enum DecodeError {
    /// No candidate grid in the raster decoded successfully.
    NotFound,
    /// Generic image-file decoding of opaque bytes failed.
    InvalidImage,
    /// A caller-supplied RGBA buffer length does not match width*height*4.
    InvalidImageBuffer,
}

} // verus!
