use vstd::prelude::*;

verus! {

#[verifier::external_type_specification]
#[verifier::external_body]
pub struct ExDecodingError(png::DecodingError);

/// Why a conversion stopped.
#[derive(Debug)]
pub enum ConvertError {
    /// The PNG stream could not be read: bad signature, truncated data, a
    /// checksum mismatch, and so on.
    Decode(png::DecodingError),
    /// The image is valid but not 8-bit RGBA. `color_type` is the PNG color
    /// type code, `bit_depth` the bits per sample.
    UnsupportedFormat { color_type: u8, bit_depth: u8 },
    /// The frame's byte count does not fit in memory addresses.
    TooLarge,
    /// The given width and height do not evenly divide the pixel buffer.
    DimensionMismatch,
}

} // verus!
