use vstd::prelude::*;
use crate::error::ConvertError;

verus! {

/// What the PNG header says of the image, as plain values.
#[derive(Clone, Copy, Debug, PartialEq, Eq, Structural)]
pub struct PngHeader {
    pub width: u32,
    pub height: u32,
    /// The PNG color type code: 0 grayscale, 2 RGB, 3 indexed,
    /// 4 grayscale with alpha, 6 RGBA.
    pub color_type: u8,
    /// Bits per sample: 1, 2, 4, 8 or 16.
    pub bit_depth: u8,
}

/// The PNG color type code of RGBA.
pub const COLOR_RGBA: u8 = 6;

/// Whether the header describes 8-bit RGBA, the one layout this library
/// reads: four bytes per pixel.
pub open spec fn is_rgba8(header: PngHeader) -> bool {
    header.color_type == COLOR_RGBA && header.bit_depth == 8
}

/// Bytes of a whole decoded frame of `width` by `height` RGBA pixels.
pub open spec fn rgba_frame_len(width: nat, height: nat) -> nat {
    width * height * 4
}

/// A decoded 8-bit RGBA image: its dimensions and its pixels, row by row,
/// four bytes (red, green, blue, alpha) each.
#[derive(Debug)]
pub struct RgbaImage {
    pub width: u32,
    pub height: u32,
    pub pixels: Vec<u8>,
}

impl RgbaImage {
    /// The buffer holds exactly one pixel of four bytes per position.
    pub open spec fn wf(&self) -> bool {
        self.pixels@.len() == rgba_frame_len(self.width as nat, self.height as nat)
    }
}

/// The header that the PNG decoder reads from the bytes `data`, or `None`
/// where it refuses them (bad signature, bad or missing header chunk, checksum
/// mismatch before the first image data).
pub uninterp spec fn png_header_of(data: Seq<u8>) -> Option<PngHeader>;

/// The first frame that the PNG decoder writes from the bytes `data` into a
/// zero-filled buffer of `len` bytes, or `None` where it fails (a malformed
/// stream, truncated or corrupt image data, a buffer too short for the frame).
pub uninterp spec fn png_frame_of(data: Seq<u8>, len: nat) -> Option<Seq<u8>>;

/// A buffer of `len` zero bytes.
pub open spec fn zeros(len: nat) -> Seq<u8> {
    Seq::new(len, |i: int| 0u8)
}

/// Relies on png::Decoder::new, png::Decoder::read_info and png::Reader::info:
/// with the default limits and no transformations, the header read from a
/// byte slice depends on the bytes alone.
#[verifier::external_body]
fn read_header(data: &[u8]) -> (r: Result<PngHeader, png::DecodingError>)
    ensures
        r is Ok <==> png_header_of(data@) is Some,
        r is Ok ==> png_header_of(data@) == Some(r->Ok_0),
{
    match png::Decoder::new(data).read_info() {
        Ok(reader) => {
            let info = reader.info();
            Ok(PngHeader {
                width: info.width,
                height: info.height,
                color_type: info.color_type as u8,
                bit_depth: info.bit_depth as u8,
            })
        },
        Err(e) => Err(e),
    }
}

/// Relies on png::Decoder::new, png::Decoder::read_info and
/// png::Reader::next_frame: the first frame decoded from a byte slice into a
/// zero-filled buffer depends on the bytes and the buffer's length alone, and
/// the call writes through a slice, so the buffer keeps its length.
#[verifier::external_body]
fn read_first_frame(data: &[u8], buf: &mut Vec<u8>) -> (r: Result<(), png::DecodingError>)
    requires
        old(buf)@ == zeros(old(buf)@.len()),
    ensures
        final(buf)@.len() == old(buf)@.len(),
        r is Ok <==> png_frame_of(data@, old(buf)@.len()) is Some,
        r is Ok ==> png_frame_of(data@, old(buf)@.len()) == Some(final(buf)@),
{
    match png::Decoder::new(data).read_info() {
        Ok(mut reader) => match reader.next_frame(buf.as_mut_slice()) {
            Ok(_) => Ok(()),
            Err(e) => Err(e),
        },
        Err(e) => Err(e),
    }
}

/// The byte count of a whole frame for this header. Only 8-bit RGBA is
/// accepted, four bytes per pixel; any other color type or bit depth is
/// refused, and so is a frame whose byte count does not fit in a `usize`.
pub fn frame_buffer_size(header: &PngHeader) -> (r: Result<usize, ConvertError>)
    ensures
        !is_rgba8(*header) <==> r == Err::<usize, ConvertError>(
            (ConvertError::UnsupportedFormat { color_type: header.color_type, bit_depth: header.bit_depth }),
        ),
        is_rgba8(*header) && rgba_frame_len(header.width as nat, header.height as nat) <= usize::MAX
            ==> r == Ok::<usize, ConvertError>(rgba_frame_len(header.width as nat, header.height as nat) as usize),
        is_rgba8(*header) && rgba_frame_len(header.width as nat, header.height as nat) > usize::MAX
            ==> r is Err && r->Err_0 is TooLarge,
{
    if header.color_type != COLOR_RGBA || header.bit_depth != 8 {
        return Err(ConvertError::UnsupportedFormat { color_type: header.color_type, bit_depth: header.bit_depth });
    }
    let w = header.width as usize;
    let h = header.height as usize;
    match w.checked_mul(h) {
        None => {
            let ghost (a, b) = (header.width as nat, header.height as nat);
            assert(a * b * 4 > usize::MAX) by (nonlinear_arith)
                requires a * b > usize::MAX;
            Err(ConvertError::TooLarge)
        },
        Some(area) => match area.checked_mul(4) {
            None => Err(ConvertError::TooLarge),
            Some(size) => Ok(size),
        },
    }
}

/// Decodes the first frame of an 8-bit RGBA PNG held in `data`.
///
/// Bytes whose header the PNG decoder refuses give `Decode`; a valid header
/// of another color type or bit depth gives `UnsupportedFormat`; a frame too
/// large to address gives `TooLarge`. Otherwise the image holds the header's
/// width and height and the decoded frame, `width * height * 4` bytes, or the
/// result is `Decode` where the decoder fails on the image data.
pub fn decode_rgba_png(data: &[u8]) -> (r: Result<RgbaImage, ConvertError>)
    ensures
        png_header_of(data@) is None ==> r is Err && r->Err_0 is Decode,
        png_header_of(data@) is Some && !is_rgba8(png_header_of(data@)->Some_0) ==> r
            == Err::<RgbaImage, ConvertError>(
            (ConvertError::UnsupportedFormat {
                color_type: png_header_of(data@)->Some_0.color_type,
                bit_depth: png_header_of(data@)->Some_0.bit_depth,
            }),
        ),
        png_header_of(data@) is Some && is_rgba8(png_header_of(data@)->Some_0) ==> ({
            let h = png_header_of(data@)->Some_0;
            let n = rgba_frame_len(h.width as nat, h.height as nat);
            &&& n > usize::MAX ==> r is Err && r->Err_0 is TooLarge
            &&& n <= usize::MAX && png_frame_of(data@, n) is None ==> r is Err && r->Err_0 is Decode
            &&& n <= usize::MAX && png_frame_of(data@, n) is Some ==> {
                &&& r is Ok
                &&& r->Ok_0.width == h.width
                &&& r->Ok_0.height == h.height
                &&& r->Ok_0.pixels@ == png_frame_of(data@, n)->Some_0
            }
        }),
        r is Ok ==> r->Ok_0.wf(),
{
    let header = match read_header(data) {
        Ok(header) => header,
        Err(e) => return Err(ConvertError::Decode(e)),
    };
    let size = match frame_buffer_size(&header) {
        Ok(size) => size,
        Err(e) => return Err(e),
    };
    let mut pixels: Vec<u8> = Vec::new();
    let mut i: usize = 0;
    while i < size
        invariant
            i <= size,
            pixels@ == zeros(i as nat),
        decreases size - i,
    {
        pixels.push(0u8);
        i = i + 1;
        assert(pixels@ =~= zeros(i as nat));
    }
    match read_first_frame(data, &mut pixels) {
        Ok(()) => Ok(RgbaImage { width: header.width, height: header.height, pixels }),
        Err(e) => Err(ConvertError::Decode(e)),
    }
}

} // verus!
