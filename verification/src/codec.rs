//! The PNG front door: trusted wrappers around the png crate.
//!
//! The engine itself never reads container bytes; these two wrappers carry
//! pixel data across the container boundary as plain values (geometry
//! numbers, a color code and raw bytes), and everything that comes back
//! from the decoder is validated by `RasterBuffer::new` before any
//! corruption begins.
//!
//! Decoding, and encoding under this crate's fixed settings, are functions
//! of their byte arguments alone, so each result bears a name:
//! `png_decode_of` and `png_encode_of` stand for exactly what the png
//! crate returns, `None` standing for a rejection. The wrappers' contracts
//! tie both their `Ok` and their `Err` to the names, which is what lets
//! `Core::pixelmosh` pin its whole outcome.

use crate::buffer::MoshError;
use vstd::prelude::*;

verus! {

/// What PNG decoding yields on `data`: width, height, the PNG color type
/// code, the bit depth and the decoded pixel bytes of the first frame —
/// or `None` where the decoder rejects the bytes. A function of the input
/// bytes alone.
pub uninterp spec fn png_decode_of(data: Seq<u8>) -> Option<(u32, u32, u8, u8, Seq<u8>)>;

/// What PNG encoding under this crate's fixed settings yields on an image
/// of the given geometry, PNG color type code, bit depth and pixel bytes —
/// or `None` where the encoder rejects them (zero dimensions, a code or
/// depth the format does not know, a wrong byte count, an indexed image
/// without a palette). A function of the arguments alone.
pub uninterp spec fn png_encode_of(
    width: u32,
    height: u32,
    color_code: u8,
    depth: u8,
    data: Seq<u8>,
) -> Option<Seq<u8>>;

/// Relies on png::Decoder, Reader::read_info and Reader::next_frame: parses
/// a PNG container out of `data` and returns `png_decode_of(data)` — the
/// decoded geometry, color code, depth and pixel bytes on acceptance,
/// `DecodeFailed` on any decoder rejection.
#[verifier::external_body]
pub(crate) fn decode_png(data: &[u8]) -> (r: Result<(u32, u32, u8, u8, Vec<u8>), MoshError>)
    ensures
        match r {
            Ok(t) => png_decode_of(data@) == Some((t.0, t.1, t.2, t.3, t.4@)),
            Err(e) => e == MoshError::DecodeFailed && png_decode_of(data@) is None,
        },
{
    let decoder = png::Decoder::new(std::io::Cursor::new(data));
    let mut reader = decoder.read_info().map_err(|_| MoshError::DecodeFailed)?;
    let size = reader.output_buffer_size().ok_or(MoshError::DecodeFailed)?;
    let mut buf: Vec<u8> = vec![0u8; size];
    let info = reader.next_frame(&mut buf).map_err(|_| MoshError::DecodeFailed)?;
    buf.truncate(info.buffer_size());
    Ok((info.width, info.height, info.color_type as u8, info.bit_depth as u8, buf))
}

/// Relies on png::Encoder and Writer::write_image_data: writes one image
/// with the given geometry, PNG color type code and bit depth into a fresh
/// container and returns `png_encode_of` of the arguments — the container
/// bytes on acceptance, `EncodeFailed` on any encoder rejection.
#[verifier::external_body]
pub(crate) fn encode_png(width: u32, height: u32, color_code: u8, depth: u8, data: &Vec<u8>) -> (r:
    Result<Vec<u8>, MoshError>)
    ensures
        match r {
            Ok(out) => png_encode_of(width, height, color_code, depth, data@) == Some(out@),
            Err(e) => e == MoshError::EncodeFailed && png_encode_of(
                width,
                height,
                color_code,
                depth,
                data@,
            ) is None,
        },
{
    let color = png::ColorType::from_u8(color_code).ok_or(MoshError::EncodeFailed)?;
    let bits = png::BitDepth::from_u8(depth).ok_or(MoshError::EncodeFailed)?;
    let mut out: Vec<u8> = Vec::new();
    let mut encoder = png::Encoder::new(&mut out, width, height);
    encoder.set_color(color);
    encoder.set_depth(bits);
    let mut writer = encoder.write_header().map_err(|_| MoshError::EncodeFailed)?;
    writer.write_image_data(data).map_err(|_| MoshError::EncodeFailed)?;
    drop(writer);
    Ok(out)
}

} // verus!
