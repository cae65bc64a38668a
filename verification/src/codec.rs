//! The codecs that a layer may pack its tiles with. Their work is done by
//! the `base64`, `libflate` and `zstd` crates; this module gives each result
//! a name, so that what is made of it can be stated.

use crate::error::{io_text, Fault, TiledError};
use vstd::prelude::*;

verus! {

/// What `base64::decode` makes of a text in the standard alphabet with
/// padding: the bytes, or the reason why it is no such text.
pub uninterp spec fn base64_decoded(text: Seq<u8>) -> Result<Seq<u8>, base64::DecodeError>;

/// The content of a zlib stream, as `libflate` inflates it; where the bytes
/// are no such stream, what the error displays that `libflate` gives.
pub uninterp spec fn zlib_inflated(data: Seq<u8>) -> Result<Seq<u8>, Seq<char>>;

/// The content of a gzip stream, as `libflate` inflates it; where the bytes
/// are no such stream, what the error displays that `libflate` gives.
pub uninterp spec fn gzip_inflated(data: Seq<u8>) -> Result<Seq<u8>, Seq<char>>;

/// The content of a sequence of Zstandard frames, as `zstd` decompresses it;
/// where the bytes are no such sequence, what the error displays that `zstd`
/// gives.
pub uninterp spec fn zstd_inflated(data: Seq<u8>) -> Result<Seq<u8>, Seq<char>>;

/// `base64::decode`. Taken on trust: the result, bytes or error, depends on
/// the text alone. The outside function panics on a text so long that its
/// length plus 7 is no `usize`, so such a text is not handed to it.
#[verifier::external_body]
fn base64_decode(text: &[u8]) -> (decoded: Result<Vec<u8>, base64::DecodeError>)
    requires
        text@.len() + 7 <= usize::MAX,
    ensures
        match decoded {
            Ok(bytes) => base64_decoded(text@) == Ok::<Seq<u8>, base64::DecodeError>(bytes@),
            Err(e) => base64_decoded(text@) == Err::<Seq<u8>, base64::DecodeError>(e),
        },
{
    base64::decode(text)
}

/// `libflate::non_blocking::zlib::Decoder::new` on a slice, read to its end
/// with `std::io::Read::read_to_end`. This decoder goes from block to block
/// in a loop, so a stream of many empty blocks costs it no stack. Taken on
/// trust: whether the stream can be inflated, to what, and what the error
/// displays where it cannot, depends on the bytes alone.
#[verifier::external_body]
fn zlib_inflate(data: &[u8]) -> (inflated: Result<Vec<u8>, std::io::Error>)
    ensures
        match inflated {
            Ok(bytes) => zlib_inflated(data@) == Ok::<Seq<u8>, Seq<char>>(bytes@),
            Err(e) => zlib_inflated(data@) == Err::<Seq<u8>, Seq<char>>(io_text(e)),
        },
{
    let mut decoder = libflate::non_blocking::zlib::Decoder::new(data);
    let mut bytes = Vec::new();
    std::io::Read::read_to_end(&mut decoder, &mut bytes)?;
    Ok(bytes)
}

/// `libflate::non_blocking::gzip::Decoder::new` on a slice, read to its end
/// with `std::io::Read::read_to_end`. This decoder goes from block to block
/// in a loop, so a stream of many empty blocks costs it no stack. Taken on
/// trust: whether the stream can be inflated, to what, and what the error
/// displays where it cannot, depends on the bytes alone.
#[verifier::external_body]
fn gzip_inflate(data: &[u8]) -> (inflated: Result<Vec<u8>, std::io::Error>)
    ensures
        match inflated {
            Ok(bytes) => gzip_inflated(data@) == Ok::<Seq<u8>, Seq<char>>(bytes@),
            Err(e) => gzip_inflated(data@) == Err::<Seq<u8>, Seq<char>>(io_text(e)),
        },
{
    let mut decoder = libflate::non_blocking::gzip::Decoder::new(data);
    let mut bytes = Vec::new();
    std::io::Read::read_to_end(&mut decoder, &mut bytes)?;
    Ok(bytes)
}

/// `zstd::stream::read::Decoder::with_buffer` on a slice, read to its end
/// with `std::io::Read::read_to_end`. Taken on trust: whether the frames can
/// be decompressed, to what, and what the error displays where they cannot,
/// depends on the bytes alone.
#[verifier::external_body]
fn zstd_inflate(data: &[u8]) -> (inflated: Result<Vec<u8>, std::io::Error>)
    ensures
        match inflated {
            Ok(bytes) => zstd_inflated(data@) == Ok::<Seq<u8>, Seq<char>>(bytes@),
            Err(e) => zstd_inflated(data@) == Err::<Seq<u8>, Seq<char>>(io_text(e)),
        },
{
    let mut decoder = zstd::stream::read::Decoder::with_buffer(std::io::Cursor::new(data))?;
    let mut bytes = Vec::new();
    std::io::Read::read_to_end(&mut decoder, &mut bytes)?;
    Ok(bytes)
}

/// The message for a base64 text that is too long to decode.
pub open spec fn too_long() -> Seq<char> {
    "Base64 text is too long to decode"@
}

/// The bytes that a base64 text stands for. A text within 7 bytes of the
/// greatest length that the machine can count is not decoded.
pub open spec fn base64_bytes(text: Seq<u8>) -> Result<Seq<u8>, Fault> {
    if text.len() + 7 > usize::MAX {
        Err(Fault::Other(too_long()))
    } else {
        match base64_decoded(text) {
            Ok(bytes) => Ok(bytes),
            Err(e) => Err(Fault::Base64(e)),
        }
    }
}

/// Reads the bytes that a base64 text stands for.
pub fn decode_base64(text: &[u8]) -> (decoded: Result<Vec<u8>, TiledError>)
    ensures
        match decoded {
            Ok(bytes) => base64_bytes(text@) == Ok::<Seq<u8>, Fault>(bytes@),
            Err(e) => base64_bytes(text@) == Err::<Seq<u8>, Fault>(e@),
        },
{
    if text.len() > usize::MAX - 7 {
        return Err(TiledError::other("Base64 text is too long to decode"));
    }
    match base64_decode(text) {
        Ok(bytes) => Ok(bytes),
        Err(e) => Err(TiledError::Base64DecodingError(e)),
    }
}

/// Inflates a zlib stream.
pub fn decode_zlib(data: Vec<u8>) -> (inflated: Result<Vec<u8>, TiledError>)
    ensures
        match inflated {
            Ok(bytes) => zlib_inflated(data@) == Ok::<Seq<u8>, Seq<char>>(bytes@),
            Err(e) => zlib_inflated(data@) is Err && e@ == Fault::Decompressing(
                zlib_inflated(data@)->Err_0,
            ),
        },
{
    match zlib_inflate(data.as_slice()) {
        Ok(bytes) => Ok(bytes),
        Err(e) => Err(TiledError::DecompressingError(e)),
    }
}

/// Inflates a gzip stream.
pub fn decode_gzip(data: Vec<u8>) -> (inflated: Result<Vec<u8>, TiledError>)
    ensures
        match inflated {
            Ok(bytes) => gzip_inflated(data@) == Ok::<Seq<u8>, Seq<char>>(bytes@),
            Err(e) => gzip_inflated(data@) is Err && e@ == Fault::Decompressing(
                gzip_inflated(data@)->Err_0,
            ),
        },
{
    match gzip_inflate(data.as_slice()) {
        Ok(bytes) => Ok(bytes),
        Err(e) => Err(TiledError::DecompressingError(e)),
    }
}

/// Decompresses a sequence of Zstandard frames.
pub fn decode_zstd(data: Vec<u8>) -> (inflated: Result<Vec<u8>, TiledError>)
    ensures
        match inflated {
            Ok(bytes) => zstd_inflated(data@) == Ok::<Seq<u8>, Seq<char>>(bytes@),
            Err(e) => zstd_inflated(data@) is Err && e@ == Fault::Decompressing(
                zstd_inflated(data@)->Err_0,
            ),
        },
{
    match zstd_inflate(data.as_slice()) {
        Ok(bytes) => Ok(bytes),
        Err(e) => Err(TiledError::DecompressingError(e)),
    }
}

} // verus!
