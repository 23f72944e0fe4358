//! Decoding of concatenated (multi-member) gzip byte streams.
//!
//! The decompressed contents of a byte stream are a function of its bytes
//! alone; they are given the name `gunzip_of` here, and the decoder is
//! trusted to return exactly that.

use vstd::prelude::*;

verus! {

/// A truncated stream, a CRC failure, or other malformed gzip data.
#[derive(Clone, Copy, Debug, PartialEq, Eq, Structural)]
pub struct DecodeError;

/// The concatenated decompressed payloads of the gzip members of `data`, or
/// `None` where `data` is not a well-formed sequence of gzip members.
pub uninterp spec fn gunzip_of(data: Seq<u8>) -> Option<Seq<u8>>;

/// Relies on flate2's `bufread::MultiGzDecoder`, which decodes every member
/// of a multi-member gzip stream; what it yields depends on the input bytes
/// alone.
#[verifier::external_body]
pub(crate) fn gunzip_members(data: &[u8]) -> (r: Result<Vec<u8>, DecodeError>)
    ensures
        match r {
            Ok(out) => gunzip_of(data@) == Option::Some(out@),
            Err(_) => gunzip_of(data@) is None,
        },
{
    let mut dec = flate2::bufread::MultiGzDecoder::new(data);
    let mut out: Vec<u8> = Vec::new();
    match std::io::Read::read_to_end(&mut dec, &mut out) {
        Ok(_) => Ok(out),
        Err(_) => Err(DecodeError),
    }
}

} // verus!
