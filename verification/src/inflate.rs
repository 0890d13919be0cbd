//! Unpacking of deflate-compressed chunks.

use vstd::prelude::*;

use crate::result::{viewed, viewed_option, DecodeError, Error};

verus! {

/// What the zlib stream `data` unpacks to when the output may be at most
/// `limit` bytes long; `None` where `data` is no complete valid zlib stream
/// or its output is longer than `limit`.
pub uninterp spec fn zlib_inflated(data: Seq<u8>, limit: nat) -> Option<Seq<u8>>;

/// Calls `miniz_oxide::inflate::decompress_to_vec_zlib_with_limit`.
///
/// Not proved: that the call computes a function of its two arguments, named
/// `zlib_inflated` here, and that the vector it returns on success is never
/// longer than the limit it was given.
#[verifier::external_body]
pub(crate) fn inflate(data: &[u8], limit: usize) -> (r: Option<Vec<u8>>)
    ensures
        viewed_option(r) == zlib_inflated(data@, limit as nat),
        r matches Some(v) ==> v@.len() <= limit,
{
    miniz_oxide::inflate::decompress_to_vec_zlib_with_limit(data, limit).ok()
}

/// The content of a chunk that must hold `want` bytes, given what unpacking
/// its stored bytes produced.
pub open spec fn checked_inflated(unpacked: Option<Seq<u8>>, want: int) -> Result<Seq<u8>, Error> {
    match unpacked {
        None => Err(Error::DecodeError(DecodeError::CorruptChunk)),
        Some(bytes) => if bytes.len() < want {
            Err(Error::DecodeError(DecodeError::TruncatedChunk))
        } else {
            Ok(bytes)
        },
    }
}

/// Accepts the unpacked bytes of a chunk if there are at least `want` of
/// them. A chunk that did not unpack is corrupt; one that unpacked to fewer
/// bytes is truncated.
pub fn check_inflated(unpacked: Option<Vec<u8>>, want: usize) -> (r: Result<Vec<u8>, Error>)
    ensures
        viewed(r) == checked_inflated(viewed_option(unpacked), want as int),
        r matches Ok(v) ==> unpacked == Some(v),
{
    match unpacked {
        None => Err(Error::DecodeError(DecodeError::CorruptChunk)),
        Some(bytes) => if bytes.len() < want {
            Err(Error::DecodeError(DecodeError::TruncatedChunk))
        } else {
            Ok(bytes)
        },
    }
}

} // verus!
