//! The decompression step: stored bytes in, segment bytes out.
//!
//! A segment whose flag is clear is stored as it is. One whose flag is set is
//! stored as a single LZ4 block, and the header, not the block, says how many
//! bytes it holds: a block that decodes to any other number of bytes is
//! refused.

use vstd::prelude::*;
use crate::error::{NsoError, Segment};

verus! {

/// The error type of `lz4::block::decompress`. Nothing is read out of it.
#[verifier::external_type_specification]
#[verifier::external_body]
pub struct ExIoError(std::io::Error);

/// What `lz4::block::decompress(src, Some(size))` gives for a source of at
/// most `i32::MAX` bytes: the decoded bytes, or `None` where it reports an
/// error. The call reads nothing but its two arguments.
pub uninterp spec fn lz4_block_decompress(src: Seq<u8>, size: int) -> Option<Seq<u8>>;

/// Calls `lz4::block::decompress` with an explicit size.
///
/// Trusted: the result is the one named by [`lz4_block_decompress`]. The
/// crate hands `size` to liblz4's `LZ4_decompress_safe` as the capacity of a
/// zeroed buffer, returns an error where that function does or where `size`
/// is negative or above liblz4's input limit, and otherwise cuts the buffer
/// to the number of bytes decoded, which may be fewer than `size`. It passes
/// the length of `src` as a C `int`, so longer sources are kept out.
#[verifier::external_body]
fn lz4_decompress(src: &[u8], size: i32) -> (r: Result<Vec<u8>, std::io::Error>)
    requires
        src@.len() <= i32::MAX,
    ensures
        match r {
            Ok(out) => lz4_block_decompress(src@, size as int) == Some(out@),
            Err(_) => lz4_block_decompress(src@, size as int) is None,
        },
{
    lz4::block::decompress(src, Some(size))
}

/// What is made of a decoded block: it is accepted only if it holds exactly
/// `size` bytes.
pub open spec fn accept_block(segment: Segment, size: u32, block: Option<Seq<u8>>) -> Result<
    Seq<u8>,
    NsoError,
> {
    match block {
        Some(out) => if out.len() == size {
            Ok(out)
        } else {
            Err(NsoError::DecompressionFailure { segment })
        },
        None => Err(NsoError::DecompressionFailure { segment }),
    }
}

/// The bytes of a decoder's result, if it gave any.
pub open spec fn block_bytes(block: Result<Vec<u8>, std::io::Error>) -> Option<Seq<u8>> {
    match block {
        Ok(out) => Some(out@),
        Err(_) => None,
    }
}

/// The bytes of a result, or its error.
pub open spec fn bytes_of(r: Result<Vec<u8>, NsoError>) -> Result<Seq<u8>, NsoError> {
    match r {
        Ok(out) => Ok(out@),
        Err(e) => Err(e),
    }
}

/// The final bytes of a segment whose stored bytes are `raw`.
pub open spec fn decode_outcome(segment: Segment, compressed: bool, size: u32, raw: Seq<u8>)
    -> Result<Seq<u8>, NsoError> {
    if !compressed {
        Ok(raw)
    } else if size > i32::MAX || raw.len() > i32::MAX {
        Err(NsoError::DecompressionFailure { segment })
    } else {
        accept_block(segment, size, lz4_block_decompress(raw, size as int))
    }
}

/// Judges what the block decoder returned for a segment declared to hold
/// `size` bytes: the decoded bytes pass only if there are exactly `size` of
/// them, and every other result is a `DecompressionFailure` of that segment.
pub fn check_block(segment: Segment, size: u32, block: Result<Vec<u8>, std::io::Error>) -> (r:
    Result<Vec<u8>, NsoError>)
    ensures
        bytes_of(r) == accept_block(segment, size, block_bytes(block)),
{
    match block {
        Ok(out) => {
            if out.len() == size as usize {
                Ok(out)
            } else {
                Err(NsoError::DecompressionFailure { segment })
            }
        },
        Err(_) => Err(NsoError::DecompressionFailure { segment }),
    }
}

/// Produces the final bytes of a segment from its stored bytes.
///
/// With `compressed` clear the stored bytes are returned as they are. With it
/// set they are decoded as one LZ4 block: the result holds exactly `size`
/// bytes or is a `DecompressionFailure`, never a shorter or longer buffer.
/// Equal arguments always give equal results.
pub fn decode_segment(segment: Segment, compressed: bool, size: u32, raw: Vec<u8>) -> (r: Result<
    Vec<u8>,
    NsoError,
>)
    ensures
        bytes_of(r) == decode_outcome(segment, compressed, size, raw@),
        !compressed ==> r == Ok::<Vec<u8>, NsoError>(raw),
        compressed ==> match r {
            Ok(out) => out@.len() == size,
            Err(e) => e == (NsoError::DecompressionFailure { segment }),
        },
{
    if !compressed {
        return Ok(raw);
    }
    if size > 0x7fff_ffff || raw.len() > 0x7fff_ffff {
        return Err(NsoError::DecompressionFailure { segment });
    }
    let block = lz4_decompress(raw.as_slice(), size as i32);
    check_block(segment, size, block)
}

} // verus!
