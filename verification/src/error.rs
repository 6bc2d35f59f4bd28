//! The three segments of a container, and the ways reading one can fail.

use vstd::prelude::*;

verus! {

/// One of the three segments of a container.
#[derive(Clone, Copy, Debug, PartialEq, Eq)]
pub enum Segment {
    /// Executable code.
    Text,
    /// Read-only data.
    Rodata,
    /// Mutable data.
    Data,
}

/// Why a header or a segment could not be produced.
///
/// Every failure comes from the input itself, so none is worth a retry.
#[derive(Clone, Copy, Debug, PartialEq, Eq)]
pub enum NsoError {
    /// The source does not start with the magic bytes. `found` is what it
    /// starts with, read as a little-endian integer.
    InvalidMagic { found: u32 },
    /// The source ended before the whole header: it holds `available` bytes.
    TruncatedHeader { available: usize },
    /// The segment's file offset lies beyond the end of the source.
    SeekFailure { segment: Segment, offset: u32 },
    /// Fewer than `expected` bytes follow `offset`: only `available` do.
    TruncatedSegment { segment: Segment, offset: u32, expected: u32, available: usize },
    /// The stored block is no LZ4 block that decodes to exactly the declared size.
    DecompressionFailure { segment: Segment },
}

} // verus!
