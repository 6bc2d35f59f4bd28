//! Getting a segment out of a container held in memory.
//!
//! A segment is read in two steps: the stored bytes are cut out of the source
//! at the place the header names, then they go through the decompression
//! step. No step looks back, and the segments do not depend on each other.

use vstd::prelude::*;
use crate::decompress::{bytes_of, decode_outcome, decode_segment};
use crate::error::{NsoError, Segment};
use crate::header::{HeaderView, NsoFile, SegmentHeader};

verus! {

impl HeaderView {
    /// The descriptor of a segment.
    pub open spec fn segment_header(self, segment: Segment) -> SegmentHeader {
        match segment {
            Segment::Text => self.text_segment_header,
            Segment::Rodata => self.rodata_segment_header,
            Segment::Data => self.data_segment_header,
        }
    }

    /// The number of bytes a segment takes in the file.
    pub open spec fn file_size(self, segment: Segment) -> u32 {
        match segment {
            Segment::Text => self.text_file_size,
            Segment::Rodata => self.rodata_file_size,
            Segment::Data => self.data_file_size,
        }
    }

    /// Whether a segment is stored as an LZ4 block.
    pub open spec fn compressed(self, segment: Segment) -> bool {
        match segment {
            Segment::Text => self.flags.text_compressed,
            Segment::Rodata => self.flags.rodata_compressed,
            Segment::Data => self.flags.data_compressed,
        }
    }
}

/// Exactly `expected` bytes out of those that stand at `offset`: the first
/// `expected` of `available`, or `TruncatedSegment` where there are fewer.
pub open spec fn take_exact(segment: Segment, offset: u32, expected: u32, available: Seq<u8>)
    -> Result<Seq<u8>, NsoError> {
    if available.len() < expected {
        Err(
            NsoError::TruncatedSegment {
                segment,
                offset,
                expected,
                available: available.len() as usize,
            },
        )
    } else {
        Ok(available.subrange(0, expected as int))
    }
}

/// The stored bytes of a segment: the bytes of `source` from the segment's
/// file offset on, as many as its file size says.
pub open spec fn raw_outcome(h: HeaderView, segment: Segment, source: Seq<u8>) -> Result<
    Seq<u8>,
    NsoError,
> {
    let offset = h.segment_header(segment).file_offset;
    if offset > source.len() {
        Err(NsoError::SeekFailure { segment, offset })
    } else {
        take_exact(
            segment,
            offset,
            h.file_size(segment),
            source.subrange(offset as int, source.len() as int),
        )
    }
}

/// The final bytes of a segment: its stored bytes, decoded where the flag
/// of the segment says so, with the size in memory as the size to decode to.
pub open spec fn final_outcome(h: HeaderView, segment: Segment, source: Seq<u8>) -> Result<
    Seq<u8>,
    NsoError,
> {
    match raw_outcome(h, segment, source) {
        Ok(raw) => decode_outcome(
            segment,
            h.compressed(segment),
            h.segment_header(segment).size,
            raw,
        ),
        Err(e) => Err(e),
    }
}

/// The bytes of a borrowed result, or its error.
pub open spec fn slice_of(r: Result<&[u8], NsoError>) -> Result<Seq<u8>, NsoError> {
    match r {
        Ok(out) => Ok(out@),
        Err(e) => Err(e),
    }
}

/// Where the stored bytes of a segment are found, they are exactly the
/// stretch of the source from the file offset to the file offset plus the
/// file size.
pub proof fn lemma_raw_is_the_stored_stretch(h: HeaderView, segment: Segment, source: Seq<u8>)
    ensures
        match raw_outcome(h, segment, source) {
            Ok(raw) => {
                let offset = h.segment_header(segment).file_offset as int;
                &&& offset + h.file_size(segment) <= source.len()
                &&& raw == source.subrange(offset, offset + h.file_size(segment))
            },
            Err(NsoError::SeekFailure { .. }) => h.segment_header(segment).file_offset
                > source.len(),
            Err(_) => {
                let offset = h.segment_header(segment).file_offset as int;
                offset <= source.len() < offset + h.file_size(segment)
            },
        },
{
    let offset = h.segment_header(segment).file_offset as int;
    if offset <= source.len() && source.len() - offset >= h.file_size(segment) {
        assert(source.subrange(offset, source.len() as int).subrange(
            0,
            h.file_size(segment) as int,
        ) =~= source.subrange(offset, offset + h.file_size(segment)));
    }
}

/// For a segment that is not compressed the final bytes are the stored
/// bytes, and there are as many as the file size says.
pub proof fn lemma_uncompressed_final_is_raw(h: HeaderView, segment: Segment, source: Seq<u8>)
    requires
        !h.compressed(segment),
    ensures
        final_outcome(h, segment, source) == raw_outcome(h, segment, source),
        final_outcome(h, segment, source) matches Ok(bytes) ==> bytes.len() == h.file_size(
            segment,
        ),
{
}

/// For a compressed segment the final bytes, where there are any, are as
/// many as the size in memory says: every other outcome of the decoder is a
/// `DecompressionFailure`.
pub proof fn lemma_compressed_final_has_declared_size(
    h: HeaderView,
    segment: Segment,
    source: Seq<u8>,
)
    requires
        h.compressed(segment),
    ensures
        match final_outcome(h, segment, source) {
            Ok(bytes) => bytes.len() == h.segment_header(segment).size,
            Err(e) => raw_outcome(h, segment, source) == Err::<Seq<u8>, NsoError>(e) || e == (
            NsoError::DecompressionFailure { segment }),
        },
{
}

impl NsoFile {
    /// The descriptor of a segment.
    pub fn segment_header(&self, segment: Segment) -> (r: SegmentHeader)
        ensures
            r == self@.segment_header(segment),
    {
        match segment {
            Segment::Text => self.text_segment_header,
            Segment::Rodata => self.rodata_segment_header,
            Segment::Data => self.data_segment_header,
        }
    }

    /// The number of bytes a segment takes in the file.
    pub fn file_size(&self, segment: Segment) -> (r: u32)
        ensures
            r == self@.file_size(segment),
    {
        match segment {
            Segment::Text => self.text_file_size,
            Segment::Rodata => self.rodata_file_size,
            Segment::Data => self.data_file_size,
        }
    }

    /// Whether a segment is stored as an LZ4 block.
    pub fn is_compressed(&self, segment: Segment) -> (r: bool)
        ensures
            r == self@.compressed(segment),
    {
        match segment {
            Segment::Text => self.flags.text_compressed(),
            Segment::Rodata => self.flags.rodata_compressed(),
            Segment::Data => self.flags.data_compressed(),
        }
    }

    /// The position to seek to for a segment in a source of `source_len`
    /// bytes: the segment's file offset, or `SeekFailure` where that lies
    /// beyond the end of the source.
    pub fn seek_target(&self, segment: Segment, source_len: u64) -> (r: Result<u64, NsoError>)
        ensures
            r == (if self@.segment_header(segment).file_offset > source_len {
                Err::<u64, NsoError>(
                    NsoError::SeekFailure {
                        segment,
                        offset: self@.segment_header(segment).file_offset,
                    },
                )
            } else {
                Ok::<u64, NsoError>(self@.segment_header(segment).file_offset as u64)
            }),
    {
        let offset = self.segment_header(segment).file_offset;
        if offset as u64 > source_len {
            Err(NsoError::SeekFailure { segment, offset })
        } else {
            Ok(offset as u64)
        }
    }

    /// Keeps exactly the stored bytes of a segment out of `available`, the
    /// bytes that a reader found at the segment's file offset. A reader that
    /// met the end of its source early is answered with `TruncatedSegment`.
    pub fn take_raw(&self, segment: Segment, available: Vec<u8>) -> (r: Result<Vec<u8>, NsoError>)
        ensures
            bytes_of(r) == take_exact(
                segment,
                self@.segment_header(segment).file_offset,
                self@.file_size(segment),
                available@,
            ),
    {
        let offset = self.segment_header(segment).file_offset;
        let expected = self.file_size(segment);
        let mut raw = available;
        if raw.len() < expected as usize {
            return Err(
                NsoError::TruncatedSegment { segment, offset, expected, available: raw.len() },
            );
        }
        raw.truncate(expected as usize);
        Ok(raw)
    }

    /// Decodes the stored bytes of a segment as the header directs.
    pub fn decode(&self, segment: Segment, raw: Vec<u8>) -> (r: Result<Vec<u8>, NsoError>)
        ensures
            bytes_of(r) == decode_outcome(
                segment,
                self@.compressed(segment),
                self@.segment_header(segment).size,
                raw@,
            ),
            !self@.compressed(segment) ==> r == Ok::<Vec<u8>, NsoError>(raw),
            self@.compressed(segment) ==> match r {
                Ok(out) => out@.len() == self@.segment_header(segment).size,
                Err(e) => e == (NsoError::DecompressionFailure { segment }),
            },
    {
        decode_segment(
            segment,
            self.is_compressed(segment),
            self.segment_header(segment).size,
            raw,
        )
    }

    /// The stored bytes of a segment, cut out of a container in memory.
    ///
    /// Fails with `SeekFailure` when the file offset lies beyond the end of
    /// `source`, and with `TruncatedSegment` when fewer bytes than the file
    /// size follow it. The result never is shorter than the file size.
    pub fn extract_raw<'a>(&self, source: &'a [u8], segment: Segment) -> (r: Result<
        &'a [u8],
        NsoError,
    >)
        ensures
            slice_of(r) == raw_outcome(self@, segment, source@),
            r matches Ok(raw) ==> raw@.len() == self@.file_size(segment),
    {
        let offset = self.segment_header(segment).file_offset;
        let expected = self.file_size(segment);
        let n = source.len();
        if let Err(e) = self.seek_target(segment, n as u64) {
            return Err(e);
        }
        let start = offset as usize;
        let available = n - start;
        if available < expected as usize {
            return Err(NsoError::TruncatedSegment { segment, offset, expected, available });
        }
        let raw = vstd::slice::slice_subrange(source, start, start + expected as usize);
        proof {
            lemma_raw_is_the_stored_stretch(self@, segment, source@);
        }
        Ok(raw)
    }

    /// The final bytes of a segment of a container in memory: the stored
    /// bytes where the segment is not compressed, the decoded block where it
    /// is.
    pub fn extract_final(&self, source: &[u8], segment: Segment) -> (r: Result<Vec<u8>, NsoError>)
        ensures
            bytes_of(r) == final_outcome(self@, segment, source@),
            !self@.compressed(segment) ==> bytes_of(r) == raw_outcome(self@, segment, source@),
            r matches Ok(out) ==> out@.len() == (if self@.compressed(segment) {
                self@.segment_header(segment).size
            } else {
                self@.file_size(segment)
            }),
    {
        match self.extract_raw(source, segment) {
            Ok(raw) => self.decode(segment, vstd::slice::slice_to_vec(raw)),
            Err(e) => Err(e),
        }
    }

    /// The stored bytes of the text segment. The slice returned is a reader
    /// of exactly those bytes.
    pub fn get_raw_text_reader<'a>(&self, source: &'a [u8]) -> (r: Result<&'a [u8], NsoError>)
        ensures
            slice_of(r) == raw_outcome(self@, Segment::Text, source@),
    {
        self.extract_raw(source, Segment::Text)
    }

    /// The text segment, decompressed where the header says it is compressed.
    pub fn get_text(&self, source: &[u8]) -> (r: Result<Vec<u8>, NsoError>)
        ensures
            bytes_of(r) == final_outcome(self@, Segment::Text, source@),
    {
        self.extract_final(source, Segment::Text)
    }

    /// The stored bytes of the data segment. The slice returned is a reader
    /// of exactly those bytes.
    pub fn get_raw_data_reader<'a>(&self, source: &'a [u8]) -> (r: Result<&'a [u8], NsoError>)
        ensures
            slice_of(r) == raw_outcome(self@, Segment::Data, source@),
    {
        self.extract_raw(source, Segment::Data)
    }

    /// The data segment, decompressed where the header says it is compressed.
    pub fn get_data(&self, source: &[u8]) -> (r: Result<Vec<u8>, NsoError>)
        ensures
            bytes_of(r) == final_outcome(self@, Segment::Data, source@),
    {
        self.extract_final(source, Segment::Data)
    }

    /// The stored bytes of the read-only data segment. The slice returned is
    /// a reader of exactly those bytes.
    pub fn get_raw_rodata_reader<'a>(&self, source: &'a [u8]) -> (r: Result<&'a [u8], NsoError>)
        ensures
            slice_of(r) == raw_outcome(self@, Segment::Rodata, source@),
    {
        self.extract_raw(source, Segment::Rodata)
    }

    /// The read-only data segment, decompressed where the header says it is
    /// compressed.
    pub fn get_rodata(&self, source: &[u8]) -> (r: Result<Vec<u8>, NsoError>)
        ensures
            bytes_of(r) == final_outcome(self@, Segment::Rodata, source@),
    {
        self.extract_final(source, Segment::Rodata)
    }
}

} // verus!
