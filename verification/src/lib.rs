//! Reader for the NSO executable container: a fixed 256-byte header followed
//! by three segments (code, read-only data, mutable data), each stored either
//! as it is or as one LZ4 block.
//!
//! [`NsoFile::parse`] decodes the header, [`NsoFile::extract_raw`] cuts the
//! stored bytes of a segment out of a container in memory, and
//! [`NsoFile::extract_final`] also undoes the compression. A caller that
//! reads the container from elsewhere seeks and reads itself and hands what
//! it read to [`NsoFile::take_raw`] and [`NsoFile::decode`].

pub mod bytes;
pub mod decompress;
pub mod error;
pub mod flags;
pub mod header;
pub mod segment;

pub use error::{NsoError, Segment};
pub use flags::Flags;
pub use header::{NsoFile, SectionHeader, SegmentHeader, HEADER_SIZE, MAGIC};
