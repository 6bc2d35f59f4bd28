//! The fixed 256-byte header and its byte layout.
//!
//! All integers are little-endian. The format carries no lengths of its own:
//! the place of every field follows from the widths of the fields before it.
//!
//! | offset | field                      | width |
//! |-------:|----------------------------|------:|
//! |      0 | magic                      |     4 |
//! |      4 | version                    |     4 |
//! |      8 | reserved                   |     4 |
//! |     12 | flags                      |     4 |
//! |     16 | text segment header        |    12 |
//! |     28 | module name offset         |     4 |
//! |     32 | rodata segment header      |    12 |
//! |     44 | module name size           |     4 |
//! |     48 | data segment header        |    12 |
//! |     60 | bss size                   |     4 |
//! |     64 | module id                  |    32 |
//! |     96 | text, rodata, data file size |  12 |
//! |    108 | reserved words             |    28 |
//! |    136 | embedded section header    |     8 |
//! |    144 | dynstr section header      |     8 |
//! |    152 | dynsym section header      |     8 |
//! |    160 | text, rodata, data hash    |    96 |

use vstd::prelude::*;
use crate::bytes::{
    lemma_u32_at_write_back, lemma_u32_bytes_read_back, push_bytes, push_u32_le, read_array32,
    read_u32_le, u32_at, u32_bytes,
};
use crate::error::NsoError;
use crate::flags::{
    flags_of_word, lemma_flags_of_their_word, lemma_word_of_its_flags, word_of_flags, Flags,
    FlagsView,
};

verus! {

/// The number of bytes a header takes.
pub const HEADER_SIZE: usize = 256;

/// The bytes `NSO0` that open every container, read as a little-endian integer.
pub const MAGIC: u32 = 0x304F_534E;

/// Where a segment lies in the file and in memory.
#[derive(Clone, Copy, Debug, PartialEq, Eq)]
pub struct SegmentHeader {
    /// Offset of the stored bytes from the start of the container.
    pub file_offset: u32,
    /// Offset at which the segment is loaded.
    pub memory_offset: u32,
    /// Size of the segment in memory, which is its size once decompressed.
    pub size: u32,
}

/// Where an auxiliary section lies.
#[derive(Clone, Copy, Debug, PartialEq, Eq)]
pub struct SectionHeader {
    pub file_offset: u32,
    pub size: u32,
}

/// A decoded header.
#[derive(Clone, Copy, Debug, PartialEq, Eq)]
pub struct NsoFile {
    pub version: u32,
    pub reserved: u32,
    pub flags: Flags,
    pub text_segment_header: SegmentHeader,
    pub module_name_offset: u32,
    pub rodata_segment_header: SegmentHeader,
    pub module_name_size: u32,
    pub data_segment_header: SegmentHeader,
    pub bss_size: u32,
    pub module_id: [u8; 32],
    /// Number of bytes the text segment takes in the file.
    pub text_file_size: u32,
    /// Number of bytes the read-only data segment takes in the file.
    pub rodata_file_size: u32,
    /// Number of bytes the data segment takes in the file.
    pub data_file_size: u32,
    pub reserved2: [u32; 7],
    pub embedded_section_header: SectionHeader,
    pub dyn_str_section_header: SectionHeader,
    pub dyn_sym_section_header: SectionHeader,
    pub text_hash: [u8; 32],
    pub rodata_hash: [u8; 32],
    pub data_hash: [u8; 32],
}

/// A header as a mathematical value: the arrays are sequences, the flags are
/// their fields.
pub struct HeaderView {
    pub version: u32,
    pub reserved: u32,
    pub flags: FlagsView,
    pub text_segment_header: SegmentHeader,
    pub module_name_offset: u32,
    pub rodata_segment_header: SegmentHeader,
    pub module_name_size: u32,
    pub data_segment_header: SegmentHeader,
    pub bss_size: u32,
    pub module_id: Seq<u8>,
    pub text_file_size: u32,
    pub rodata_file_size: u32,
    pub data_file_size: u32,
    pub reserved2: Seq<u32>,
    pub embedded_section_header: SectionHeader,
    pub dyn_str_section_header: SectionHeader,
    pub dyn_sym_section_header: SectionHeader,
    pub text_hash: Seq<u8>,
    pub rodata_hash: Seq<u8>,
    pub data_hash: Seq<u8>,
}

impl HeaderView {
    /// The sequences have the lengths of the arrays they stand for, and the
    /// reserved flag bits fit.
    pub open spec fn wf(self) -> bool {
        &&& self.flags.wf()
        &&& self.module_id.len() == 32
        &&& self.reserved2.len() == 7
        &&& self.text_hash.len() == 32
        &&& self.rodata_hash.len() == 32
        &&& self.data_hash.len() == 32
    }
}

impl View for NsoFile {
    type V = HeaderView;

    open spec fn view(&self) -> HeaderView {
        HeaderView {
            version: self.version,
            reserved: self.reserved,
            flags: self.flags@,
            text_segment_header: self.text_segment_header,
            module_name_offset: self.module_name_offset,
            rodata_segment_header: self.rodata_segment_header,
            module_name_size: self.module_name_size,
            data_segment_header: self.data_segment_header,
            bss_size: self.bss_size,
            module_id: self.module_id@,
            text_file_size: self.text_file_size,
            rodata_file_size: self.rodata_file_size,
            data_file_size: self.data_file_size,
            reserved2: self.reserved2@,
            embedded_section_header: self.embedded_section_header,
            dyn_str_section_header: self.dyn_str_section_header,
            dyn_sym_section_header: self.dyn_sym_section_header,
            text_hash: self.text_hash@,
            rodata_hash: self.rodata_hash@,
            data_hash: self.data_hash@,
        }
    }
}

/// The segment header stored at `at`.
pub open spec fn segment_at(s: Seq<u8>, at: int) -> SegmentHeader {
    SegmentHeader {
        file_offset: u32_at(s, at),
        memory_offset: u32_at(s, at + 4),
        size: u32_at(s, at + 8),
    }
}

/// The section header stored at `at`.
pub open spec fn section_at(s: Seq<u8>, at: int) -> SectionHeader {
    SectionHeader { file_offset: u32_at(s, at), size: u32_at(s, at + 4) }
}

/// The header that the first 256 bytes of `s` hold, field by field in the
/// order of the layout. The magic is not looked at here.
pub open spec fn decode_header(s: Seq<u8>) -> HeaderView
    recommends
        s.len() >= HEADER_SIZE,
{
    HeaderView {
        version: u32_at(s, 4),
        reserved: u32_at(s, 8),
        flags: flags_of_word(u32_at(s, 12)),
        text_segment_header: segment_at(s, 16),
        module_name_offset: u32_at(s, 28),
        rodata_segment_header: segment_at(s, 32),
        module_name_size: u32_at(s, 44),
        data_segment_header: segment_at(s, 48),
        bss_size: u32_at(s, 60),
        module_id: s.subrange(64, 96),
        text_file_size: u32_at(s, 96),
        rodata_file_size: u32_at(s, 100),
        data_file_size: u32_at(s, 104),
        reserved2: Seq::new(7, |i: int| u32_at(s, 108 + 4 * i)),
        embedded_section_header: section_at(s, 136),
        dyn_str_section_header: section_at(s, 144),
        dyn_sym_section_header: section_at(s, 152),
        text_hash: s.subrange(160, 192),
        rodata_hash: s.subrange(192, 224),
        data_hash: s.subrange(224, 256),
    }
}

/// What parsing a source gives. The magic is read and compared before
/// anything else; the other fields are read only from a source that holds
/// them all, and no offset or size is judged.
pub open spec fn parse_outcome(s: Seq<u8>) -> Result<HeaderView, NsoError> {
    if s.len() < 4 {
        Err(NsoError::TruncatedHeader { available: s.len() as usize })
    } else if u32_at(s, 0) != MAGIC {
        Err(NsoError::InvalidMagic { found: u32_at(s, 0) })
    } else if s.len() < HEADER_SIZE {
        Err(NsoError::TruncatedHeader { available: s.len() as usize })
    } else {
        Ok(decode_header(s))
    }
}

/// A source whose first four bytes are not the magic fails with
/// `InvalidMagic`, and nothing after those four bytes has a say in it: two
/// such sources that agree on them fail alike, however long or short they are.
pub proof fn lemma_wrong_magic_stops_parsing(s: Seq<u8>, t: Seq<u8>)
    requires
        s.len() >= 4,
        u32_at(s, 0) != MAGIC,
        t.len() >= 4,
        t.subrange(0, 4) == s.subrange(0, 4),
    ensures
        parse_outcome(s) == Err::<HeaderView, NsoError>(
            NsoError::InvalidMagic { found: u32_at(s, 0) },
        ),
        parse_outcome(t) == parse_outcome(s),
{
    assert(forall|i: int| 0 <= i < 4 ==> t[i] == t.subrange(0, 4)[i]);
    assert(forall|i: int| 0 <= i < 4 ==> s[i] == s.subrange(0, 4)[i]);
}

/// A source shorter than the header fails with `TruncatedHeader`, unless it
/// holds four bytes that are not the magic: that one is refused for its
/// magic before its length is looked at.
pub proof fn lemma_short_source_is_truncated(s: Seq<u8>)
    requires
        s.len() < HEADER_SIZE,
        s.len() < 4 || u32_at(s, 0) == MAGIC,
    ensures
        parse_outcome(s) == Err::<HeaderView, NsoError>(
            NsoError::TruncatedHeader { available: s.len() as usize },
        ),
{
}

/// The twelve bytes of a segment header.
pub open spec fn segment_bytes(h: SegmentHeader) -> Seq<u8> {
    u32_bytes(h.file_offset) + u32_bytes(h.memory_offset) + u32_bytes(h.size)
}

/// The eight bytes of a section header.
pub open spec fn section_bytes(h: SectionHeader) -> Seq<u8> {
    u32_bytes(h.file_offset) + u32_bytes(h.size)
}

/// The 28 bytes of the seven reserved words.
pub open spec fn reserved_words_bytes(w: Seq<u32>) -> Seq<u8>
    recommends
        w.len() == 7,
{
    u32_bytes(w[0]) + u32_bytes(w[1]) + u32_bytes(w[2]) + u32_bytes(w[3]) + u32_bytes(w[4])
        + u32_bytes(w[5]) + u32_bytes(w[6])
}

/// The 256 bytes that hold a header: the magic, then every field in the
/// order of the layout.
pub open spec fn encode_header(h: HeaderView) -> Seq<u8>
    recommends
        h.wf(),
{
    u32_bytes(MAGIC) + u32_bytes(h.version) + u32_bytes(h.reserved) + u32_bytes(
        word_of_flags(h.flags) as u32,
    ) + segment_bytes(h.text_segment_header) + u32_bytes(h.module_name_offset) + segment_bytes(
        h.rodata_segment_header,
    ) + u32_bytes(h.module_name_size) + segment_bytes(h.data_segment_header) + u32_bytes(
        h.bss_size,
    ) + h.module_id + u32_bytes(h.text_file_size) + u32_bytes(h.rodata_file_size) + u32_bytes(
        h.data_file_size,
    ) + reserved_words_bytes(h.reserved2) + section_bytes(h.embedded_section_header)
        + section_bytes(h.dyn_str_section_header) + section_bytes(h.dyn_sym_section_header)
        + h.text_hash + h.rodata_hash + h.data_hash
}

/// Writing out the segment header read at `at` gives the twelve bytes there.
proof fn lemma_segment_write_back(s: Seq<u8>, at: int)
    requires
        0 <= at,
        at + 12 <= s.len(),
    ensures
        segment_bytes(segment_at(s, at)) == s.subrange(at, at + 12),
{
    lemma_u32_at_write_back(s, at);
    lemma_u32_at_write_back(s, at + 4);
    lemma_u32_at_write_back(s, at + 8);
    assert(s.subrange(at, at + 4) + s.subrange(at + 4, at + 8) + s.subrange(at + 8, at + 12)
        =~= s.subrange(at, at + 12));
}

/// Writing out the section header read at `at` gives the eight bytes there.
proof fn lemma_section_write_back(s: Seq<u8>, at: int)
    requires
        0 <= at,
        at + 8 <= s.len(),
    ensures
        section_bytes(section_at(s, at)) == s.subrange(at, at + 8),
{
    lemma_u32_at_write_back(s, at);
    lemma_u32_at_write_back(s, at + 4);
    assert(s.subrange(at, at + 4) + s.subrange(at + 4, at + 8) =~= s.subrange(at, at + 8));
}

/// Writing out the reserved words of a header gives the 28 bytes they were
/// read from.
proof fn lemma_reserved_words_write_back(s: Seq<u8>)
    requires
        s.len() >= HEADER_SIZE,
    ensures
        reserved_words_bytes(decode_header(s).reserved2) == s.subrange(108, 136),
{
    lemma_u32_at_write_back(s, 108);
    lemma_u32_at_write_back(s, 112);
    lemma_u32_at_write_back(s, 116);
    lemma_u32_at_write_back(s, 120);
    lemma_u32_at_write_back(s, 124);
    lemma_u32_at_write_back(s, 128);
    lemma_u32_at_write_back(s, 132);
    let w = decode_header(s).reserved2;
    assert(w[0] == u32_at(s, 108));
    assert(w[1] == u32_at(s, 112));
    assert(w[2] == u32_at(s, 116));
    assert(w[3] == u32_at(s, 120));
    assert(w[4] == u32_at(s, 124));
    assert(w[5] == u32_at(s, 128));
    assert(w[6] == u32_at(s, 132));
    assert(s.subrange(108, 112) + s.subrange(112, 116) + s.subrange(116, 120) + s.subrange(
        120,
        124,
    ) + s.subrange(124, 128) + s.subrange(128, 132) + s.subrange(132, 136) =~= s.subrange(
        108,
        136,
    ));
}

/// Two neighbouring stretches of a sequence, joined, are the stretch that
/// covers both.
proof fn lemma_join(s: Seq<u8>, a: int, b: int, c: int)
    requires
        0 <= a <= b <= c <= s.len(),
    ensures
        s.subrange(a, b) + s.subrange(b, c) == s.subrange(a, c),
{
    assert(s.subrange(a, b) + s.subrange(b, c) =~= s.subrange(a, c));
}

/// A well-formed header takes exactly 256 bytes.
pub proof fn lemma_encode_len(h: HeaderView)
    requires
        h.wf(),
    ensures
        encode_header(h).len() == HEADER_SIZE,
{
    assert forall|v: u32| #[trigger] u32_bytes(v).len() == 4 by {
        lemma_u32_bytes_read_back(v);
    }
    let pre1 = u32_bytes(MAGIC) + u32_bytes(h.version) + u32_bytes(h.reserved) + u32_bytes(
        word_of_flags(h.flags) as u32,
    );
    assert(pre1.len() == 16);
    let pre2 = pre1 + segment_bytes(h.text_segment_header) + u32_bytes(h.module_name_offset);
    assert(pre2.len() == 32);
    let pre3 = pre2 + segment_bytes(h.rodata_segment_header) + u32_bytes(h.module_name_size);
    assert(pre3.len() == 48);
    let pre4 = pre3 + segment_bytes(h.data_segment_header) + u32_bytes(h.bss_size);
    assert(pre4.len() == 64);
    let pre5 = pre4 + h.module_id + u32_bytes(h.text_file_size) + u32_bytes(h.rodata_file_size)
        + u32_bytes(h.data_file_size);
    assert(pre5.len() == 108);
    let pre6 = pre5 + reserved_words_bytes(h.reserved2);
    assert(pre6.len() == 136);
    let pre7 = pre6 + section_bytes(h.embedded_section_header) + section_bytes(
        h.dyn_str_section_header,
    ) + section_bytes(h.dyn_sym_section_header);
    assert(pre7.len() == 160);
    assert(encode_header(h) == pre7 + h.text_hash + h.rodata_hash + h.data_hash);
}

/// Parsing round-trips: a source of at least 256 bytes that starts with the
/// magic parses, and encoding the header it holds gives its first 256 bytes
/// back, byte for byte.
pub proof fn lemma_parse_then_encode(s: Seq<u8>)
    requires
        s.len() >= HEADER_SIZE,
        u32_at(s, 0) == MAGIC,
    ensures
        parse_outcome(s) == Ok::<HeaderView, NsoError>(decode_header(s)),
        decode_header(s).wf(),
        encode_header(decode_header(s)) == s.subrange(0, HEADER_SIZE as int),
{
    let h = decode_header(s);
    lemma_word_of_its_flags(u32_at(s, 12));
    lemma_u32_at_write_back(s, 0);
    lemma_u32_at_write_back(s, 4);
    lemma_u32_at_write_back(s, 8);
    lemma_u32_at_write_back(s, 12);
    lemma_segment_write_back(s, 16);
    lemma_u32_at_write_back(s, 28);
    lemma_segment_write_back(s, 32);
    lemma_u32_at_write_back(s, 44);
    lemma_segment_write_back(s, 48);
    lemma_u32_at_write_back(s, 60);
    lemma_u32_at_write_back(s, 96);
    lemma_u32_at_write_back(s, 100);
    lemma_u32_at_write_back(s, 104);
    lemma_reserved_words_write_back(s);
    lemma_section_write_back(s, 136);
    lemma_section_write_back(s, 144);
    lemma_section_write_back(s, 152);
    lemma_join(s, 0, 4, 8);
    lemma_join(s, 0, 8, 12);
    lemma_join(s, 0, 12, 16);
    lemma_join(s, 0, 16, 28);
    lemma_join(s, 0, 28, 32);
    lemma_join(s, 0, 32, 44);
    lemma_join(s, 0, 44, 48);
    lemma_join(s, 0, 48, 60);
    lemma_join(s, 0, 60, 64);
    lemma_join(s, 0, 64, 96);
    lemma_join(s, 0, 96, 100);
    lemma_join(s, 0, 100, 104);
    lemma_join(s, 0, 104, 108);
    lemma_join(s, 0, 108, 136);
    lemma_join(s, 0, 136, 144);
    lemma_join(s, 0, 144, 152);
    lemma_join(s, 0, 152, 160);
    lemma_join(s, 0, 160, 192);
    lemma_join(s, 0, 192, 224);
    lemma_join(s, 0, 224, 256);
}

/// `a` is how `e` begins.
#[verifier::opaque]
spec fn starts(e: Seq<u8>, a: Seq<u8>) -> bool {
    a.len() <= e.len() && e.subrange(0, a.len() as int) == a
}

/// Every sequence begins with itself.
proof fn lemma_starts_itself(e: Seq<u8>)
    ensures
        starts(e, e),
{
    reveal(starts);
    assert(e.subrange(0, e.len() as int) =~= e);
}

/// What begins with `a + b` begins with `a`.
proof fn lemma_starts_shorter(e: Seq<u8>, a: Seq<u8>, b: Seq<u8>)
    requires
        starts(e, a + b),
    ensures
        starts(e, a),
{
    reveal(starts);
    assert(e.subrange(0, a.len() as int) =~= e.subrange(0, (a + b).len() as int).subrange(
        0,
        a.len() as int,
    ));
    assert((a + b).subrange(0, a.len() as int) =~= a);
}

/// An integer appended to `a` is read at the end of `a` in whatever begins
/// with the two.
proof fn lemma_starts_u32(e: Seq<u8>, a: Seq<u8>, v: u32)
    requires
        starts(e, a + u32_bytes(v)),
    ensures
        (a + u32_bytes(v)).len() == a.len() + 4,
        u32_at(e, a.len() as int) == v,
{
    reveal(starts);
    lemma_u32_bytes_read_back(v);
    let b = u32_bytes(v);
    let n = a.len() as int;
    let ab = a + b;
    let head = e.subrange(0, ab.len() as int);
    assert(e[n] == head[n] && ab[n] == b[0]);
    assert(e[n + 1] == head[n + 1] && ab[n + 1] == b[1]);
    assert(e[n + 2] == head[n + 2] && ab[n + 2] == b[2]);
    assert(e[n + 3] == head[n + 3] && ab[n + 3] == b[3]);
}

/// Bytes appended to `a` are found at the end of `a` in whatever begins with
/// the two.
proof fn lemma_starts_bytes(e: Seq<u8>, a: Seq<u8>, b: Seq<u8>)
    requires
        starts(e, a + b),
    ensures
        (a + b).len() == a.len() + b.len(),
        e.subrange(a.len() as int, (a.len() + b.len()) as int) == b,
{
    reveal(starts);
    let head = e.subrange(0, (a + b).len() as int);
    assert(e.subrange(a.len() as int, (a.len() + b.len()) as int) =~= head.subrange(
        a.len() as int,
        (a.len() + b.len()) as int,
    ));
    assert((a + b).subrange(a.len() as int, (a.len() + b.len()) as int) =~= b);
}

/// A segment header appended to `a` is read at the end of `a` in whatever
/// begins with the two.
proof fn lemma_starts_segment(e: Seq<u8>, a: Seq<u8>, h: SegmentHeader)
    requires
        starts(e, a + segment_bytes(h)),
    ensures
        (a + segment_bytes(h)).len() == a.len() + 12,
        segment_at(e, a.len() as int) == h,
{
    let pre1 = a + u32_bytes(h.file_offset);
    let pre2 = pre1 + u32_bytes(h.memory_offset);
    let pre3 = pre2 + u32_bytes(h.size);
    assert(a + segment_bytes(h) =~= pre3);
    lemma_starts_shorter(e, pre2, u32_bytes(h.size));
    lemma_starts_shorter(e, pre1, u32_bytes(h.memory_offset));
    lemma_starts_u32(e, a, h.file_offset);
    lemma_starts_u32(e, pre1, h.memory_offset);
    lemma_starts_u32(e, pre2, h.size);
}

/// A section header appended to `a` is read at the end of `a` in whatever
/// begins with the two.
proof fn lemma_starts_section(e: Seq<u8>, a: Seq<u8>, h: SectionHeader)
    requires
        starts(e, a + section_bytes(h)),
    ensures
        (a + section_bytes(h)).len() == a.len() + 8,
        section_at(e, a.len() as int) == h,
{
    let pre1 = a + u32_bytes(h.file_offset);
    let pre2 = pre1 + u32_bytes(h.size);
    assert(a + section_bytes(h) =~= pre2);
    lemma_starts_shorter(e, pre1, u32_bytes(h.size));
    lemma_starts_u32(e, a, h.file_offset);
    lemma_starts_u32(e, pre1, h.size);
}

/// The seven reserved words appended to `a` are read at the end of `a` in
/// whatever begins with the two.
proof fn lemma_starts_reserved_words(e: Seq<u8>, a: Seq<u8>, w: Seq<u32>)
    requires
        w.len() == 7,
        starts(e, a + reserved_words_bytes(w)),
    ensures
        (a + reserved_words_bytes(w)).len() == a.len() + 28,
        Seq::new(7, |i: int| u32_at(e, a.len() + 4 * i)) == w,
{
    let pre1 = a + u32_bytes(w[0]);
    let pre2 = pre1 + u32_bytes(w[1]);
    let pre3 = pre2 + u32_bytes(w[2]);
    let pre4 = pre3 + u32_bytes(w[3]);
    let pre5 = pre4 + u32_bytes(w[4]);
    let pre6 = pre5 + u32_bytes(w[5]);
    let pre7 = pre6 + u32_bytes(w[6]);
    assert(a + reserved_words_bytes(w) =~= pre7);
    lemma_starts_shorter(e, pre6, u32_bytes(w[6]));
    lemma_starts_shorter(e, pre5, u32_bytes(w[5]));
    lemma_starts_shorter(e, pre4, u32_bytes(w[4]));
    lemma_starts_shorter(e, pre3, u32_bytes(w[3]));
    lemma_starts_shorter(e, pre2, u32_bytes(w[2]));
    lemma_starts_shorter(e, pre1, u32_bytes(w[1]));
    lemma_starts_u32(e, a, w[0]);
    lemma_starts_u32(e, pre1, w[1]);
    lemma_starts_u32(e, pre2, w[2]);
    lemma_starts_u32(e, pre3, w[3]);
    lemma_starts_u32(e, pre4, w[4]);
    lemma_starts_u32(e, pre5, w[5]);
    lemma_starts_u32(e, pre6, w[6]);
    assert(Seq::new(7, |i: int| u32_at(e, a.len() + 4 * i)) =~= w);
}

/// Encoding round-trips too: the bytes of a well-formed header parse, and
/// they parse to that header.
pub proof fn lemma_encode_then_parse(h: HeaderView)
    requires
        h.wf(),
    ensures
        parse_outcome(encode_header(h)) == Ok::<HeaderView, NsoError>(h),
{
    lemma_flags_of_their_word(h.flags);
    lemma_encode_len(h);
    let flags_word = word_of_flags(h.flags) as u32;
    let e = encode_header(h);
    let pre0 = Seq::<u8>::empty();
    let pre1 = u32_bytes(MAGIC);
    let pre2 = pre1 + u32_bytes(h.version);
    let pre3 = pre2 + u32_bytes(h.reserved);
    let pre4 = pre3 + u32_bytes(flags_word);
    let pre5 = pre4 + segment_bytes(h.text_segment_header);
    let pre6 = pre5 + u32_bytes(h.module_name_offset);
    let pre7 = pre6 + segment_bytes(h.rodata_segment_header);
    let pre8 = pre7 + u32_bytes(h.module_name_size);
    let pre9 = pre8 + segment_bytes(h.data_segment_header);
    let pre10 = pre9 + u32_bytes(h.bss_size);
    let pre11 = pre10 + h.module_id;
    let pre12 = pre11 + u32_bytes(h.text_file_size);
    let pre13 = pre12 + u32_bytes(h.rodata_file_size);
    let pre14 = pre13 + u32_bytes(h.data_file_size);
    let pre15 = pre14 + reserved_words_bytes(h.reserved2);
    let pre16 = pre15 + section_bytes(h.embedded_section_header);
    let pre17 = pre16 + section_bytes(h.dyn_str_section_header);
    let pre18 = pre17 + section_bytes(h.dyn_sym_section_header);
    let pre19 = pre18 + h.text_hash;
    let pre20 = pre19 + h.rodata_hash;
    assert(e == pre20 + h.data_hash);
    assert(pre1 =~= pre0 + u32_bytes(MAGIC));

    lemma_starts_itself(e);
    lemma_starts_shorter(e, pre20, h.data_hash);
    lemma_starts_shorter(e, pre19, h.rodata_hash);
    lemma_starts_shorter(e, pre18, h.text_hash);
    lemma_starts_shorter(e, pre17, section_bytes(h.dyn_sym_section_header));
    lemma_starts_shorter(e, pre16, section_bytes(h.dyn_str_section_header));
    lemma_starts_shorter(e, pre15, section_bytes(h.embedded_section_header));
    lemma_starts_shorter(e, pre14, reserved_words_bytes(h.reserved2));
    lemma_starts_shorter(e, pre13, u32_bytes(h.data_file_size));
    lemma_starts_shorter(e, pre12, u32_bytes(h.rodata_file_size));
    lemma_starts_shorter(e, pre11, u32_bytes(h.text_file_size));
    lemma_starts_shorter(e, pre10, h.module_id);
    lemma_starts_shorter(e, pre9, u32_bytes(h.bss_size));
    lemma_starts_shorter(e, pre8, segment_bytes(h.data_segment_header));
    lemma_starts_shorter(e, pre7, u32_bytes(h.module_name_size));
    lemma_starts_shorter(e, pre6, segment_bytes(h.rodata_segment_header));
    lemma_starts_shorter(e, pre5, u32_bytes(h.module_name_offset));
    lemma_starts_shorter(e, pre4, segment_bytes(h.text_segment_header));
    lemma_starts_shorter(e, pre3, u32_bytes(flags_word));
    lemma_starts_shorter(e, pre2, u32_bytes(h.reserved));
    lemma_starts_shorter(e, pre1, u32_bytes(h.version));

    lemma_starts_u32(e, pre0, MAGIC);
    lemma_starts_u32(e, pre1, h.version);
    lemma_starts_u32(e, pre2, h.reserved);
    lemma_starts_u32(e, pre3, flags_word);
    lemma_starts_segment(e, pre4, h.text_segment_header);
    lemma_starts_u32(e, pre5, h.module_name_offset);
    lemma_starts_segment(e, pre6, h.rodata_segment_header);
    lemma_starts_u32(e, pre7, h.module_name_size);
    lemma_starts_segment(e, pre8, h.data_segment_header);
    lemma_starts_u32(e, pre9, h.bss_size);
    lemma_starts_bytes(e, pre10, h.module_id);
    lemma_starts_u32(e, pre11, h.text_file_size);
    lemma_starts_u32(e, pre12, h.rodata_file_size);
    lemma_starts_u32(e, pre13, h.data_file_size);
    lemma_starts_reserved_words(e, pre14, h.reserved2);
    lemma_starts_section(e, pre15, h.embedded_section_header);
    lemma_starts_section(e, pre16, h.dyn_str_section_header);
    lemma_starts_section(e, pre17, h.dyn_sym_section_header);
    lemma_starts_bytes(e, pre18, h.text_hash);
    lemma_starts_bytes(e, pre19, h.rodata_hash);
    lemma_starts_bytes(e, pre20, h.data_hash);
    assert(pre14.len() == 108);
    assert(decode_header(e).reserved2 == h.reserved2);
}

/// Reads the segment header stored at `at`.
fn read_segment_header(source: &[u8], at: usize) -> (r: SegmentHeader)
    requires
        at + 12 <= source@.len(),
    ensures
        r == segment_at(source@, at as int),
{
    assert(source@.len() == source.len());
    SegmentHeader {
        file_offset: read_u32_le(source, at),
        memory_offset: read_u32_le(source, at + 4),
        size: read_u32_le(source, at + 8),
    }
}

/// Reads the section header stored at `at`.
fn read_section_header(source: &[u8], at: usize) -> (r: SectionHeader)
    requires
        at + 8 <= source@.len(),
    ensures
        r == section_at(source@, at as int),
{
    assert(source@.len() == source.len());
    SectionHeader { file_offset: read_u32_le(source, at), size: read_u32_le(source, at + 4) }
}

impl NsoFile {
    /// Decodes the header at the start of `source`.
    ///
    /// Fails with `InvalidMagic` when the first four bytes are not the magic,
    /// whatever follows them, and with `TruncatedHeader` when the source ends
    /// before the magic or, the magic being right, before byte 256. A header
    /// that was parsed encodes to the 256 bytes it was parsed from.
    pub fn parse(source: &[u8]) -> (r: Result<NsoFile, NsoError>)
        ensures
            match r {
                Ok(header) => parse_outcome(source@) == Ok::<HeaderView, NsoError>(header@),
                Err(e) => parse_outcome(source@) == Err::<HeaderView, NsoError>(e),
            },
            r matches Ok(header) ==> encode_header(header@) == source@.subrange(
                0,
                HEADER_SIZE as int,
            ),
    {
        let n = source.len();
        if n < 4 {
            return Err(NsoError::TruncatedHeader { available: n });
        }
        let magic = read_u32_le(source, 0);
        if magic != MAGIC {
            return Err(NsoError::InvalidMagic { found: magic });
        }
        if n < HEADER_SIZE {
            return Err(NsoError::TruncatedHeader { available: n });
        }
        let header = NsoFile {
            version: read_u32_le(source, 4),
            reserved: read_u32_le(source, 8),
            flags: Flags::from_bytes([source[12], source[13], source[14], source[15]]),
            text_segment_header: read_segment_header(source, 16),
            module_name_offset: read_u32_le(source, 28),
            rodata_segment_header: read_segment_header(source, 32),
            module_name_size: read_u32_le(source, 44),
            data_segment_header: read_segment_header(source, 48),
            bss_size: read_u32_le(source, 60),
            module_id: read_array32(source, 64),
            text_file_size: read_u32_le(source, 96),
            rodata_file_size: read_u32_le(source, 100),
            data_file_size: read_u32_le(source, 104),
            reserved2: [
                read_u32_le(source, 108),
                read_u32_le(source, 112),
                read_u32_le(source, 116),
                read_u32_le(source, 120),
                read_u32_le(source, 124),
                read_u32_le(source, 128),
                read_u32_le(source, 132),
            ],
            embedded_section_header: read_section_header(source, 136),
            dyn_str_section_header: read_section_header(source, 144),
            dyn_sym_section_header: read_section_header(source, 152),
            text_hash: read_array32(source, 160),
            rodata_hash: read_array32(source, 192),
            data_hash: read_array32(source, 224),
        };
        proof {
            let want = decode_header(source@);
            assert(header@.reserved2 =~= want.reserved2);
            assert(header@.flags == want.flags);
            assert(header@ == want);
            lemma_parse_then_encode(source@);
        }
        Ok(header)
    }

    /// The view of a header is well formed.
    pub proof fn lemma_view_wf(self)
        ensures
            self@.wf(),
    {
        self.flags.lemma_view_wf();
    }

    /// The 256 bytes that hold this header. Parsed, they give this header
    /// again.
    pub fn to_bytes(&self) -> (r: Vec<u8>)
        ensures
            r@ == encode_header(self@),
            r@.len() == HEADER_SIZE,
            parse_outcome(r@) == Ok::<HeaderView, NsoError>(self@),
    {
        proof {
            self.lemma_view_wf();
            lemma_encode_len(self@);
            lemma_encode_then_parse(self@);
        }
        let mut out: Vec<u8> = Vec::with_capacity(HEADER_SIZE);
        push_u32_le(&mut out, MAGIC);
        assert(out@ =~= u32_bytes(MAGIC));
        push_u32_le(&mut out, self.version);
        push_u32_le(&mut out, self.reserved);
        let flags = self.flags.into_bytes();
        push_bytes(&mut out, &flags);
        push_segment_header(&mut out, &self.text_segment_header);
        push_u32_le(&mut out, self.module_name_offset);
        push_segment_header(&mut out, &self.rodata_segment_header);
        push_u32_le(&mut out, self.module_name_size);
        push_segment_header(&mut out, &self.data_segment_header);
        push_u32_le(&mut out, self.bss_size);
        push_bytes(&mut out, &self.module_id);
        push_u32_le(&mut out, self.text_file_size);
        push_u32_le(&mut out, self.rodata_file_size);
        push_u32_le(&mut out, self.data_file_size);
        push_reserved_words(&mut out, &self.reserved2);
        push_section_header(&mut out, &self.embedded_section_header);
        push_section_header(&mut out, &self.dyn_str_section_header);
        push_section_header(&mut out, &self.dyn_sym_section_header);
        push_bytes(&mut out, &self.text_hash);
        push_bytes(&mut out, &self.rodata_hash);
        push_bytes(&mut out, &self.data_hash);
        out
    }
}

/// Appends the twelve bytes of a segment header.
fn push_segment_header(out: &mut Vec<u8>, h: &SegmentHeader)
    ensures
        final(out)@ == old(out)@ + segment_bytes(*h),
{
    push_u32_le(out, h.file_offset);
    push_u32_le(out, h.memory_offset);
    push_u32_le(out, h.size);
    assert(out@ =~= old(out)@ + segment_bytes(*h));
}

/// Appends the eight bytes of a section header.
fn push_section_header(out: &mut Vec<u8>, h: &SectionHeader)
    ensures
        final(out)@ == old(out)@ + section_bytes(*h),
{
    push_u32_le(out, h.file_offset);
    push_u32_le(out, h.size);
    assert(out@ =~= old(out)@ + section_bytes(*h));
}

/// Appends the 28 bytes of the seven reserved words.
fn push_reserved_words(out: &mut Vec<u8>, w: &[u32; 7])
    ensures
        final(out)@ == old(out)@ + reserved_words_bytes(w@),
{
    push_u32_le(out, w[0]);
    push_u32_le(out, w[1]);
    push_u32_le(out, w[2]);
    push_u32_le(out, w[3]);
    push_u32_le(out, w[4]);
    push_u32_le(out, w[5]);
    push_u32_le(out, w[6]);
    assert(out@ =~= old(out)@ + reserved_words_bytes(w@));
}

} // verus!
