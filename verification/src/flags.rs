//! The packed flags word of the header: one bit per segment for "stored as an
//! LZ4 block", one bit per segment for "hash present", and 26 reserved bits.

use vstd::prelude::*;
use vstd::arithmetic::div_mod::lemma_fundamental_div_mod_converse;
use crate::bytes::{u32_at, u32_bytes};

verus! {

/// What a flags word says, field by field.
pub struct FlagsView {
    pub text_compressed: bool,
    pub rodata_compressed: bool,
    pub data_compressed: bool,
    pub text_hash: bool,
    pub rodata_hash: bool,
    pub data_hash: bool,
    /// Bits 6 to 31 of the word, as a number.
    pub reserved: u32,
}

/// The largest value the 26 reserved bits can hold.
pub const RESERVED_MAX: u32 = 0x3FF_FFFF;

impl FlagsView {
    /// The reserved value fits in its 26 bits.
    pub open spec fn wf(self) -> bool {
        self.reserved <= RESERVED_MAX
    }
}

/// 1 for a set bit, 0 for a clear one.
pub open spec fn bit_value(b: bool) -> int {
    if b {
        1
    } else {
        0
    }
}

/// Reads the fields out of a word: bit 0 is the least significant.
pub open spec fn flags_of_word(word: u32) -> FlagsView {
    FlagsView {
        text_compressed: word as int % 2 == 1,
        rodata_compressed: word as int / 2 % 2 == 1,
        data_compressed: word as int / 4 % 2 == 1,
        text_hash: word as int / 8 % 2 == 1,
        rodata_hash: word as int / 16 % 2 == 1,
        data_hash: word as int / 32 % 2 == 1,
        reserved: (word as int / 64) as u32,
    }
}

/// The word that holds the given fields.
pub open spec fn word_of_flags(v: FlagsView) -> int {
    bit_value(v.text_compressed) + 2 * bit_value(v.rodata_compressed) + 4 * bit_value(
        v.data_compressed,
    ) + 8 * bit_value(v.text_hash) + 16 * bit_value(v.rodata_hash) + 32 * bit_value(v.data_hash)
        + 64 * (v.reserved as int)
}

/// Every word is the word of its own fields, and its reserved value fits.
pub proof fn lemma_word_of_its_flags(word: u32)
    ensures
        flags_of_word(word).wf(),
        word_of_flags(flags_of_word(word)) == word,
{
    let w = word as int;
    assert(w == 2 * (w / 2) + w % 2);
    assert(w / 2 == 2 * (w / 4) + w / 2 % 2);
    assert(w / 4 == 2 * (w / 8) + w / 4 % 2);
    assert(w / 8 == 2 * (w / 16) + w / 8 % 2);
    assert(w / 16 == 2 * (w / 32) + w / 16 % 2);
    assert(w / 32 == 2 * (w / 64) + w / 32 % 2);
}

/// Fields whose reserved value fits are read back from their word unchanged.
pub proof fn lemma_flags_of_their_word(v: FlagsView)
    requires
        v.wf(),
    ensures
        0 <= word_of_flags(v) <= u32::MAX,
        flags_of_word(word_of_flags(v) as u32) == v,
{
    let w = word_of_flags(v);
    let b0 = bit_value(v.text_compressed);
    let b1 = bit_value(v.rodata_compressed);
    let b2 = bit_value(v.data_compressed);
    let b3 = bit_value(v.text_hash);
    let b4 = bit_value(v.rodata_hash);
    let b5 = bit_value(v.data_hash);
    let r6 = v.reserved as int;
    let r5 = b5 + 2 * r6;
    let r4 = b4 + 2 * r5;
    let r3 = b3 + 2 * r4;
    let r2 = b2 + 2 * r3;
    let r1 = b1 + 2 * r2;
    lemma_fundamental_div_mod_converse(w, 2, r1, b0);
    lemma_fundamental_div_mod_converse(w, 4, r2, b0 + 2 * b1);
    lemma_fundamental_div_mod_converse(w, 8, r3, b0 + 2 * b1 + 4 * b2);
    lemma_fundamental_div_mod_converse(w, 16, r4, b0 + 2 * b1 + 4 * b2 + 8 * b3);
    lemma_fundamental_div_mod_converse(w, 32, r5, b0 + 2 * b1 + 4 * b2 + 8 * b3 + 16 * b4);
    lemma_fundamental_div_mod_converse(
        w,
        64,
        r6,
        b0 + 2 * b1 + 4 * b2 + 8 * b3 + 16 * b4 + 32 * b5,
    );
    lemma_fundamental_div_mod_converse(r1, 2, r2, b1);
    lemma_fundamental_div_mod_converse(r2, 2, r3, b2);
    lemma_fundamental_div_mod_converse(r3, 2, r4, b3);
    lemma_fundamental_div_mod_converse(r4, 2, r5, b4);
    lemma_fundamental_div_mod_converse(r5, 2, r6, b5);
}

/// The flags word of a header.
#[derive(Clone, Copy, Debug, PartialEq, Eq)]
pub struct Flags {
    bits: u32,
}

impl View for Flags {
    type V = FlagsView;

    closed spec fn view(&self) -> FlagsView {
        flags_of_word(self.bits)
    }
}

impl Flags {
    /// The reserved value of any flags word fits, and the word is found
    /// again from the fields.
    pub proof fn lemma_view_wf(self)
        ensures
            self@.wf(),
            0 <= word_of_flags(self@) <= u32::MAX,
    {
        lemma_word_of_its_flags(self.bits);
    }

    /// Flags with every bit clear.
    pub fn new() -> (r: Flags)
        ensures
            r@ == (FlagsView {
                text_compressed: false,
                rodata_compressed: false,
                data_compressed: false,
                text_hash: false,
                rodata_hash: false,
                data_hash: false,
                reserved: 0,
            }),
    {
        Flags { bits: 0 }
    }

    /// Decodes the four bytes as they stand in the file.
    pub fn from_bytes(bytes: [u8; 4]) -> (r: Flags)
        ensures
            r@ == flags_of_word(u32_at(bytes@, 0)),
    {
        let b0: u32 = bytes[0] as u32;
        let b1: u32 = bytes[1] as u32;
        let b2: u32 = bytes[2] as u32;
        let b3: u32 = bytes[3] as u32;
        assert(b0 | (b1 << 8) | (b2 << 16) | (b3 << 24) == b0 + 0x100 * b1 + 0x1_0000 * b2
            + 0x100_0000 * b3) by (bit_vector)
            requires
                b0 < 0x100,
                b1 < 0x100,
                b2 < 0x100,
                b3 < 0x100,
        ;
        Flags { bits: b0 | (b1 << 8) | (b2 << 16) | (b3 << 24) }
    }

    /// The four bytes as they stand in the file.
    pub fn into_bytes(self) -> (r: [u8; 4])
        ensures
            r@ == u32_bytes(word_of_flags(self@) as u32),
    {
        let v: u32 = self.bits;
        proof {
            lemma_word_of_its_flags(v);
        }
        assert(v & 0xff == v % 0x100 && (v >> 8) & 0xff == v / 0x100 % 0x100 && (v >> 16) & 0xff
            == v / 0x1_0000 % 0x100 && (v >> 24) & 0xff == v / 0x100_0000 % 0x100)
            by (bit_vector);
        let r: [u8; 4] = [
            (v & 0xff) as u8,
            ((v >> 8) & 0xff) as u8,
            ((v >> 16) & 0xff) as u8,
            ((v >> 24) & 0xff) as u8,
        ];
        assert(r@ =~= u32_bytes(v)) by {
            reveal(u32_bytes);
        }
        r
    }

    /// Bit 0: the text segment is stored as an LZ4 block.
    pub fn text_compressed(&self) -> (b: bool)
        ensures
            b == self@.text_compressed,
    {
        let w: u32 = self.bits;
        assert((w & 1 == 1) == (w % 2 == 1)) by (bit_vector);
        w & 1 == 1
    }

    /// Bit 1: the read-only data segment is stored as an LZ4 block.
    pub fn rodata_compressed(&self) -> (b: bool)
        ensures
            b == self@.rodata_compressed,
    {
        let w: u32 = self.bits;
        assert(((w >> 1) & 1 == 1) == (w / 2 % 2 == 1)) by (bit_vector);
        (w >> 1) & 1 == 1
    }

    /// Bit 2: the data segment is stored as an LZ4 block.
    pub fn data_compressed(&self) -> (b: bool)
        ensures
            b == self@.data_compressed,
    {
        let w: u32 = self.bits;
        assert(((w >> 2) & 1 == 1) == (w / 4 % 2 == 1)) by (bit_vector);
        (w >> 2) & 1 == 1
    }

    /// Bit 3: the header holds a hash of the text segment.
    pub fn text_hash(&self) -> (b: bool)
        ensures
            b == self@.text_hash,
    {
        let w: u32 = self.bits;
        assert(((w >> 3) & 1 == 1) == (w / 8 % 2 == 1)) by (bit_vector);
        (w >> 3) & 1 == 1
    }

    /// Bit 4: the header holds a hash of the read-only data segment.
    pub fn rodata_hash(&self) -> (b: bool)
        ensures
            b == self@.rodata_hash,
    {
        let w: u32 = self.bits;
        assert(((w >> 4) & 1 == 1) == (w / 16 % 2 == 1)) by (bit_vector);
        (w >> 4) & 1 == 1
    }

    /// Bit 5: the header holds a hash of the data segment.
    pub fn data_hash(&self) -> (b: bool)
        ensures
            b == self@.data_hash,
    {
        let w: u32 = self.bits;
        assert(((w >> 5) & 1 == 1) == (w / 32 % 2 == 1)) by (bit_vector);
        (w >> 5) & 1 == 1
    }

    /// Bits 6 to 31, kept as they were read.
    pub fn reserved(&self) -> (r: u32)
        ensures
            r == self@.reserved,
            r <= RESERVED_MAX,
    {
        let w: u32 = self.bits;
        assert(w >> 6 == w / 64 && w >> 6 <= 0x3FF_FFFF) by (bit_vector);
        w >> 6
    }

    /// The same flags with bit 0 put to `value`: the text segment is stored as an LZ4 block.
    pub fn with_text_compressed(self, value: bool) -> (r: Flags)
        ensures
            r@ == (FlagsView { text_compressed: value, ..self@ }),
    {
        Flags { bits: put_bit(self.bits, 0, value) }
    }

    /// The same flags with bit 1 put to `value`: the read-only data segment
    /// is stored as an LZ4 block.
    pub fn with_rodata_compressed(self, value: bool) -> (r: Flags)
        ensures
            r@ == (FlagsView { rodata_compressed: value, ..self@ }),
    {
        Flags { bits: put_bit(self.bits, 1, value) }
    }

    /// The same flags with bit 2 put to `value`: the data segment is stored as an LZ4 block.
    pub fn with_data_compressed(self, value: bool) -> (r: Flags)
        ensures
            r@ == (FlagsView { data_compressed: value, ..self@ }),
    {
        Flags { bits: put_bit(self.bits, 2, value) }
    }

    /// The same flags with bit 3 put to `value`: the header holds a hash of the text segment.
    pub fn with_text_hash(self, value: bool) -> (r: Flags)
        ensures
            r@ == (FlagsView { text_hash: value, ..self@ }),
    {
        Flags { bits: put_bit(self.bits, 3, value) }
    }

    /// The same flags with bit 4 put to `value`: the header holds a hash of
    /// the read-only data segment.
    pub fn with_rodata_hash(self, value: bool) -> (r: Flags)
        ensures
            r@ == (FlagsView { rodata_hash: value, ..self@ }),
    {
        Flags { bits: put_bit(self.bits, 4, value) }
    }

    /// The same flags with bit 5 put to `value`: the header holds a hash of the data segment.
    pub fn with_data_hash(self, value: bool) -> (r: Flags)
        ensures
            r@ == (FlagsView { data_hash: value, ..self@ }),
    {
        Flags { bits: put_bit(self.bits, 5, value) }
    }

    /// The same flags with the reserved bits put to `value`.
    pub fn with_reserved(self, value: u32) -> (r: Flags)
        requires
            value <= RESERVED_MAX,
        ensures
            r@ == (FlagsView { reserved: value, ..self@ }),
    {
        let w: u32 = self.bits;
        assert(value << 6 == value * 64) by (bit_vector)
            requires
                value <= 0x3FF_FFFF,
        ;
        let n: u32 = (w & 0x3f) | (value << 6);
        assert(n % 64 == w % 64 && n / 64 == value) by (bit_vector)
            requires
                value <= 0x3FF_FFFF,
                n == (w & 0x3f) | (value << 6),
        ;
        proof {
            lemma_low_bits(w, n);
        }
        Flags { bits: n }
    }
}

/// The flags with the field of bit `k` replaced.
spec fn with_bit(v: FlagsView, k: u32, value: bool) -> FlagsView {
    FlagsView {
        text_compressed: if k == 0 {
            value
        } else {
            v.text_compressed
        },
        rodata_compressed: if k == 1 {
            value
        } else {
            v.rodata_compressed
        },
        data_compressed: if k == 2 {
            value
        } else {
            v.data_compressed
        },
        text_hash: if k == 3 {
            value
        } else {
            v.text_hash
        },
        rodata_hash: if k == 4 {
            value
        } else {
            v.rodata_hash
        },
        data_hash: if k == 5 {
            value
        } else {
            v.data_hash
        },
        reserved: v.reserved,
    }
}

/// Setting or clearing bit `k` of a word changes that bit and no other.
proof fn lemma_put_bit(w: u32, k: u32, value: bool, n: u32)
    by (bit_vector)
    requires
        k < 6,
        n == (if value {
            w | (1u32 << k)
        } else {
            w & !(1u32 << k)
        }),
    ensures
        (n % 2 == 1) == (if k == 0 {
            value
        } else {
            w % 2 == 1
        }),
        (n / 2 % 2 == 1) == (if k == 1 {
            value
        } else {
            w / 2 % 2 == 1
        }),
        (n / 4 % 2 == 1) == (if k == 2 {
            value
        } else {
            w / 4 % 2 == 1
        }),
        (n / 8 % 2 == 1) == (if k == 3 {
            value
        } else {
            w / 8 % 2 == 1
        }),
        (n / 16 % 2 == 1) == (if k == 4 {
            value
        } else {
            w / 16 % 2 == 1
        }),
        (n / 32 % 2 == 1) == (if k == 5 {
            value
        } else {
            w / 32 % 2 == 1
        }),
        n / 64 == w / 64,
{
}

/// Two words with the same six low bits have the same six flags.
proof fn lemma_low_bits(w: u32, n: u32)
    by (bit_vector)
    requires
        n % 64 == w % 64,
    ensures
        (n % 2 == 1) == (w % 2 == 1),
        (n / 2 % 2 == 1) == (w / 2 % 2 == 1),
        (n / 4 % 2 == 1) == (w / 4 % 2 == 1),
        (n / 8 % 2 == 1) == (w / 8 % 2 == 1),
        (n / 16 % 2 == 1) == (w / 16 % 2 == 1),
        (n / 32 % 2 == 1) == (w / 32 % 2 == 1),
{
}

/// Sets or clears bit `k` of a word.
fn put_bit(w: u32, k: u32, value: bool) -> (n: u32)
    requires
        k < 6,
    ensures
        flags_of_word(n) == with_bit(flags_of_word(w), k, value),
{
    let n: u32 = if value {
        w | (1u32 << k)
    } else {
        w & !(1u32 << k)
    };
    proof {
        lemma_put_bit(w, k, value, n);
    }
    n
}

} // verus!
