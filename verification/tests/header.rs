use nso::{Flags, NsoError, NsoFile, SectionHeader, SegmentHeader, HEADER_SIZE, MAGIC};

/// 256 bytes laid out by hand, every field with a value of its own.
fn sample_bytes() -> Vec<u8> {
    let mut b = vec![0u8; 256];
    b[0..4].copy_from_slice(b"NSO0");
    b[4..8].copy_from_slice(&[0x01, 0x02, 0x03, 0x04]); // version
    b[8..12].copy_from_slice(&[0x11, 0x12, 0x13, 0x14]); // reserved
    b[12..16].copy_from_slice(&[0b0010_0101, 0x00, 0x00, 0x80]); // flags
    b[16..20].copy_from_slice(&0x0000_0100u32.to_le_bytes()); // text file offset
    b[20..24].copy_from_slice(&0x0000_0000u32.to_le_bytes()); // text memory offset
    b[24..28].copy_from_slice(&0x0000_0400u32.to_le_bytes()); // text size
    b[28..32].copy_from_slice(&0x0000_00F0u32.to_le_bytes()); // module name offset
    b[32..36].copy_from_slice(&0x0000_0200u32.to_le_bytes()); // rodata file offset
    b[36..40].copy_from_slice(&0x0000_1000u32.to_le_bytes()); // rodata memory offset
    b[40..44].copy_from_slice(&0x0000_0800u32.to_le_bytes()); // rodata size
    b[44..48].copy_from_slice(&0x0000_0010u32.to_le_bytes()); // module name size
    b[48..52].copy_from_slice(&0x0000_0300u32.to_le_bytes()); // data file offset
    b[52..56].copy_from_slice(&0x0000_2000u32.to_le_bytes()); // data memory offset
    b[56..60].copy_from_slice(&0x0000_0C00u32.to_le_bytes()); // data size
    b[60..64].copy_from_slice(&0xCAFE_F00Du32.to_le_bytes()); // bss size
    for i in 0..32 {
        b[64 + i] = 0x40 + i as u8; // module id
    }
    b[96..100].copy_from_slice(&100u32.to_le_bytes()); // text file size
    b[100..104].copy_from_slice(&200u32.to_le_bytes()); // rodata file size
    b[104..108].copy_from_slice(&300u32.to_le_bytes()); // data file size
    for i in 0..7 {
        b[108 + 4 * i..112 + 4 * i].copy_from_slice(&(0xA000_0000u32 + i as u32).to_le_bytes());
    }
    b[136..140].copy_from_slice(&0x0000_0501u32.to_le_bytes());
    b[140..144].copy_from_slice(&0x0000_0502u32.to_le_bytes());
    b[144..148].copy_from_slice(&0x0000_0601u32.to_le_bytes());
    b[148..152].copy_from_slice(&0x0000_0602u32.to_le_bytes());
    b[152..156].copy_from_slice(&0x0000_0701u32.to_le_bytes());
    b[156..160].copy_from_slice(&0x0000_0702u32.to_le_bytes());
    for i in 0..32 {
        b[160 + i] = 0x80 + i as u8; // text hash
        b[192 + i] = 0xA0 + i as u8; // rodata hash
        b[224 + i] = 0xC0 + i as u8; // data hash
    }
    b
}

fn sample_header() -> NsoFile {
    let mut module_id = [0u8; 32];
    let mut text_hash = [0u8; 32];
    let mut rodata_hash = [0u8; 32];
    let mut data_hash = [0u8; 32];
    for i in 0..32 {
        module_id[i] = 0x40 + i as u8;
        text_hash[i] = 0x80 + i as u8;
        rodata_hash[i] = 0xA0 + i as u8;
        data_hash[i] = 0xC0 + i as u8;
    }
    NsoFile {
        version: 0x0403_0201,
        reserved: 0x1413_1211,
        flags: Flags::from_bytes([0b0010_0101, 0x00, 0x00, 0x80]),
        text_segment_header: SegmentHeader { file_offset: 0x100, memory_offset: 0, size: 0x400 },
        module_name_offset: 0xF0,
        rodata_segment_header: SegmentHeader {
            file_offset: 0x200,
            memory_offset: 0x1000,
            size: 0x800,
        },
        module_name_size: 0x10,
        data_segment_header: SegmentHeader {
            file_offset: 0x300,
            memory_offset: 0x2000,
            size: 0xC00,
        },
        bss_size: 0xCAFE_F00D,
        module_id,
        text_file_size: 100,
        rodata_file_size: 200,
        data_file_size: 300,
        reserved2: [
            0xA000_0000,
            0xA000_0001,
            0xA000_0002,
            0xA000_0003,
            0xA000_0004,
            0xA000_0005,
            0xA000_0006,
        ],
        embedded_section_header: SectionHeader { file_offset: 0x501, size: 0x502 },
        dyn_str_section_header: SectionHeader { file_offset: 0x601, size: 0x602 },
        dyn_sym_section_header: SectionHeader { file_offset: 0x701, size: 0x702 },
        text_hash,
        rodata_hash,
        data_hash,
    }
}

#[test]
fn header_size_and_magic() {
    assert_eq!(HEADER_SIZE, 256);
    assert_eq!(MAGIC.to_le_bytes(), *b"NSO0");
    // The widths of the layout add up to the header size.
    let widths = [4, 4, 4, 4, 12, 4, 12, 4, 12, 4, 32, 4, 4, 4, 28, 8, 8, 8, 32, 32, 32];
    assert_eq!(widths.iter().sum::<usize>(), HEADER_SIZE);
}

#[test]
fn every_field_is_read_from_its_place() {
    let h = NsoFile::parse(&sample_bytes()).unwrap();
    assert_eq!(h.version, 0x0403_0201);
    assert_eq!(h.reserved, 0x1413_1211);
    assert!(h.flags.text_compressed());
    assert!(!h.flags.rodata_compressed());
    assert!(h.flags.data_compressed());
    assert!(!h.flags.text_hash());
    assert!(!h.flags.rodata_hash());
    assert!(h.flags.data_hash());
    assert_eq!(h.flags.reserved(), 0x200_0000);
    assert_eq!(
        h.text_segment_header,
        SegmentHeader { file_offset: 0x100, memory_offset: 0, size: 0x400 }
    );
    assert_eq!(h.module_name_offset, 0xF0);
    assert_eq!(
        h.rodata_segment_header,
        SegmentHeader { file_offset: 0x200, memory_offset: 0x1000, size: 0x800 }
    );
    assert_eq!(h.module_name_size, 0x10);
    assert_eq!(
        h.data_segment_header,
        SegmentHeader { file_offset: 0x300, memory_offset: 0x2000, size: 0xC00 }
    );
    assert_eq!(h.bss_size, 0xCAFE_F00D);
    assert_eq!(h.module_id[0], 0x40);
    assert_eq!(h.module_id[31], 0x5F);
    assert_eq!(h.text_file_size, 100);
    assert_eq!(h.rodata_file_size, 200);
    assert_eq!(h.data_file_size, 300);
    assert_eq!(h.reserved2[0], 0xA000_0000);
    assert_eq!(h.reserved2[6], 0xA000_0006);
    assert_eq!(h.embedded_section_header, SectionHeader { file_offset: 0x501, size: 0x502 });
    assert_eq!(h.dyn_str_section_header, SectionHeader { file_offset: 0x601, size: 0x602 });
    assert_eq!(h.dyn_sym_section_header, SectionHeader { file_offset: 0x701, size: 0x702 });
    assert_eq!(h.text_hash[0], 0x80);
    assert_eq!(h.text_hash[31], 0x9F);
    assert_eq!(h.rodata_hash[0], 0xA0);
    assert_eq!(h.rodata_hash[31], 0xBF);
    assert_eq!(h.data_hash[0], 0xC0);
    assert_eq!(h.data_hash[31], 0xDF);
    assert_eq!(h, sample_header());
}

#[test]
fn parsed_header_encodes_to_the_same_bytes() {
    let bytes = sample_bytes();
    let h = NsoFile::parse(&bytes).unwrap();
    assert_eq!(h.to_bytes(), bytes);

    let mut other = vec![0xffu8; 256];
    other[0..4].copy_from_slice(b"NSO0");
    assert_eq!(NsoFile::parse(&other).unwrap().to_bytes(), other);

    let mut zero = vec![0u8; 256];
    zero[0..4].copy_from_slice(b"NSO0");
    assert_eq!(NsoFile::parse(&zero).unwrap().to_bytes(), zero);
}

#[test]
fn encoded_header_parses_to_the_same_header() {
    let h = sample_header();
    let bytes = h.to_bytes();
    assert_eq!(bytes.len(), 256);
    assert_eq!(bytes, sample_bytes());
    assert_eq!(NsoFile::parse(&bytes), Ok(h));
}

#[test]
fn bytes_after_the_header_are_not_read() {
    let mut bytes = sample_bytes();
    bytes.extend_from_slice(&[0xEE; 100]);
    let h = NsoFile::parse(&bytes).unwrap();
    assert_eq!(h, sample_header());
    assert_eq!(h.to_bytes(), &bytes[..256]);
}

#[test]
fn wrong_magic_is_refused() {
    let mut bytes = sample_bytes();
    bytes[3] = b'1';
    assert_eq!(NsoFile::parse(&bytes), Err(NsoError::InvalidMagic { found: 0x314F_534E }));
    bytes[0] = 0;
    bytes[1] = 0;
    bytes[2] = 0;
    bytes[3] = 0;
    assert_eq!(NsoFile::parse(&bytes), Err(NsoError::InvalidMagic { found: 0 }));
    // Big-endian magic is no magic.
    assert_eq!(
        NsoFile::parse(b"0OSN and then whatever follows"),
        Err(NsoError::InvalidMagic { found: u32::from_le_bytes(*b"0OSN") })
    );
}

#[test]
fn wrong_magic_is_refused_whatever_follows() {
    let want = Err(NsoError::InvalidMagic { found: u32::from_le_bytes(*b"NRO0") });
    assert_eq!(NsoFile::parse(b"NRO0"), want);
    assert_eq!(NsoFile::parse(b"NRO0\x00"), want);
    let mut long = vec![0x55u8; 4000];
    long[0..4].copy_from_slice(b"NRO0");
    assert_eq!(NsoFile::parse(&long), want);
    let mut full = sample_bytes();
    full[0..4].copy_from_slice(b"NRO0");
    assert_eq!(NsoFile::parse(&full), want);
}

#[test]
fn short_source_is_truncated() {
    assert_eq!(NsoFile::parse(&[]), Err(NsoError::TruncatedHeader { available: 0 }));
    assert_eq!(NsoFile::parse(b"NSO"), Err(NsoError::TruncatedHeader { available: 3 }));
    assert_eq!(NsoFile::parse(b"XYZ"), Err(NsoError::TruncatedHeader { available: 3 }));
    assert_eq!(NsoFile::parse(b"NSO0"), Err(NsoError::TruncatedHeader { available: 4 }));
    let bytes = sample_bytes();
    assert_eq!(
        NsoFile::parse(&bytes[..255]),
        Err(NsoError::TruncatedHeader { available: 255 })
    );
    assert_eq!(NsoFile::parse(&bytes[..16]), Err(NsoError::TruncatedHeader { available: 16 }));
    assert!(NsoFile::parse(&bytes[..256]).is_ok());
}

#[test]
fn magic_is_judged_before_length() {
    assert_eq!(
        NsoFile::parse(b"ABCD"),
        Err(NsoError::InvalidMagic { found: u32::from_le_bytes(*b"ABCD") })
    );
    let mut bytes = sample_bytes();
    bytes.truncate(200);
    bytes[0] = b'X';
    assert_eq!(
        NsoFile::parse(&bytes),
        Err(NsoError::InvalidMagic { found: u32::from_le_bytes(*b"XSO0") })
    );
}

#[test]
fn offsets_and_sizes_are_not_judged() {
    let mut h = sample_header();
    h.text_segment_header.file_offset = u32::MAX;
    h.text_file_size = u32::MAX;
    h.data_segment_header.size = 0;
    assert_eq!(NsoFile::parse(&h.to_bytes()), Ok(h));
}
