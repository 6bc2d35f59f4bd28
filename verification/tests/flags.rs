use nso::Flags;

fn fields(f: &Flags) -> [bool; 6] {
    [
        f.text_compressed(),
        f.rodata_compressed(),
        f.data_compressed(),
        f.text_hash(),
        f.rodata_hash(),
        f.data_hash(),
    ]
}

#[test]
fn bit_zero_is_text_compressed() {
    let f = Flags::from_bytes([0b000001, 0, 0, 0]);
    assert_eq!(fields(&f), [true, false, false, false, false, false]);
    assert_eq!(f.reserved(), 0);
}

#[test]
fn bit_five_is_data_hash() {
    let f = Flags::from_bytes([0b100000, 0, 0, 0]);
    assert_eq!(fields(&f), [false, false, false, false, false, true]);
    assert_eq!(f.reserved(), 0);
}

#[test]
fn all_bits_set() {
    let f = Flags::from_bytes([0xff, 0xff, 0xff, 0xff]);
    assert_eq!(fields(&f), [true, true, true, true, true, true]);
    assert_eq!(f.reserved(), 0x3FF_FFFF);
}

#[test]
fn each_bit_is_its_own_flag() {
    assert_eq!(
        fields(&Flags::from_bytes([0b000010, 0, 0, 0])),
        [false, true, false, false, false, false]
    );
    assert_eq!(
        fields(&Flags::from_bytes([0b000100, 0, 0, 0])),
        [false, false, true, false, false, false]
    );
    assert_eq!(
        fields(&Flags::from_bytes([0b001000, 0, 0, 0])),
        [false, false, false, true, false, false]
    );
    assert_eq!(
        fields(&Flags::from_bytes([0b010000, 0, 0, 0])),
        [false, false, false, false, true, false]
    );
}

#[test]
fn no_bit_set() {
    let f = Flags::from_bytes([0, 0, 0, 0]);
    assert_eq!(fields(&f), [false; 6]);
    assert_eq!(f.reserved(), 0);
    assert_eq!(f, Flags::new());
}

#[test]
fn reserved_starts_at_bit_six() {
    assert_eq!(Flags::from_bytes([0b0100_0000, 0, 0, 0]).reserved(), 1);
    assert_eq!(Flags::from_bytes([0b1000_0000, 0, 0, 0]).reserved(), 2);
    assert_eq!(Flags::from_bytes([0, 1, 0, 0]).reserved(), 4);
    assert_eq!(Flags::from_bytes([0, 0, 1, 0]).reserved(), 0x400);
    assert_eq!(Flags::from_bytes([0, 0, 0, 0x80]).reserved(), 0x200_0000);
    assert_eq!(fields(&Flags::from_bytes([0xC0, 0xff, 0xff, 0xff])), [false; 6]);
}

#[test]
fn first_byte_holds_the_low_bits() {
    // The same set bit in any other byte is a reserved bit, not a flag.
    let f = Flags::from_bytes([0, 0, 0, 1]);
    assert_eq!(fields(&f), [false; 6]);
    assert_eq!(f.reserved(), 1 << 18);
}

#[test]
fn bytes_come_back_unchanged() {
    for bytes in [
        [0u8, 0, 0, 0],
        [1, 0, 0, 0],
        [0x3f, 0, 0, 0],
        [0x15, 0x34, 0x56, 0x78],
        [0xff, 0xff, 0xff, 0xff],
    ] {
        assert_eq!(Flags::from_bytes(bytes).into_bytes(), bytes);
    }
}

#[test]
fn builders_change_one_field() {
    let f = Flags::new().with_rodata_compressed(true);
    assert_eq!(fields(&f), [false, true, false, false, false, false]);
    assert_eq!(f.into_bytes(), [0b000010, 0, 0, 0]);

    let all = Flags::from_bytes([0xff, 0xff, 0xff, 0xff]);
    assert_eq!(all.with_text_compressed(false).into_bytes(), [0xfe, 0xff, 0xff, 0xff]);
    assert_eq!(all.with_rodata_compressed(false).into_bytes(), [0xfd, 0xff, 0xff, 0xff]);
    assert_eq!(all.with_data_compressed(false).into_bytes(), [0xfb, 0xff, 0xff, 0xff]);
    assert_eq!(all.with_text_hash(false).into_bytes(), [0xf7, 0xff, 0xff, 0xff]);
    assert_eq!(all.with_rodata_hash(false).into_bytes(), [0xef, 0xff, 0xff, 0xff]);
    assert_eq!(all.with_data_hash(false).into_bytes(), [0xdf, 0xff, 0xff, 0xff]);
    assert_eq!(all.with_data_hash(true), all);

    let built = Flags::new()
        .with_text_compressed(true)
        .with_data_compressed(true)
        .with_text_hash(true)
        .with_rodata_hash(true)
        .with_data_hash(true);
    assert_eq!(built.into_bytes(), [0b111101, 0, 0, 0]);
}

#[test]
fn reserved_builder_keeps_the_flags() {
    let f = Flags::from_bytes([0b101010, 0, 0, 0]).with_reserved(0x3FF_FFFF);
    assert_eq!(f.into_bytes(), [0b1110_1010, 0xff, 0xff, 0xff]);
    assert_eq!(f.reserved(), 0x3FF_FFFF);
    let g = f.with_reserved(5);
    assert_eq!(g.into_bytes(), [0b0110_1010, 1, 0, 0]);
    assert_eq!(fields(&g), [false, true, false, true, false, true]);
    assert_eq!(g.with_reserved(0).into_bytes(), [0b101010, 0, 0, 0]);
}
