use oxideav_cook::bitreader::{
    FrameBitReader, CTX_BIT_CURSOR_OFFSET, CTX_BIT_LIMIT_OFFSET, CTX_BIT_POSITION_OFFSET,
    CTX_WORD_POINTER_OFFSET,
};

#[test]
fn ctx_offsets_are_consecutive_words() {
    assert_eq!(CTX_BIT_POSITION_OFFSET, CTX_WORD_POINTER_OFFSET + 4);
    assert_eq!(CTX_BIT_CURSOR_OFFSET, CTX_BIT_POSITION_OFFSET + 4);
    assert_eq!(CTX_BIT_LIMIT_OFFSET, CTX_BIT_CURSOR_OFFSET + 4);
}

#[test]
fn new_starts_at_origin() {
    let r = FrameBitReader::new(&[0x12, 0x34, 0x56, 0x78]);
    assert_eq!(r.bit_cursor(), 0);
    assert_eq!(r.word_index(), 0);
    assert_eq!(r.bit_position(), 0);
    assert_eq!(r.bit_limit(), 32);
    assert_eq!(r.bits_remaining(), 32);
    assert!(!r.at_end());
}

#[test]
fn read_bits_msb_first_within_word() {
    let mut r = FrameBitReader::new(&[0x12, 0x34, 0x56, 0x78]);
    assert_eq!(r.read_bits(4), 0x1);
    assert_eq!(r.read_bits(4), 0x2);
    assert_eq!(r.read_bits(8), 0x34);
    assert_eq!(r.bit_cursor(), 16);
    assert_eq!(r.bit_position(), 16);
}

#[test]
fn read_full_word() {
    let mut r = FrameBitReader::new(&[0xDE, 0xAD, 0xBE, 0xEF]);
    assert_eq!(r.read_bits(32), 0xDEAD_BEEF);
    assert_eq!(r.bit_cursor(), 32);
    assert!(r.at_end());
}

#[test]
fn read_bits_across_word_boundary() {
    let data = [0x00, 0x00, 0x00, 0xFF, 0xFF, 0x00, 0x00, 0x00];
    let mut r = FrameBitReader::with_bit_limit(&data, 64);
    assert_eq!(r.read_bits(24), 0);
    assert_eq!(r.bit_cursor(), 24);
    assert_eq!(r.read_bits(16), 0xFFFF);
    assert_eq!(r.bit_cursor(), 40);
    assert_eq!(r.word_index(), 1);
    assert_eq!(r.bit_position(), 8);
    assert_eq!(r.read_bits(24), 0);
    assert!(r.at_end());
}

#[test]
fn read_word_then_next_word() {
    let data = [0x11, 0x22, 0x33, 0x44, 0x55, 0x66, 0x77, 0x88];
    let mut r = FrameBitReader::with_bit_limit(&data, 64);
    assert_eq!(r.read_bits(32), 0x1122_3344);
    assert_eq!(r.bit_position(), 0);
    assert_eq!(r.read_bits(32), 0x5566_7788);
}

#[test]
fn read_bit_and_flag_forms() {
    let mut r = FrameBitReader::new(&[0xA0, 0x00, 0x00, 0x00]);
    assert_eq!(r.read_bit(), 1);
    assert_eq!(r.read_bit(), 0);
    assert_eq!(r.read_bit(), 1);
    assert_eq!(r.read_bit(), 0);

    let mut r2 = FrameBitReader::new(&[0xA0, 0x00, 0x00, 0x00]);
    assert_eq!(r2.read_flag(), -1);
    assert_eq!(r2.read_flag(), 0);
    assert_eq!(r2.read_flag(), -1);
    assert_eq!(r2.read_flag(), 0);
}

#[test]
fn read_past_bit_limit_returns_zero_and_clamps() {
    let data = [0xFF, 0x00, 0x00, 0x00];
    let mut r = FrameBitReader::with_bit_limit(&data, 8);
    assert_eq!(r.read_bits(8), 0xFF);
    assert_eq!(r.bit_cursor(), 8);
    assert!(r.at_end());
    assert_eq!(r.read_bits(4), 0);
    assert_eq!(r.bit_cursor(), 8);
    assert_eq!(r.bits_remaining(), 0);
    assert_eq!(r.read_bit(), 0);
    assert_eq!(r.read_flag(), 0);
}

#[test]
fn read_exactly_to_limit_is_allowed() {
    let data = [0xFF, 0xFF, 0xFF, 0xFF];
    let mut r = FrameBitReader::with_bit_limit(&data, 12);
    assert_eq!(r.read_bits(12), 0xFFF);
    assert_eq!(r.bit_cursor(), 12);
    assert!(r.at_end());
    assert_eq!(r.read_bit(), 0);
}

#[test]
fn read_bits_out_of_range_n_is_inert() {
    let mut r = FrameBitReader::new(&[0xFF, 0xFF, 0xFF, 0xFF]);
    assert_eq!(r.read_bits(0), 0);
    assert_eq!(r.bit_cursor(), 0);
    assert_eq!(r.read_bits(33), 0);
    assert_eq!(r.bit_cursor(), 0);
    assert_eq!(r.read_bits(4), 0xF);
}

#[test]
fn single_bit_reads_compose_to_multibit() {
    let bytes = [0x96, 0x00, 0x00, 0x00];
    let mut multi = FrameBitReader::new(&bytes);
    let whole = multi.read_bits(8);

    let mut single = FrameBitReader::new(&bytes);
    let mut acc = 0u32;
    for _ in 0..8 {
        acc = (acc << 1) | single.read_bit();
    }
    assert_eq!(acc, whole);
    assert_eq!(acc, 0x96);
}

#[test]
fn cursor_state_stays_consistent() {
    let data = [0x12, 0x34, 0x56, 0x78, 0x9A, 0xBC, 0xDE, 0xF0];
    let mut r = FrameBitReader::with_bit_limit(&data, 64);
    r.read_bits(3);
    assert_eq!(r.bit_cursor(), 3);
    assert_eq!(r.word_index(), 0);
    assert_eq!(r.bit_position(), 3);
    r.read_bits(30);
    assert_eq!(r.bit_cursor(), 33);
    assert_eq!(r.word_index(), 1);
    assert_eq!(r.bit_position(), 1);
    r.read_bits(31);
    assert_eq!(r.bit_cursor(), 64);
    assert!(r.at_end());
}

#[test]
fn consecutive_reads_concatenate_to_one_wider_read() {
    let data = [0xA5u8, 0x3C, 0x0F, 0xF0, 0x12, 0x34, 0x56, 0x78];
    for split in 1..16u32 {
        let mut whole = FrameBitReader::new(&data);
        whole.skip_bits(5);
        let w = whole.read_bits(16);
        let mut parts = FrameBitReader::new(&data);
        parts.skip_bits(5);
        let hi = parts.read_bits(split);
        let lo = parts.read_bits(16 - split);
        assert_eq!((hi << (16 - split)) | lo, w, "split {split}");
        assert_eq!(parts.bit_cursor(), whole.bit_cursor());
    }
}
