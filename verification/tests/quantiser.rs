use oxideav_cook::quantiser::{clip_quantiser_index, QUANTISER_DIVISOR_RVA};

#[test]
fn clip_zero_level_count_is_total() {
    assert_eq!(clip_quantiser_index(0, 0), 0);
    assert_eq!(clip_quantiser_index(0, u32::MAX), 0);
}

#[test]
fn clip_passes_in_range_and_caps_above() {
    for level_count in [1u32, 2, 3, 5, 13] {
        for idx in 0..level_count {
            assert_eq!(clip_quantiser_index(level_count, idx), idx);
        }
        assert_eq!(clip_quantiser_index(level_count, level_count), level_count - 1);
        assert_eq!(clip_quantiser_index(level_count, u32::MAX), level_count - 1);
    }
    assert_eq!(clip_quantiser_index(13, 12), 12);
    assert_eq!(clip_quantiser_index(13, 13), 12);
    assert_eq!(clip_quantiser_index(1, 7), 0);
}

#[test]
fn divisor_table_address_is_pinned() {
    assert_eq!(QUANTISER_DIVISOR_RVA, 0xa7d4);
}
