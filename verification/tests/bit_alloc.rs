use oxideav_cook::bit_alloc::category_bit_cost;
use oxideav_cook::category::CategoryIndex;
use oxideav_cook::bit_alloc::{BIT_ALLOC_AXIS_LEN, BIT_ALLOC_CATEGORY_COUNT, BitAllocAxisPosition, BitAllocCategory, MAX_BIT_ALLOC_AXIS_POSITION, MAX_BIT_ALLOC_CATEGORY, bit_alloc_category_for_position};
use oxideav_cook::Error;
#[test]
fn constants_match_meta() {
    assert_eq!(BIT_ALLOC_AXIS_LEN, 51);
    assert_eq!(BIT_ALLOC_CATEGORY_COUNT, 20);
    assert_eq!(MAX_BIT_ALLOC_CATEGORY, 19);
    assert_eq!(MAX_BIT_ALLOC_AXIS_POSITION, 50);
    assert_eq!(BIT_ALLOC_AXIS_LEN, category_index_lut().len());
}

#[test]
fn axis_position_accepts_full_range() {
    for p in 0..=MAX_BIT_ALLOC_AXIS_POSITION {
        let pos = BitAllocAxisPosition::new(p).unwrap();
        assert_eq!(pos.get(), p);
        assert_eq!(pos.as_usize(), p as usize);
    }
}

#[test]
fn axis_position_rejects_out_of_range() {
    for p in (MAX_BIT_ALLOC_AXIS_POSITION + 1)..=u8::MAX {
        let err = BitAllocAxisPosition::new(p).unwrap_err();
        assert_eq!(err, Error::BitAllocAxisOutOfRange { got: p });
        if p == u8::MAX {
            break;
        }
    }
    assert_eq!(
        BitAllocAxisPosition::new(51).unwrap_err(),
        Error::BitAllocAxisOutOfRange { got: 51 }
    );
}

#[test]
fn axis_position_new_const_accepts_valid_const_context() {
    let p0: BitAllocAxisPosition = BitAllocAxisPosition::new_const(0);
    let p50: BitAllocAxisPosition = BitAllocAxisPosition::new_const(50);
    assert_eq!(p0.get(), 0);
    assert_eq!(p50.get(), 50);
}

#[test]
fn category_new_const_accepts_valid_const_context() {
    let c0: BitAllocCategory = BitAllocCategory::new_const(0);
    let c19: BitAllocCategory = BitAllocCategory::new_const(19);
    assert_eq!(c0.get(), 0);
    assert_eq!(c19.get(), 19);
}

#[test]
fn lookup_matches_raw_table_at_every_position() {
    let raw = category_index_lut();
    for p in 0..=MAX_BIT_ALLOC_AXIS_POSITION {
        let pos = BitAllocAxisPosition::new(p).unwrap();
        let got = bit_alloc_category_for_position(pos);
        assert_eq!(
            got.get() as u32,
            raw[p as usize],
            "LUT lookup at position {p} disagrees with raw table"
        );
        assert!(got.get() <= MAX_BIT_ALLOC_CATEGORY);
    }
}

#[test]
fn lookup_endpoints_match_meta_bounds() {
    let p0 = BitAllocAxisPosition::new(0).unwrap();
    let p50 = BitAllocAxisPosition::new(50).unwrap();
    assert_eq!(bit_alloc_category_for_position(p0).get(), 0);
    assert_eq!(bit_alloc_category_for_position(p50).get(), 19);
}

#[test]
fn lookup_is_monotone_non_decreasing_across_full_axis() {
    let mut prev: u8 = 0;
    for p in 0..=MAX_BIT_ALLOC_AXIS_POSITION {
        let cat = bit_alloc_category_for_position(BitAllocAxisPosition::new(p).unwrap()).get();
        assert!(
            cat >= prev,
            "LUT not monotone at position {p}: prev={prev}, got={cat}"
        );
        prev = cat;
    }
}

#[test]
fn bit_alloc_lut_covers_full_category_range() {
    let mut seen = [false; BIT_ALLOC_CATEGORY_COUNT as usize];
    for p in 0..=MAX_BIT_ALLOC_AXIS_POSITION {
        let cat = bit_alloc_category_for_position(BitAllocAxisPosition::new(p).unwrap()).get();
        seen[cat as usize] = true;
    }
    for (i, &reached) in seen.iter().enumerate() {
        assert!(reached, "category {i} not reached by any axis position");
    }
}

/// The stock category-index LUT, one entry per axis position.
fn category_index_lut() -> [u32; 51] {
    [
        0, 1, 2, 3, 4, 5, 6, 7, 8, 9, 10, 11, 11, 12, 12, 13, 13, 14, 14, 14, 15, 15, 15, 15, 16, 16, 16, 16, 16, 17, 17, 17, 17, 17, 17, 18, 18, 18, 18, 18, 18, 18, 19, 19, 19, 19, 19, 19, 19, 19, 19,
    ]
}

#[test]
fn category_cost_strictly_decreases_as_the_category_coarsens() {
    let costs: Vec<u32> = (0..=6u8)
        .map(|c| category_bit_cost(CategoryIndex::new(c).unwrap()))
        .collect();
    for w in costs.windows(2) {
        assert!(w[0] > w[1], "{costs:?}");
    }
    assert_eq!(costs[0], 52);
    assert_eq!(costs[6], 16);
}
