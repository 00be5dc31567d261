use oxideav_cook::index_decomp::{INDEX_RADIX, INDEX_RECIP, INDEX_RECIP_COUNT, INDEX_RECIP_RVA, INDEX_RECIP_SCALE, INDEX_RECIP_SHIFT, MAX_INDEX_RECIP_INDEX, decompose_index, index_radix, index_recip, reciprocal_quotient};
use oxideav_cook::Error;
#[test]
fn recip_constants_match_spec() {
    assert_eq!(
        INDEX_RECIP,
        [0x12493, 0x1999a, 0x24925, 0x33334, 0x40000, 0x55556, 0x80000]
    );
    assert_eq!(INDEX_RECIP_COUNT, 7);
    assert_eq!(MAX_INDEX_RECIP_INDEX, 6);
    assert_eq!(INDEX_RECIP_SHIFT, 0x14);
    assert_eq!(INDEX_RECIP_SCALE, 1 << 20);
    assert_eq!(INDEX_RECIP_RVA, 0x8fac);
}

#[test]
fn radices_are_ceil_2pow20_over_recip() {
    for i in 0..INDEX_RECIP_COUNT {
        let recip = INDEX_RECIP[i] as u64;
        let radix = ((INDEX_RECIP_SCALE + recip / 2) / recip) as u32;
        assert_eq!(radix, INDEX_RADIX[i], "radix recovery for entry {i}");
        let n = INDEX_RADIX[i] as u64;
        let back = INDEX_RECIP_SCALE.div_ceil(n);
        assert_eq!(
            back as u32, INDEX_RECIP[i],
            "reciprocal forward for entry {i}"
        );
    }
    assert_eq!(INDEX_RADIX, [14, 10, 7, 5, 4, 3, 2]);
}

#[test]
fn reciprocal_quotient_matches_true_division() {
    for i in 0..INDEX_RECIP_COUNT {
        let recip = INDEX_RECIP[i];
        let radix = INDEX_RADIX[i];
        for idx in 0u32..(radix * 64 + 7) {
            assert_eq!(
                reciprocal_quotient(idx, recip),
                idx / radix,
                "entry {i} idx {idx} radix {radix}"
            );
        }
    }
}

#[test]
fn decompose_yields_quotient_remainder() {
    for ti in 0..=MAX_INDEX_RECIP_INDEX {
        let radix = index_radix(ti).unwrap();
        for idx in 0u32..(radix * 32 + 5) {
            let (q, r) = decompose_index(idx, ti).unwrap();
            assert_eq!(q, idx / radix, "quotient ti {ti} idx {idx}");
            assert_eq!(r, idx % radix, "remainder ti {ti} idx {idx}");
            assert_eq!(q * radix + r, idx);
            assert!(r < radix);
        }
    }
}

#[test]
fn accessors_reject_out_of_range() {
    for ti in (MAX_INDEX_RECIP_INDEX + 1)..=u8::MAX {
        assert_eq!(
            index_recip(ti).unwrap_err(),
            Error::IndexRecipOutOfRange { got: ti }
        );
        assert_eq!(
            index_radix(ti).unwrap_err(),
            Error::IndexRecipOutOfRange { got: ti }
        );
        assert_eq!(
            decompose_index(0, ti).unwrap_err(),
            Error::IndexRecipOutOfRange { got: ti }
        );
        if ti == u8::MAX {
            break;
        }
    }
}

#[test]
fn zero_index_decomposes_to_zero() {
    for ti in 0..=MAX_INDEX_RECIP_INDEX {
        assert_eq!(decompose_index(0, ti).unwrap(), (0, 0));
    }
}

#[test]
fn multi_digit_peel_reconstructs_packed_value() {
    let ti = 4u8;
    let radix = index_radix(ti).unwrap();
    let original = 1234u32;
    let mut idx = original;
    let mut digits = Vec::new();
    while idx > 0 {
        let (q, r) = decompose_index(idx, ti).unwrap();
        digits.push(r);
        idx = q;
    }
    let mut acc = 0u32;
    for &d in digits.iter().rev() {
        acc = acc * radix + d;
    }
    assert_eq!(acc, original);
}

#[test]
fn reciprocal_quotient_is_exact_over_the_whole_u32_range() {
    assert_eq!(reciprocal_quotient(262_149, INDEX_RECIP[1]), 26_214);
    for i in 0..INDEX_RECIP_COUNT {
        for idx in [u32::MAX, u32::MAX - 1, 1 << 31, 262_149, 1_000_003] {
            assert_eq!(reciprocal_quotient(idx, INDEX_RECIP[i]), idx / INDEX_RADIX[i]);
        }
    }
    // A value encoding none of the radices is applied as the multiply-shift.
    assert_eq!(reciprocal_quotient(1 << 20, 3), 3);
}
