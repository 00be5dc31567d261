use oxideav_cook::Error;
use oxideav_cook::reciprocal::{RECIPROCAL_DENOMINATOR_MAX, RECIPROCAL_DENOMINATOR_MIN, RECIPROCAL_LEN, RECIPROCAL_ONE_TWENTIETH_INDEX, RECIPROCAL_RUN_LEN, RECIPROCAL_TABLE_END_RVA, RECIPROCAL_TRAILING_ZERO_INDEX, ReciprocalDenominator};
#[test]
fn constants_match_meta_and_spec01_row() {
    assert_eq!(
        RECIPROCAL_RUN_LEN + /* 1/20 */ 1 + /* 0.0 */ 1,
        RECIPROCAL_LEN
    );
    assert_eq!(RECIPROCAL_ONE_TWENTIETH_INDEX, RECIPROCAL_RUN_LEN);
    assert_eq!(RECIPROCAL_TRAILING_ZERO_INDEX, RECIPROCAL_LEN - 1);
    assert_eq!(RECIPROCAL_TABLE_END_RVA, 0xa7d4);
    assert_eq!(
        (RECIPROCAL_DENOMINATOR_MAX - RECIPROCAL_DENOMINATOR_MIN + 1) as usize,
        RECIPROCAL_RUN_LEN
    );
}

#[test]
fn denominator_accepts_full_run() {
    for n in RECIPROCAL_DENOMINATOR_MIN..=RECIPROCAL_DENOMINATOR_MAX {
        let d = ReciprocalDenominator::new(n).unwrap();
        assert_eq!(d.get(), n);
        assert_eq!(d.table_index(), (n - 1) as usize);
        assert!(d.table_index() < RECIPROCAL_RUN_LEN);
    }
}

#[test]
fn denominator_rejects_out_of_run_values() {
    for raw in [0u8, 10, 19, 20, 21, u8::MAX] {
        let err = ReciprocalDenominator::new(raw).unwrap_err();
        assert_eq!(err, Error::ReciprocalDenominatorOutOfRange { got: raw });
    }
}

#[test]
fn denominator_new_const_accepts_valid_const_context() {
    let n1: ReciprocalDenominator = ReciprocalDenominator::new_const(1);
    let n9: ReciprocalDenominator = ReciprocalDenominator::new_const(9);
    assert_eq!(n1.table_index(), 0);
    assert_eq!(n9.table_index(), RECIPROCAL_RUN_LEN - 1);
}

