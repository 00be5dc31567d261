use oxideav_cook::category::{CATEGORY_COUNT, CategoryIndex, MAX_CATEGORY_INDEX};
use oxideav_cook::Error;
#[test]
fn category_count_and_max_match_meta() {
    assert_eq!(CATEGORY_COUNT, 7);
    assert_eq!(MAX_CATEGORY_INDEX, 6);
}

#[test]
fn category_index_accepts_valid_range() {
    for cat in 0..=MAX_CATEGORY_INDEX {
        let idx = CategoryIndex::new(cat).unwrap();
        assert_eq!(idx.get(), cat);
        assert_eq!(idx.as_usize(), cat as usize);
    }
}

#[test]
fn category_index_rejects_out_of_range() {
    for cat in (MAX_CATEGORY_INDEX + 1)..=u8::MAX {
        let err = CategoryIndex::new(cat).unwrap_err();
        assert_eq!(err, Error::CategoryOutOfRange { got: cat });
        if cat == u8::MAX {
            break;
        }
    }
    assert_eq!(
        CategoryIndex::new(7).unwrap_err(),
        Error::CategoryOutOfRange { got: 7 }
    );
}

#[test]
fn new_const_accepts_valid_const_context() {
    let c0: CategoryIndex = CategoryIndex::new_const(0);
    let c6: CategoryIndex = CategoryIndex::new_const(6);
    assert_eq!(c0.get(), 0);
    assert_eq!(c6.get(), 6);
}

