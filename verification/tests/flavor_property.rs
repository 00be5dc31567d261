use oxideav_cook::flavor_property::{FLAVOR_PROPERTY_ID_COUNT, FLAVOR_PROPERTY_INTEGER_LEN, FLAVOR_PROPERTY_JUMP_TABLE_RVA, FlavorPropertyId, FlavorPropertyKind, MAX_FLAVOR_PROPERTY_ID, STRING_PROPERTY_IDS};
use oxideav_cook::Error;
#[test]
fn jump_table_has_twenty_one_cases() {
    assert_eq!(FLAVOR_PROPERTY_ID_COUNT, 21);
    assert_eq!(MAX_FLAVOR_PROPERTY_ID, 20);
    assert_eq!(FLAVOR_PROPERTY_JUMP_TABLE_RVA, 0x1be8);
}

#[test]
fn jump_table_rva_lies_in_text_section() {
    assert!((0x1000..0x7c3c).contains(&FLAVOR_PROPERTY_JUMP_TABLE_RVA));
}

#[test]
fn ids_zero_through_twenty_are_constructible() {
    for id in 0..=MAX_FLAVOR_PROPERTY_ID {
        let p = FlavorPropertyId::new(id).expect("0..=20 valid");
        assert_eq!(p.get(), id);
    }
}

#[test]
fn id_twenty_one_and_above_is_rejected() {
    for id in [21u8, 22, 50, 255] {
        assert_eq!(
            FlavorPropertyId::new(id),
            Err(Error::FlavorPropertyIdOutOfRange { got: id })
        );
    }
}

#[test]
fn cases_zero_four_seven_are_strings() {
    for id in STRING_PROPERTY_IDS {
        let p = FlavorPropertyId::new(id).unwrap();
        assert!(p.is_string(), "id {id} should be a string property");
        assert!(!p.is_integer());
        assert_eq!(p.kind(), FlavorPropertyKind::String);
        assert_eq!(p.fixed_len(), None);
    }
}

#[test]
fn every_other_case_is_a_length_four_integer() {
    for id in 0..=MAX_FLAVOR_PROPERTY_ID {
        if STRING_PROPERTY_IDS.contains(&id) {
            continue;
        }
        let p = FlavorPropertyId::new(id).unwrap();
        assert!(p.is_integer(), "id {id} should be an integer property");
        assert!(!p.is_string());
        assert_eq!(p.kind(), FlavorPropertyKind::Integer);
        assert_eq!(p.fixed_len(), Some(FLAVOR_PROPERTY_INTEGER_LEN));
        assert_eq!(p.fixed_len(), Some(4));
    }
}

#[test]
fn exactly_three_of_the_twenty_one_cases_are_strings() {
    let string_count = (0..=MAX_FLAVOR_PROPERTY_ID)
        .filter(|&id| FlavorPropertyId::new(id).unwrap().is_string())
        .count();
    assert_eq!(string_count, STRING_PROPERTY_IDS.len());
    assert_eq!(string_count, 3);
    let integer_count = (0..=MAX_FLAVOR_PROPERTY_ID)
        .filter(|&id| FlavorPropertyId::new(id).unwrap().is_integer())
        .count();
    assert_eq!(integer_count, 18);
    assert_eq!(
        string_count + integer_count,
        FLAVOR_PROPERTY_ID_COUNT as usize
    );
}

#[test]
fn string_property_ids_are_ascending_and_in_range() {
    let mut prev: Option<u8> = None;
    for id in STRING_PROPERTY_IDS {
        assert!(id <= MAX_FLAVOR_PROPERTY_ID);
        if let Some(p) = prev {
            assert!(id > p, "STRING_PROPERTY_IDS must be ascending");
        }
        prev = Some(id);
    }
}

#[test]
fn kind_fixed_len_is_consistent_with_id_fixed_len() {
    for id in 0..=MAX_FLAVOR_PROPERTY_ID {
        let p = FlavorPropertyId::new(id).unwrap();
        assert_eq!(p.fixed_len(), p.kind().fixed_len());
    }
}
