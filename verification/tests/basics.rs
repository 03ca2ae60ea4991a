use rgb121::codes::{FieldType, OwnedRightType, TransitionType};
use rgb121::error::{Status, Validity};
use rgb121::occurrences::{Bound, Occurrences, OccurrencesError};
use rgb121::typemap::TypeMap;
use rgb121::types::PrimitiveType;

#[test]
fn occurrence_presets() {
    assert_eq!(Occurrences::once(), Occurrences { min: 1, max: Bound::Limit(1) });
    assert_eq!(Occurrences::none_or_once(), Occurrences { min: 0, max: Bound::Limit(1) });
    assert_eq!(Occurrences::none_or_more(), Occurrences { min: 0, max: Bound::Unbounded });
    assert_eq!(Occurrences::once_or_more(), Occurrences { min: 1, max: Bound::Unbounded });
    assert_eq!(Occurrences::once().min_value(), 1);
    assert_eq!(Occurrences::once_or_more().max_value(), Bound::Unbounded);
}

#[test]
fn occurrence_ranges_are_not_empty() {
    assert_eq!(Occurrences::new(2, Bound::Limit(1)), None);
    assert_eq!(Occurrences::new(2, Bound::Limit(2)), Some(Occurrences { min: 2, max: Bound::Limit(2) }));
    assert_eq!(Occurrences::new(7, Bound::Unbounded), Some(Occurrences { min: 7, max: Bound::Unbounded }));
    assert!(Occurrences::once().is_wf());
    assert!(!Occurrences { min: 3, max: Bound::Limit(2) }.is_wf());
}

#[test]
fn occurrence_check_reports_the_range() {
    assert_eq!(Occurrences::once().check(1), Ok(()));
    assert_eq!(
        Occurrences::once().check(0),
        Err(OccurrencesError { min: 1, max: Bound::Limit(1), found: 0 })
    );
    assert_eq!(
        Occurrences::once().check(2),
        Err(OccurrencesError { min: 1, max: Bound::Limit(1), found: 2 })
    );
    assert_eq!(Occurrences::none_or_once().check(0), Ok(()));
    assert_eq!(Occurrences::none_or_more().check(70_000), Ok(()));
    assert_eq!(
        Occurrences::once_or_more().check(0),
        Err(OccurrencesError { min: 1, max: Bound::Unbounded, found: 0 })
    );
    assert_eq!(Occurrences::once_or_more().check(usize::MAX), Ok(()));
}

#[test]
fn occurrence_containment() {
    let wide = Occurrences::none_or_more();
    assert!(Occurrences::once().is_within(&wide));
    assert!(Occurrences::once().is_within(&Occurrences::once_or_more()));
    assert!(!wide.is_within(&Occurrences::once()));
    assert!(!Occurrences::none_or_once().is_within(&Occurrences::once()));
    assert!(!Occurrences::once_or_more().is_within(&Occurrences::once()));
    assert!(Bound::Limit(3).is_at_most(&Bound::Limit(3)));
    assert!(!Bound::Unbounded.is_at_most(&Bound::Limit(u32::MAX)));
}

#[test]
fn type_codes_are_stable() {
    assert_eq!(u16::from(FieldType::Name), 0x01);
    assert_eq!(u16::from(FieldType::RicardianContract), 0x02);
    assert_eq!(u16::from(FieldType::Precision), 0x03);
    assert_eq!(u16::from(FieldType::Timestamp), 0x04);
    assert_eq!(u16::from(FieldType::Description), 0x05);
    assert_eq!(u16::from(FieldType::Data), 0x10);
    assert_eq!(u16::from(FieldType::DataFormat), 0x11);
    assert_eq!(u16::from(FieldType::IssuedSupply), 0xA0);
    assert_eq!(u16::from(FieldType::ParentId), 0xC3);
    assert_eq!(u16::from(OwnedRightType::Assets), 0xA1);
    assert_eq!(u16::from(OwnedRightType::Engraving), 0xA2);
    assert_eq!(u16::from(TransitionType::Transfer), 0x0000);
    assert_eq!(u16::from(TransitionType::Engraving), 0x10A4);
    assert_eq!(u16::from(TransitionType::Issue), 0x10AF);
}

#[test]
fn type_codes_are_found_again() {
    assert_eq!(FieldType::from_code(0xA0), Some(FieldType::IssuedSupply));
    assert_eq!(FieldType::from_code(0xA1), None);
    assert_eq!(OwnedRightType::from_code(0xA1), Some(OwnedRightType::Assets));
    assert_eq!(OwnedRightType::from_code(0), None);
    assert_eq!(TransitionType::from_code(0), Some(TransitionType::Transfer));
    assert_eq!(TransitionType::from_code(0x10AF), Some(TransitionType::Issue));
    assert_eq!(TransitionType::from_code(1), None);
    assert_eq!(PrimitiveType::from_code(0xFE), Some(PrimitiveType::AsciiChar));
    assert_eq!(PrimitiveType::from_code(0x08), None);
    assert_eq!(PrimitiveType::I64.code(), 0x13);
}

#[test]
fn type_map_keeps_order_and_replaces() {
    let mut map: TypeMap<u8> = TypeMap::new();
    assert_eq!(map.len(), 0);
    assert_eq!(map.insert(7, 1), None);
    assert_eq!(map.insert(3, 2), None);
    assert_eq!(map.insert(9, 3), None);
    assert_eq!(map.insert(7, 4), Some(1));
    assert_eq!(map.entries, vec![(3, 2), (7, 4), (9, 3)]);
    assert_eq!(map.get(7), Some(&4));
    assert_eq!(map.get(8), None);
    assert!(map.contains_key(9));
    assert!(!map.contains_key(0));
    assert_eq!(map.len(), 3);
}

#[test]
fn status_validity() {
    assert_eq!(Status::new().validity(), Validity::Valid);
    assert_eq!(
        Status::with_failure(rgb121::Error::ArithmeticOverflow).validity(),
        Validity::Invalid
    );
}
