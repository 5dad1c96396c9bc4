use ebml::{
    BinaryRangeRestriction, BinaryValue, DateRangeRestriction, DateValue, IntRangeRestriction,
    IntValue, Intersecton, RangeSet, Restriction, StringRangeRestriction, StringValue,
    UintRangeRestriction, UintValue, Union, Value,
};

#[test]
fn int_ranges() {
    let r = IntRangeRestriction::Closed { min: -5, max: 5 };
    assert!(r.matches(&IntValue::from_i64(-5)));
    assert!(r.matches(&IntValue::from_i64(0)));
    assert!(r.matches(&IntValue::from_i64(5)));
    assert!(!r.matches(&IntValue::from_i64(6)));

    assert!(IntRangeRestriction::Single(7).matches(&IntValue::from_i64(7)));
    assert!(!IntRangeRestriction::Single(7).matches(&IntValue::from_i64(8)));
    assert!(IntRangeRestriction::OpenLeft { max: 3 }.matches(&IntValue::from_i64(i64::MIN)));
    assert!(IntRangeRestriction::OpenRight { min: 3 }.matches(&IntValue::from_i64(i64::MAX)));
}

#[test]
fn uint_ranges() {
    let r = UintRangeRestriction::Closed { min: 2, max: 4 };
    assert!(r.matches(&UintValue::from_u64(2)));
    assert!(!r.matches(&UintValue::from_u64(5)));
    assert!(UintRangeRestriction::OpenRight { min: 1 }.matches(&UintValue::from_u64(u64::MAX)));
    assert!(!UintRangeRestriction::OpenRight { min: 1 }.matches(&UintValue::from_u64(0)));
}

#[test]
fn date_ranges() {
    let r = DateRangeRestriction::Closed { min: -10, max: 10 };
    assert!(r.matches(&DateValue::from_nanos(0)));
    assert!(!r.matches(&DateValue::from_nanos(11)));
}

#[test]
fn string_ranges_check_every_character() {
    let r = StringRangeRestriction::Closed { min: ' ', max: '~' };
    assert!(r.matches(&StringValue::from_string("printable".to_string())));
    assert!(!r.matches(&StringValue::from_string("tab\there".to_string())));
    assert!(r.matches(&StringValue::from_string(String::new())));
}

#[test]
fn range_sets_are_unions() {
    let set = RangeSet::Int(vec![
        IntRangeRestriction::Single(1),
        IntRangeRestriction::Closed { min: 10, max: 20 },
    ]);
    assert!(set.matches(&Value::Int(IntValue::from_i64(1))));
    assert!(set.matches(&Value::Int(IntValue::from_i64(15))));
    assert!(!set.matches(&Value::Int(IntValue::from_i64(2))));
    // A value of another kind never matches.
    assert!(!set.matches(&Value::Uint(UintValue::from_u64(1))));

    // Binary ranges apply byte by byte.
    let bytes = RangeSet::Binary(vec![BinaryRangeRestriction::Closed { min: 0x20, max: 0x7E }]);
    assert!(bytes.matches(&Value::Binary(BinaryValue::from_vec(b"ok".to_vec()))));
    assert!(!bytes.matches(&Value::Binary(BinaryValue::from_vec(vec![0x1F]))));
}

#[test]
fn intersections_and_unions_compose() {
    let low = RangeSet::Uint(vec![UintRangeRestriction::Closed { min: 0, max: 10 }]);
    let even_edge = RangeSet::Uint(vec![
        UintRangeRestriction::Single(0),
        UintRangeRestriction::Single(10),
    ]);
    let both = Restriction::All(Intersecton { parts: vec![low.clone(), even_edge.clone()] });
    assert!(both.matches(&Value::Uint(UintValue::from_u64(10))));
    assert!(!both.matches(&Value::Uint(UintValue::from_u64(5))));

    let either = Restriction::Any(Union { parts: vec![low, even_edge] });
    assert!(either.matches(&Value::Uint(UintValue::from_u64(5))));
    assert!(!either.matches(&Value::Uint(UintValue::from_u64(11))));
}
