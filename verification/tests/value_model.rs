use ebml::{BinaryValue, DateTime, DateValue, FloatValue, IntValue, StringValue, UintValue};

use chrono::TimeZone;

#[test]
fn from_8_bit_unsigned_vals() {
    let x: UintValue = UintValue::from_u8(0);
    assert_eq!(0, x.get_size().get_value().unwrap());
    assert_eq!(0, x.to_repr());

    let x: UintValue = UintValue::from_u8(1);
    assert_eq!(1, x.get_size().get_value().unwrap());
    assert_eq!(1, x.to_repr());
}

#[test]
fn from_8_bit_signed_vals() {
    let x: IntValue = IntValue::from_i8(0);
    assert_eq!(0, x.get_size().get_value().unwrap());
    assert_eq!(0, x.to_repr());

    let x: IntValue = IntValue::from_i8(1);
    assert_eq!(1, x.get_size().get_value().unwrap());
    assert_eq!(1, x.to_repr());

    let x: IntValue = IntValue::from_i8(-1);
    assert_eq!(1, x.get_size().get_value().unwrap());
    assert_eq!(-1, x.to_repr());
}

#[test]
fn from_16_bit_unsigned_vals() {
    let x: UintValue = UintValue::from_u16(0);
    assert_eq!(0, x.get_size().get_value().unwrap());
    assert_eq!(0, x.to_repr());

    let x: UintValue = UintValue::from_u16(1);
    assert_eq!(1, x.get_size().get_value().unwrap());
    assert_eq!(1, x.to_repr());

    let x: UintValue = UintValue::from_u16(256);
    assert_eq!(2, x.get_size().get_value().unwrap());
    assert_eq!(256, x.to_repr());
}

#[test]
fn from_16_bit_signed_vals() {
    let x: IntValue = IntValue::from_i16(0);
    assert_eq!(0, x.get_size().get_value().unwrap());
    assert_eq!(0, x.to_repr());

    let x: IntValue = IntValue::from_i16(1);
    assert_eq!(1, x.get_size().get_value().unwrap());
    assert_eq!(1, x.to_repr());

    let x: IntValue = IntValue::from_i16(-1);
    assert_eq!(1, x.get_size().get_value().unwrap());
    assert_eq!(-1, x.to_repr());

    let x: IntValue = IntValue::from_i16(-129);
    assert_eq!(2, x.get_size().get_value().unwrap());
    assert_eq!(-129, x.to_repr());

    let x: IntValue = IntValue::from_i16(128);
    assert_eq!(2, x.get_size().get_value().unwrap());
    assert_eq!(128, x.to_repr());
}

#[test]
fn from_32_bit_unsigned_vals() {
    let x: UintValue = UintValue::from_u32(0);
    assert_eq!(0, x.get_size().get_value().unwrap());
    assert_eq!(0, x.to_repr());

    let x: UintValue = UintValue::from_u32(1);
    assert_eq!(1, x.get_size().get_value().unwrap());
    assert_eq!(1, x.to_repr());

    let x: UintValue = UintValue::from_u32(256);
    assert_eq!(2, x.get_size().get_value().unwrap());
    assert_eq!(256, x.to_repr());

    let x: UintValue = UintValue::from_u32(65_536);
    assert_eq!(3, x.get_size().get_value().unwrap());
    assert_eq!(65_536, x.to_repr());

    let x: UintValue = UintValue::from_u32(16_777_216);
    assert_eq!(4, x.get_size().get_value().unwrap());
    assert_eq!(16_777_216, x.to_repr());
}

#[test]
fn from_32_bit_signed_vals() {
    let x: IntValue = IntValue::from_i32(0);
    assert_eq!(0, x.get_size().get_value().unwrap());
    assert_eq!(0, x.to_repr());

    let x: IntValue = IntValue::from_i32(1);
    assert_eq!(1, x.get_size().get_value().unwrap());
    assert_eq!(1, x.to_repr());

    let x: IntValue = IntValue::from_i32(-1);
    assert_eq!(1, x.get_size().get_value().unwrap());
    assert_eq!(-1, x.to_repr());

    let x: IntValue = IntValue::from_i32(-129);
    assert_eq!(2, x.get_size().get_value().unwrap());
    assert_eq!(-129, x.to_repr());

    let x: IntValue = IntValue::from_i32(128);
    assert_eq!(2, x.get_size().get_value().unwrap());
    assert_eq!(128, x.to_repr());

    let x: IntValue = IntValue::from_i32(-32_769);
    assert_eq!(3, x.get_size().get_value().unwrap());
    assert_eq!(-32_769, x.to_repr());

    let x: IntValue = IntValue::from_i32(32_768);
    assert_eq!(3, x.get_size().get_value().unwrap());
    assert_eq!(32_768, x.to_repr());

    let x: IntValue = IntValue::from_i32(-8_388_609);
    assert_eq!(4, x.get_size().get_value().unwrap());
    assert_eq!(-8_388_609, x.to_repr());

    let x: IntValue = IntValue::from_i32(8_388_608);
    assert_eq!(4, x.get_size().get_value().unwrap());
    assert_eq!(8_388_608, x.to_repr());
}

#[test]
fn from_64_bit_unsigned_vals() {
    let x: UintValue = UintValue::from_u64(0);
    assert_eq!(0, x.get_size().get_value().unwrap());
    assert_eq!(0, x.to_repr());

    let x: UintValue = UintValue::from_u64(1);
    assert_eq!(1, x.get_size().get_value().unwrap());
    assert_eq!(1, x.to_repr());

    let x: UintValue = UintValue::from_u64(256);
    assert_eq!(2, x.get_size().get_value().unwrap());
    assert_eq!(256, x.to_repr());

    let x: UintValue = UintValue::from_u64(65_536);
    assert_eq!(3, x.get_size().get_value().unwrap());
    assert_eq!(65_536, x.to_repr());

    let x: UintValue = UintValue::from_u64(16_777_216);
    assert_eq!(4, x.get_size().get_value().unwrap());
    assert_eq!(16_777_216, x.to_repr());

    let x: UintValue = UintValue::from_u64(4_294_967_296);
    assert_eq!(5, x.get_size().get_value().unwrap());
    assert_eq!(4_294_967_296, x.to_repr());

    let x: UintValue = UintValue::from_u64(1_099_511_627_776);
    assert_eq!(6, x.get_size().get_value().unwrap());
    assert_eq!(1_099_511_627_776, x.to_repr());

    let x: UintValue = UintValue::from_u64(281_474_976_710_656);
    assert_eq!(7, x.get_size().get_value().unwrap());
    assert_eq!(281_474_976_710_656, x.to_repr());

    let x: UintValue = UintValue::from_u64(72_057_594_037_927_936);
    assert_eq!(8, x.get_size().get_value().unwrap());
    assert_eq!(72_057_594_037_927_936, x.to_repr());
}

#[test]
fn from_64_bit_signed_vals() {
    let x: IntValue = IntValue::from_i64(0);
    assert_eq!(0, x.get_size().get_value().unwrap());
    assert_eq!(0, x.to_repr());

    let x: IntValue = IntValue::from_i64(1);
    assert_eq!(1, x.get_size().get_value().unwrap());
    assert_eq!(1, x.to_repr());

    let x: IntValue = IntValue::from_i64(-1);
    assert_eq!(1, x.get_size().get_value().unwrap());
    assert_eq!(-1, x.to_repr());

    let x: IntValue = IntValue::from_i64(-129);
    assert_eq!(2, x.get_size().get_value().unwrap());
    assert_eq!(-129, x.to_repr());

    let x: IntValue = IntValue::from_i64(128);
    assert_eq!(2, x.get_size().get_value().unwrap());
    assert_eq!(128, x.to_repr());

    let x: IntValue = IntValue::from_i64(-32_769);
    assert_eq!(3, x.get_size().get_value().unwrap());
    assert_eq!(-32_769, x.to_repr());

    let x: IntValue = IntValue::from_i64(32_768);
    assert_eq!(3, x.get_size().get_value().unwrap());
    assert_eq!(32_768, x.to_repr());

    let x: IntValue = IntValue::from_i64(-8_388_609);
    assert_eq!(4, x.get_size().get_value().unwrap());
    assert_eq!(-8_388_609, x.to_repr());

    let x: IntValue = IntValue::from_i32(8_388_608);
    assert_eq!(4, x.get_size().get_value().unwrap());
    assert_eq!(8_388_608, x.to_repr());

    let x: IntValue = IntValue::from_i64(-2_147_483_649);
    assert_eq!(5, x.get_size().get_value().unwrap());
    assert_eq!(-2_147_483_649, x.to_repr());

    let x: IntValue = IntValue::from_i64(2_147_483_648);
    assert_eq!(5, x.get_size().get_value().unwrap());
    assert_eq!(2_147_483_648, x.to_repr());

    let x: IntValue = IntValue::from_i64(-549_755_813_889);
    assert_eq!(6, x.get_size().get_value().unwrap());
    assert_eq!(-549_755_813_889, x.to_repr());

    let x: IntValue = IntValue::from_i64(549_755_813_888);
    assert_eq!(6, x.get_size().get_value().unwrap());
    assert_eq!(549_755_813_888, x.to_repr());

    let x: IntValue = IntValue::from_i64(-140_737_488_355_329);
    assert_eq!(7, x.get_size().get_value().unwrap());
    assert_eq!(-140_737_488_355_329, x.to_repr());

    let x: IntValue = IntValue::from_i64(140_737_488_355_328);
    assert_eq!(7, x.get_size().get_value().unwrap());
    assert_eq!(140_737_488_355_328, x.to_repr());

    let x: IntValue = IntValue::from_i64(-36_028_797_018_963_969);
    assert_eq!(8, x.get_size().get_value().unwrap());
    assert_eq!(-36_028_797_018_963_969, x.to_repr());

    let x: IntValue = IntValue::from_i64(36_028_797_018_963_968);
    assert_eq!(8, x.get_size().get_value().unwrap());
    assert_eq!(36_028_797_018_963_968, x.to_repr());
}

#[test]
fn from_string_vals() {
    let x: StringValue = StringValue::from_string("a".to_string());
    assert_eq!(1, x.get_size().get_value().unwrap());
    assert_eq!("a".to_string(), x.to_repr());

    let x: StringValue = StringValue::from_string("abcd".to_string());
    assert_eq!(4, x.get_size().get_value().unwrap());
    assert_eq!("abcd".to_string(), x.to_repr());

    let x: StringValue = StringValue::with_padding("asdfg".into(), 100);
    assert_eq!(105, x.get_size().get_value().unwrap());
    assert_eq!("asdfg".to_string(), x.to_repr());
}

#[test]
fn from_binary_vals() {
    let x: BinaryValue = BinaryValue::from_vec(vec![0x01, 0x02]);
    assert_eq!(2, x.get_size().get_value().unwrap());
    assert_eq!(vec![0x01, 0x02], x.to_repr());
}

#[test]
fn from_datetime() {
    let sample = DateTime::new(2017, 4, 20, 4, 20, 0, 0).unwrap();
    let x: DateValue = DateValue::from_datetime(&sample).unwrap();
    assert_eq!(8, x.get_size().get_value().unwrap());
    assert_eq!(sample, x.to_datetime());

    // Cross-check the calendar arithmetic against an independent
    // implementation: the count of nanoseconds since the Unix epoch.
    let reference = chrono::Utc.with_ymd_and_hms(2017, 4, 20, 4, 20, 0).unwrap();
    assert_eq!(reference.timestamp_nanos_opt().unwrap(), x.to_repr());
}

#[test]
fn from_unix_counts() {
    // 2001-01-01T00:00:00Z is the millennium epoch itself.
    let x = DateValue::from_unix_seconds(978_307_200).unwrap();
    assert_eq!(0, x.nanos_since_millennium());
    let x = DateValue::from_unix_millis(978_307_200_000).unwrap();
    assert_eq!(0, x.nanos_since_millennium());

    // One second later.
    let x = DateValue::from_unix_seconds(978_307_201).unwrap();
    assert_eq!(1_000_000_000, x.nanos_since_millennium());

    // Out of range.
    assert!(DateValue::from_unix_seconds(i64::MAX).is_none());
    assert!(DateValue::from_unix_millis(i64::MIN).is_none());
}

#[test]
fn int_values_from_bytes_preserve_width() {
    let x = IntValue::from_bytes(&vec![0x00, 0x00, 0x05]).unwrap();
    assert_eq!(3, x.get_size().get_value().unwrap());
    assert_eq!(5, x.to_repr());

    let x = IntValue::from_bytes(&vec![0xFF]).unwrap();
    assert_eq!(-1, x.to_repr());

    let x = IntValue::from_bytes(&vec![0x80, 0x00]).unwrap();
    assert_eq!(-32_768, x.to_repr());

    let x = IntValue::from_bytes(&vec![]).unwrap();
    assert_eq!(0, x.to_repr());
    assert_eq!(0, x.get_size().get_value().unwrap());

    assert!(IntValue::from_bytes(&vec![0; 9]).is_none());

    let x = UintValue::from_bytes(&vec![0xFF, 0xFF]).unwrap();
    assert_eq!(0xFFFF, x.to_repr());
    assert_eq!(2, x.get_size().get_value().unwrap());

    assert!(UintValue::from_bytes(&vec![0; 9]).is_none());
}

#[test]
fn float_values_hold_their_bytes() {
    let x = FloatValue::from_bytes(vec![]).unwrap();
    assert_eq!(0, x.get_size().get_value().unwrap());

    let x = FloatValue::from_bytes(vec![0x3F, 0x80, 0x00, 0x00]).unwrap();
    assert_eq!(4, x.get_size().get_value().unwrap());
    assert_eq!(1.0f32, f32::from_bits(u32::from_be_bytes([0x3F, 0x80, 0x00, 0x00])));
    assert_eq!(vec![0x3F, 0x80, 0x00, 0x00], x.to_repr());

    let x = FloatValue::from_bytes(vec![0u8; 10]).unwrap();
    assert_eq!(10, x.get_size().get_value().unwrap());

    assert!(FloatValue::from_bytes(vec![0u8; 3]).is_none());
}

#[test]
fn calendar_rules_match_the_reference() {
    // Century leap-year rules: 2000 was a leap year, 1900 was not.
    assert!(DateTime::new(2000, 2, 29, 0, 0, 0, 0).is_some());
    assert!(DateTime::new(1900, 2, 29, 0, 0, 0, 0).is_none());
    assert!(DateTime::new(2023, 4, 31, 0, 0, 0, 0).is_none());

    // Cross-check several instants against an independent implementation.
    let samples: Vec<(i32, u8, u8, u8, u8, u8)> = vec![
        (2000, 2, 29, 23, 59, 59),
        (1995, 4, 18, 4, 20, 0),
        (1776, 6, 4, 9, 21, 55),
        (2100, 3, 1, 0, 0, 0),
    ];
    for &(y, mo, d, h, mi, sec) in samples.iter() {
        let dt = DateTime::new(y, mo, d, h, mi, sec, 0).unwrap();
        let x = DateValue::from_datetime(&dt).unwrap();
        let reference = chrono::Utc
            .with_ymd_and_hms(y, mo as u32, d as u32, h as u32, mi as u32, sec as u32)
            .unwrap();
        assert_eq!(reference.timestamp_nanos_opt().unwrap(), x.to_repr());
    }
}

#[test]
fn datetime_from_nanos_round_trips() {
    let samples: Vec<i64> = vec![
        0,
        1,
        -1,
        1234,
        86_400_000_000_000,
        -86_400_000_000_000,
        513_777_600_000_000_000,
        i64::MAX,
        i64::MIN,
    ];
    for &n in samples.iter() {
        let dt = DateTime::from_nanos(n);
        assert_eq!(Some(n), dt.nanos_since_millennium());
    }
    let dt = DateTime::from_nanos(0);
    assert_eq!(DateTime::new(2001, 1, 1, 0, 0, 0, 0).unwrap(), dt);
    let dt = DateTime::from_nanos(-1);
    assert_eq!(DateTime::new(2000, 12, 31, 23, 59, 59, 999_999_999).unwrap(), dt);
}
