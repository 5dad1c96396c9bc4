use ebml::{EbmlError, Id, PeekableReader};

#[test]
fn class_a() {
    assert!(Id::new_class_a(0x00).is_none());
    assert_eq!(1, Id::new_class_a(0x01).unwrap().get_width());
    assert_eq!(1, Id::new_class_a(0x15).unwrap().get_width());
    assert_eq!(1, Id::new_class_a(0x7E).unwrap().get_width());
    assert!(Id::new_class_a(0x7F).is_none());
    assert!(Id::new_class_a(0xFF).is_none());
}

#[test]
fn class_b() {
    assert!(Id::new_class_b(0x00).is_none());
    assert!(Id::new_class_b(0x7E).is_none());
    assert_eq!(2, Id::new_class_b(0x7F).unwrap().get_width());
    assert_eq!(2, Id::new_class_b(0x05A4).unwrap().get_width());
    assert_eq!(2, Id::new_class_b(0x3FFE).unwrap().get_width());
    assert!(Id::new_class_b(0x3FFF).is_none());
    assert!(Id::new_class_b(0xFFFF).is_none());
}

#[test]
fn class_c() {
    assert!(Id::new_class_c(0x00).is_none());
    assert!(Id::new_class_c(0x3FFE).is_none());
    assert_eq!(3, Id::new_class_c(0x3FFF).unwrap().get_width());
    assert_eq!(3, Id::new_class_c(0x001D_B5C3).unwrap().get_width());
    assert_eq!(3, Id::new_class_c(0x001F_FFFE).unwrap().get_width());
    assert!(Id::new_class_c(0x001F_FFFF).is_none());
    assert!(Id::new_class_c(0xFFFF_FFFF).is_none());
}

#[test]
fn class_d() {
    assert!(Id::new_class_d(0x00).is_none());
    assert!(Id::new_class_d(0x001F_FFFE).is_none());
    assert_eq!(4, Id::new_class_d(0x001F_FFFF).unwrap().get_width());
    assert_eq!(4, Id::new_class_d(0x0C0F_FEE0).unwrap().get_width());
    assert_eq!(4, Id::new_class_d(0x0FFF_FFFE).unwrap().get_width());
    assert!(Id::new_class_d(0x0FFF_FFFF).is_none());
    assert!(Id::new_class_d(0xFFFF_FFFF).is_none());
}

#[test]
fn id_class_a() {
    assert!(Id::new_class_a(0x00).is_none());
    assert_eq!(1, Id::new_class_a(0x01).unwrap().get_width());
    assert_eq!(1, Id::new_class_a(0x15).unwrap().get_width());
    assert_eq!(1, Id::new_class_a(0x7E).unwrap().get_width());
    assert!(Id::new_class_a(0x7F).is_none());
    assert!(Id::new_class_a(0xFF).is_none());
}

#[test]
fn id_class_b() {
    assert!(Id::new_class_b(0x00).is_none());
    assert!(Id::new_class_b(0x7E).is_none());
    assert_eq!(2, Id::new_class_b(0x7F).unwrap().get_width());
    assert_eq!(2, Id::new_class_b(0x05A4).unwrap().get_width());
    assert_eq!(2, Id::new_class_b(0x3FFE).unwrap().get_width());
    assert!(Id::new_class_b(0x3FFF).is_none());
    assert!(Id::new_class_b(0xFFFF).is_none());
}

#[test]
fn id_class_c() {
    assert!(Id::new_class_c(0x00).is_none());
    assert!(Id::new_class_c(0x3FFE).is_none());
    assert_eq!(3, Id::new_class_c(0x3FFF).unwrap().get_width());
    assert_eq!(3, Id::new_class_c(0x001D_B5C3).unwrap().get_width());
    assert_eq!(3, Id::new_class_c(0x001F_FFFE).unwrap().get_width());
    assert!(Id::new_class_c(0x001F_FFFF).is_none());
    assert!(Id::new_class_c(0xFFFF_FFFF).is_none());
}

#[test]
fn id_class_d() {
    assert!(Id::new_class_d(0x00).is_none());
    assert!(Id::new_class_d(0x001F_FFFE).is_none());
    assert_eq!(4, Id::new_class_d(0x001F_FFFF).unwrap().get_width());
    assert_eq!(4, Id::new_class_d(0x0C0F_FEE0).unwrap().get_width());
    assert_eq!(4, Id::new_class_d(0x0FFF_FFFE).unwrap().get_width());
    assert!(Id::new_class_d(0x0FFF_FFFF).is_none());
    assert!(Id::new_class_d(0xFFFF_FFFF).is_none());
}

#[test]
fn id_from_encoded() {
    let id = Id::from_encoded(0x1A45_DFA3).unwrap();
    assert_eq!(4, id.get_width());
    assert_eq!(0x0A45_DFA3, id.get_value());

    let id = Id::from_encoded(0x4282).unwrap();
    assert_eq!(2, id.get_width());
    assert_eq!(0x0282, id.get_value());

    let id = Id::from_encoded(0xEC).unwrap();
    assert_eq!(1, id.get_width());
    assert_eq!(0x6C, id.get_value());

    // Values whose data bits are all zeros or all ones are not IDs.
    assert!(Id::from_encoded(0x80).is_none());
    assert!(Id::from_encoded(0xFF).is_none());
    assert!(Id::from_encoded(0x40_00).is_none());
    assert!(Id::from_encoded(0x7F_FF).is_none());
    assert!(Id::from_encoded(0x00).is_none());
}

#[test]
fn id_load_consumes_encoded_ids() {
    let mut reader = PeekableReader::new(vec![0x1A, 0x45, 0xDF, 0xA3, 0x42, 0x82]);
    let id = Id::load(&mut reader).unwrap();
    assert_eq!(0x0A45_DFA3, id.get_value());
    let id = Id::load(&mut reader).unwrap();
    assert_eq!(0x0282, id.get_value());

    // The unknown-size sentinel and widths above four are not IDs.
    let mut reader = PeekableReader::new(vec![0xFF]);
    assert_eq!(Err(EbmlError::IdOutOfRange), Id::load(&mut reader).map(|_| ()));
    let mut reader = PeekableReader::new(vec![0x08, 0x01, 0x02, 0x03, 0x04]);
    assert_eq!(Err(EbmlError::IdOutOfRange), Id::load(&mut reader).map(|_| ()));
}
