use ebml::{PeekableReader, Size};

#[test]
fn ord_eq() {
    let x: Size = Size::from_u8(4);
    let y: Size = Size::from_u32(5);
    let z = Size::unknown();

    assert_eq!(x, x);
    assert_ne!(x, y);
    assert_ne!(x, z);
    assert_ne!(y, z);
    assert_eq!(z, z);

    assert!(x < y);
    assert!(x <= y);
    assert!(y > x);
    assert!(y >= x);
    assert!(x >= x);
    assert!(x <= x);
    assert!(y <= y);
    assert!(y >= y);

    assert!(!(z > x));
    assert!(!(z >= x));
    assert!(!(x > z));
    assert!(!(x >= z));
    assert!(!(z > y));
    assert!(!(z >= y));
    assert!(!(y > z));
    assert!(!(y >= z));
}

#[test]
fn unknown() {
    let x = Size::unknown();
    assert_eq!(0b1111_1111, x.head());
    assert_eq!(1, x.get_width());
    assert!(x.get_value().is_none());
}

#[test]
fn from_u8() {
    let x: Size = Size::from_u8(0);
    assert_eq!(0b1000_0000, x.head());
    assert_eq!(1, x.get_width());
    assert_eq!(0, x.get_value().unwrap());

    let x: Size = Size::from_u8(1);
    assert_eq!(0b1000_0001, x.head());
    assert_eq!(1, x.get_width());
    assert_eq!(1, x.get_value().unwrap());

    let x: Size = Size::from_u8(127);
    assert_eq!(0b0100_0000, x.head());
    assert_eq!(2, x.get_width());
    assert_eq!(0b0111_1111, x.tail()[0]);
    assert_eq!(127, x.get_value().unwrap());

    let x: Size = Size::from_u8(128);
    assert_eq!(0b0100_0000, x.head());
    assert_eq!(2, x.get_width());
    assert_eq!(0b1000_0000, x.tail()[0]);
    assert_eq!(128, x.get_value().unwrap());

    let x: Size = Size::from_u8(233);
    assert_eq!(0b0100_0000, x.head());
    assert_eq!(2, x.get_width());
    assert_eq!(0b1110_1001, x.tail()[0]);
    assert_eq!(233, x.get_value().unwrap());
}

#[test]
fn from_u16() {
    let x: Size = Size::from_u16(4);
    assert_eq!(0b1000_0100, x.head());
    assert_eq!(1, x.get_width());
    assert_eq!(4, x.get_value().unwrap());

    let x: Size = Size::from_u16(127);
    assert_eq!(0b0100_0000, x.head());
    assert_eq!(2, x.get_width());
    assert_eq!(0b0111_1111, x.tail()[0]);
    assert_eq!(127, x.get_value().unwrap());

    let x: Size = Size::from_u16(4000);
    assert_eq!(0b0100_1111, x.head());
    assert_eq!(2, x.get_width());
    assert_eq!(0b1010_0000, x.tail()[0]);
    assert_eq!(4000, x.get_value().unwrap());

    let x: Size = Size::from_u16(16383);
    assert_eq!(0b0010_0000, x.head());
    assert_eq!(3, x.get_width());
    assert_eq!(0b0011_1111, x.tail()[0]);
    assert_eq!(0b1111_1111, x.tail()[1]);
    assert_eq!(16383, x.get_value().unwrap());

    let x: Size = Size::from_u16(65534);
    assert_eq!(0b0010_0000, x.head());
    assert_eq!(3, x.get_width());
    assert_eq!(0b1111_1111, x.tail()[0]);
    assert_eq!(0b1111_1110, x.tail()[1]);
    assert_eq!(65534, x.get_value().unwrap());
}

#[test]
fn from_u32() {
    let x: Size = Size::from_u32(4);
    assert_eq!(0b1000_0100, x.head());
    assert_eq!(1, x.get_width());
    assert_eq!(4, x.get_value().unwrap());

    let x: Size = Size::from_u32(8_323_591);
    assert_eq!(0b0001_0000, x.head());
    assert_eq!(4, x.get_width());
    assert_eq!(0b0111_1111, x.tail()[0]);
    assert_eq!(0b0000_0010, x.tail()[1]);
    assert_eq!(0b0000_0111, x.tail()[2]);
    assert_eq!(8_323_591, x.get_value().unwrap());

    let x: Size = Size::from_u32(127);
    assert_eq!(0b0100_0000, x.head());
    assert_eq!(2, x.get_width());
    assert_eq!(0b0111_1111, x.tail()[0]);
    assert_eq!(127, x.get_value().unwrap());

    let x: Size = Size::from_u32(16_383);
    assert_eq!(0b0010_0000, x.head());
    assert_eq!(3, x.get_width());
    assert_eq!(0b0011_1111, x.tail()[0]);
    assert_eq!(0b1111_1111, x.tail()[1]);
    assert_eq!(16_383, x.get_value().unwrap());

    let x: Size = Size::from_u32(2_097_151);
    assert_eq!(0b0001_0000, x.head());
    assert_eq!(4, x.get_width());
    assert_eq!(0b0001_1111, x.tail()[0]);
    assert_eq!(0b1111_1111, x.tail()[1]);
    assert_eq!(0b1111_1111, x.tail()[2]);
    assert_eq!(2_097_151, x.get_value().unwrap());

    let x: Size = Size::from_u32(268_435_455);
    assert_eq!(0b0000_1000, x.head());
    assert_eq!(5, x.get_width());
    assert_eq!(0b0000_1111, x.tail()[0]);
    assert_eq!(0b1111_1111, x.tail()[1]);
    assert_eq!(0b1111_1111, x.tail()[2]);
    assert_eq!(0b1111_1111, x.tail()[3]);
    assert_eq!(268_435_455, x.get_value().unwrap());
}

#[test]
fn from_u64() {
    let x = Size::from_u64(4).unwrap();
    assert_eq!(0b1000_0100, x.head());
    assert_eq!(1, x.get_width());
    assert_eq!(4, x.get_value().unwrap());

    let x = Size::from_u64(3_423_912_007_635).unwrap();
    assert_eq!(0b0000_0111, x.head());
    assert_eq!(6, x.get_width());
    assert_eq!(0b0001_1101, x.tail()[0]);
    assert_eq!(0b0011_0001, x.tail()[1]);
    assert_eq!(0b0000_1111, x.tail()[2]);
    assert_eq!(0b0001_0111, x.tail()[3]);
    assert_eq!(0b1101_0011, x.tail()[4]);
    assert_eq!(3_423_912_007_635, x.get_value().unwrap());

    let x = Size::from_u64(127).unwrap();
    assert_eq!(0b0100_0000, x.head());
    assert_eq!(2, x.get_width());
    assert_eq!(0b0111_1111, x.tail()[0]);
    assert_eq!(127, x.get_value().unwrap());

    let x = Size::from_u64(16_383).unwrap();
    assert_eq!(0b0010_0000, x.head());
    assert_eq!(3, x.get_width());
    assert_eq!(0b0011_1111, x.tail()[0]);
    assert_eq!(0b1111_1111, x.tail()[1]);
    assert_eq!(16_383, x.get_value().unwrap());

    let x = Size::from_u64(2_097_151).unwrap();
    assert_eq!(0b0001_0000, x.head());
    assert_eq!(4, x.get_width());
    assert_eq!(0b0001_1111, x.tail()[0]);
    assert_eq!(0b1111_1111, x.tail()[1]);
    assert_eq!(0b1111_1111, x.tail()[2]);
    assert_eq!(2_097_151, x.get_value().unwrap());

    let x = Size::from_u64(268_435_455).unwrap();
    assert_eq!(0b0000_1000, x.head());
    assert_eq!(5, x.get_width());
    assert_eq!(0b0000_1111, x.tail()[0]);
    assert_eq!(0b1111_1111, x.tail()[1]);
    assert_eq!(0b1111_1111, x.tail()[2]);
    assert_eq!(0b1111_1111, x.tail()[3]);
    assert_eq!(268_435_455, x.get_value().unwrap());

    let x = Size::from_u64(34_359_738_367).unwrap();
    assert_eq!(0b0000_0100, x.head());
    assert_eq!(6, x.get_width());
    assert_eq!(0b0000_0111, x.tail()[0]);
    assert_eq!(0b1111_1111, x.tail()[1]);
    assert_eq!(0b1111_1111, x.tail()[2]);
    assert_eq!(0b1111_1111, x.tail()[3]);
    assert_eq!(0b1111_1111, x.tail()[4]);
    assert_eq!(34_359_738_367, x.get_value().unwrap());

    let x = Size::from_u64(4_398_046_511_103).unwrap();
    assert_eq!(0b0000_0010, x.head());
    assert_eq!(7, x.get_width());
    assert_eq!(0b0000_0011, x.tail()[0]);
    assert_eq!(0b1111_1111, x.tail()[1]);
    assert_eq!(0b1111_1111, x.tail()[2]);
    assert_eq!(0b1111_1111, x.tail()[3]);
    assert_eq!(0b1111_1111, x.tail()[4]);
    assert_eq!(0b1111_1111, x.tail()[5]);
    assert_eq!(4_398_046_511_103, x.get_value().unwrap());

    let x = Size::from_u64(562_949_953_421_311).unwrap();
    assert_eq!(0b0000_0001, x.head());
    assert_eq!(8, x.get_width());
    assert_eq!(0b0000_0001, x.tail()[0]);
    assert_eq!(0b1111_1111, x.tail()[1]);
    assert_eq!(0b1111_1111, x.tail()[2]);
    assert_eq!(0b1111_1111, x.tail()[3]);
    assert_eq!(0b1111_1111, x.tail()[4]);
    assert_eq!(0b1111_1111, x.tail()[5]);
    assert_eq!(0b1111_1111, x.tail()[6]);
    assert_eq!(562_949_953_421_311, x.get_value().unwrap());

    // the maximum value storable
    let x = Size::from_u64(72_057_594_037_927_934).unwrap();
    assert_eq!(0b0000_0001, x.head());
    assert_eq!(8, x.get_width());
    assert_eq!(0b1111_1111, x.tail()[0]);
    assert_eq!(0b1111_1111, x.tail()[1]);
    assert_eq!(0b1111_1111, x.tail()[2]);
    assert_eq!(0b1111_1111, x.tail()[3]);
    assert_eq!(0b1111_1111, x.tail()[4]);
    assert_eq!(0b1111_1111, x.tail()[5]);
    assert_eq!(0b1111_1110, x.tail()[6]);
    assert_eq!(72_057_594_037_927_934, x.get_value().unwrap());

    let x = Size::from_u64(72_057_594_037_927_935);
    assert!(x.is_none());

    let x = Size::from_u64(72_057_594_037_927_936);
    assert!(x.is_none());
}

#[test]
fn round_trip_samples() {
    // decode(encode(v)) == v for a spread of values across every width.
    let samples: Vec<u64> = vec![
        0,
        1,
        126,
        127,
        128,
        16_382,
        16_383,
        2_097_150,
        2_097_151,
        268_435_454,
        268_435_455,
        34_359_738_366,
        4_398_046_511_102,
        562_949_953_421_310,
        72_057_594_037_927_934,
    ];
    for &v in samples.iter() {
        let s = Size::from_u64(v).unwrap();
        assert_eq!(Some(v), s.get_value());
    }
}

#[test]
fn unknown_sentinel_decodes_at_every_width() {
    // The all-ones data pattern reads back as the unknown sentinel at each
    // of the eight widths.
    let mut encodings: Vec<Vec<u8>> = Vec::new();
    encodings.push(vec![0xFF]);
    encodings.push(vec![0x7F, 0xFF]);
    encodings.push(vec![0x3F, 0xFF, 0xFF]);
    encodings.push(vec![0x1F, 0xFF, 0xFF, 0xFF]);
    encodings.push(vec![0x0F, 0xFF, 0xFF, 0xFF, 0xFF]);
    encodings.push(vec![0x07, 0xFF, 0xFF, 0xFF, 0xFF, 0xFF]);
    encodings.push(vec![0x03, 0xFF, 0xFF, 0xFF, 0xFF, 0xFF, 0xFF]);
    encodings.push(vec![0x01, 0xFF, 0xFF, 0xFF, 0xFF, 0xFF, 0xFF, 0xFF]);
    for (w, bytes) in encodings.into_iter().enumerate() {
        let mut reader = PeekableReader::new(bytes);
        let s = Size::load(&mut reader).unwrap();
        assert_eq!(w + 1, s.get_width());
        assert!(s.get_value().is_none());
    }
}

#[test]
fn load_decodes_values() {
    let mut reader = PeekableReader::new(vec![0x82]);
    assert_eq!(Some(2), Size::load(&mut reader).unwrap().get_value());

    let mut reader = PeekableReader::new(vec![0x40, 0x7F]);
    assert_eq!(Some(0x7F), Size::load(&mut reader).unwrap().get_value());

    // A zero head byte is malformed; an empty source is truncated.
    let mut reader = PeekableReader::new(vec![0x00]);
    assert_eq!(Err(ebml::EbmlError::MalformedDocument), Size::load(&mut reader));
    let mut reader = PeekableReader::new(Vec::new());
    assert_eq!(Err(ebml::EbmlError::TruncatedInput), Size::load(&mut reader));

    // A head byte that announces more bytes than remain is truncated.
    let mut reader = PeekableReader::new(vec![0x3F, 0xAB]);
    assert_eq!(Err(ebml::EbmlError::TruncatedInput), Size::load(&mut reader));
}
