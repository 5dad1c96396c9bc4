use ebml::PeekableReader;

#[test]
fn advancing() {
    let data = vec![0u8, 1, 2, 3, 4, 5, 6, 7, 8, 9, 10, 11, 12, 13, 14, 15];
    let mut reader = PeekableReader::new(data);

    assert_eq!(vec![0u8, 1, 2, 3, 4, 5, 6, 7], reader.peek8());
    assert!(!reader.advance(1));
    assert_eq!(vec![1u8, 2, 3, 4, 5, 6, 7, 8], reader.peek8());
    assert!(!reader.advance(4));
    assert_eq!(vec![5u8, 6, 7, 8, 9, 10, 11, 12], reader.peek8());

    let mut data = vec![0u8; 255];
    for i in 0..255 {
        data[i] = i as u8;
    }
    let mut reader = PeekableReader::new(data);

    assert!(!reader.advance(13));
    assert_eq!(vec![13u8, 14, 15, 16, 17, 18, 19, 20], reader.peek8());
}

#[test]
fn eof() {
    let data = vec![0u8, 1, 2, 3, 4, 5, 6, 7, 8, 9, 10, 11, 12, 13, 14, 15];

    let mut reader = PeekableReader::new(data);
    assert!(reader.advance(100));
    assert_eq!(0, reader.peek8().len());
}

#[test]
fn reading() {
    let data = vec![9u8, 8, 7, 6, 5];
    let mut reader = PeekableReader::new(data);
    assert_eq!(Some(vec![9u8, 8]), reader.read(2));
    assert_eq!(2, reader.position());
    assert_eq!(None, reader.read(4));
    assert_eq!(Some(vec![7u8, 6, 5]), reader.read(3));
    assert_eq!(5, reader.position());
}
