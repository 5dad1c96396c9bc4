use ebml::edtd::{
    bcomment, binary_def, binary_range, cardinality, comment, date_def, date_range, dtype,
    float_def, float_range, float_v, hblock, header_statement, int_def, int_range, int_v, lcomment,
    level, name, ordered, parent, parents, parse_edtd, sep, size, string_def, string_range, type_,
    uint_def, uint_range, BinaryRangeItem, DateRangeItem, FloatLit, FloatRangeItem, HeaderStatement,
    IntRangeItem, Level, NewType, Property, StringRangeItem, Type, UintRangeItem,
};
use ebml::edtd::id as edtd_id;
use ebml::{Cardinality, DateTime, Id};

fn lit(text: &str) -> FloatLit {
    FloatLit { text: text.to_string() }
}

fn dt(y: i32, mo: u8, d: u8, h: u8, mi: u8, s: u8, nano: u32) -> DateTime {
    DateTime::new(y, mo, d, h, mi, s, nano).unwrap()
}

#[test]
fn test_lcomment() {
    let input = b"// comment\n".to_vec();
    let (text, p) = lcomment(&input, 0).unwrap();
    assert_eq!(b" comment".to_vec(), text);
    assert_eq!(input.len(), p);
}

#[test]
fn test_bcomment() {
    let input = b"/* comment */".to_vec();
    let (text, p) = bcomment(&input, 0).unwrap();
    assert_eq!(b" comment ".to_vec(), text);
    assert_eq!(input.len(), p);
}

#[test]
fn test_comment() {
    let input = b"// comment\n".to_vec();
    let (text, _) = comment(&input, 0).unwrap();
    assert_eq!(b" comment".to_vec(), text);

    let input = b"/* comment */".to_vec();
    let (text, _) = comment(&input, 0).unwrap();
    assert_eq!(b" comment ".to_vec(), text);
}

#[test]
fn test_separator() {
    let input = b"  \t\n// skip me\n  test\n".to_vec();
    let p = sep(&input, 0);
    assert_eq!(b"test\n".to_vec(), input[p..].to_vec());

    let input = b"/* one */ /* two */\tt\n".to_vec();
    let p = sep(&input, 0);
    assert_eq!(b"t\n".to_vec(), input[p..].to_vec());
}

#[test]
fn test_name() {
    let input = b"SimpleName".to_vec();
    let (nm, _) = name(&input, 0).unwrap();
    assert_eq!("SimpleName", nm);

    let input = b"_complexName1".to_vec();
    let (nm, _) = name(&input, 0).unwrap();
    assert_eq!("_complexName1", nm);

    let input = b"___name___ foo\n".to_vec();
    let (nm, p) = name(&input, 0).unwrap();
    assert_eq!("___name___", nm);
    assert_eq!(b" foo\n".to_vec(), input[p..].to_vec());

    let input = b"1notaname".to_vec();
    assert!(name(&input, 0).is_err());

    let input = b"!bang".to_vec();
    assert!(name(&input, 0).is_err());
}

#[test]
fn test_id() {
    let input = b"1A45DFA3".to_vec();
    let (id, _) = edtd_id(&input, 0).unwrap();
    assert_eq!(Id::new_class_d(0x0A45_DFA3).unwrap(), id);

    let input = b"81".to_vec();
    let (id, _) = edtd_id(&input, 0).unwrap();
    assert_eq!(Id::new_class_a(0x1).unwrap(), id);

    let input = b"FE".to_vec();
    let (id, _) = edtd_id(&input, 0).unwrap();
    assert_eq!(Id::new_class_a(0x7E).unwrap(), id);

    let input = b"FF".to_vec();
    assert!(edtd_id(&input, 0).is_err());

    let input = b"407F".to_vec();
    let (id, _) = edtd_id(&input, 0).unwrap();
    assert_eq!(Id::new_class_b(0x7F).unwrap(), id);
}

#[test]
fn test_type() {
    assert_eq!(Type::Int, type_(&b"int".to_vec(), 0).unwrap().0);
    assert_eq!(Type::Uint, type_(&b"uint".to_vec(), 0).unwrap().0);
    assert_eq!(Type::Float, type_(&b"float".to_vec(), 0).unwrap().0);
    assert_eq!(Type::Str, type_(&b"string".to_vec(), 0).unwrap().0);
    assert_eq!(Type::Date, type_(&b"date".to_vec(), 0).unwrap().0);
    assert_eq!(Type::Binary, type_(&b"binary".to_vec(), 0).unwrap().0);
    assert_eq!(Type::Name("foo_bar123".to_string()), type_(&b"foo_bar123".to_vec(), 0).unwrap().0);
    assert!(type_(&b"123".to_vec(), 0).is_err());
    assert_eq!(Type::Container, type_(&b"container".to_vec(), 0).unwrap().0);
}

#[test]
fn test_parents() {
    let input = b"name1".to_vec();
    let (v, _) = parents(&input, 0).unwrap();
    assert_eq!(vec!["name1".to_string()], v);

    let input = b"name1, name2 ,name3 , name4".to_vec();
    let (v, _) = parents(&input, 0).unwrap();
    assert_eq!(
        vec!["name1".to_string(), "name2".to_string(), "name3".to_string(), "name4".to_string()],
        v
    );

    let input = b"name1, 2notaname\n".to_vec();
    let (v, p) = parents(&input, 0).unwrap();
    assert_eq!(vec!["name1".to_string()], v);
    assert_eq!(b", 2notaname\n".to_vec(), input[p..].to_vec());
}

#[test]
fn test_parent() {
    let input = b"parent: name1;".to_vec();
    let (v, _) = parent(&input, 0).unwrap();
    assert_eq!(vec!["name1".to_string()], v);

    let input = b"parent: name1, name2, name3, name4;".to_vec();
    let (v, _) = parent(&input, 0).unwrap();
    assert_eq!(
        vec!["name1".to_string(), "name2".to_string(), "name3".to_string(), "name4".to_string()],
        v
    );

    // Since the parents list must end with a ";", bad names in the list can't be ignored.
    let input = b"parent: name1, 2notaname;".to_vec();
    assert!(parent(&input, 0).is_err());
}

#[test]
fn test_level() {
    let input = b"level: 1..;".to_vec();
    assert_eq!(Level::Open { start: 1 }, level(&input, 0).unwrap().0);

    let input = b"level: 1..3;".to_vec();
    assert_eq!(Level::Bounded { start: 1, end: 3 }, level(&input, 0).unwrap().0);

    let input = b"level: 4..5;".to_vec();
    assert_eq!(Level::Bounded { start: 4, end: 5 }, level(&input, 0).unwrap().0);

    let input = b"level: 2341..;".to_vec();
    assert_eq!(Level::Open { start: 2341 }, level(&input, 0).unwrap().0);

    let input = b"level: a..b;".to_vec();
    assert!(level(&input, 0).is_err());
}

#[test]
fn test_cardinality() {
    assert_eq!(Cardinality::ZeroOrMany, cardinality(&b"card: *;".to_vec(), 0).unwrap().0);
    assert_eq!(Cardinality::ZeroOrOne, cardinality(&b"card: ?;".to_vec(), 0).unwrap().0);
    assert_eq!(Cardinality::ExactlyOne, cardinality(&b"card: 1;".to_vec(), 0).unwrap().0);
    assert_eq!(Cardinality::OneOrMany, cardinality(&b"card: +;".to_vec(), 0).unwrap().0);
    assert!(cardinality(&b"card: x;".to_vec(), 0).is_err());
}

#[test]
fn test_int_v() {
    assert_eq!(1234, int_v(&b"1234".to_vec(), 0).unwrap().0);
    assert_eq!(-1234, int_v(&b"-1234".to_vec(), 0).unwrap().0);
    assert_eq!(0x7FFF_FFFF_FFFF_FFFF, int_v(&b"9223372036854775807".to_vec(), 0).unwrap().0);
    assert_eq!(i64::MIN, int_v(&b"-9223372036854775808".to_vec(), 0).unwrap().0);
    assert!(int_v(&b"9223372036854775808".to_vec(), 0).is_err());
    assert!(int_v(&b"-9223372036854775809".to_vec(), 0).is_err());
}

#[test]
fn test_float_v() {
    let cases: Vec<(&str, f64)> = vec![
        ("1", 1f64),
        ("-1", -1f64),
        ("1.25132", 1.25132f64),
        ("-1.25132", -1.25132f64),
        ("1.32e7", 1.32e7f64),
        ("-1.31e7", -1.31e7f64),
        ("1e+3", 1e+3f64),
        ("1e-3", 1e-3f64),
        ("-1e-3", -1e-3f64),
    ];
    for (text, expected) in cases {
        let input = text.as_bytes().to_vec();
        let (f, p) = float_v(&input, 0).unwrap();
        assert_eq!(text, f.text);
        assert_eq!(expected, f.text.parse::<f64>().unwrap());
        assert_eq!(input.len(), p);
    }

    // Make sure it doesn't accept random garbage
    assert!(float_v(&b"level: 1..3;".to_vec(), 0).is_err());
    assert!(float_v(&b"1..3".to_vec(), 0).is_err());
}

#[test]
fn test_int_def() {
    let input = b"def: 1234;".to_vec();
    assert_eq!(Property::IntDefault(1234), int_def(&input, 0).unwrap().0);
}

#[test]
fn test_uint_def() {
    let input = b"def: 1234;".to_vec();
    assert_eq!(Property::UintDefault(1234), uint_def(&input, 0).unwrap().0);
}

#[test]
fn test_float_def() {
    let input = b"def: 1;".to_vec();
    let prop = float_def(&input, 0).unwrap().0;
    assert_eq!(Property::FloatDefault(lit("1")), prop);
    match prop {
        Property::FloatDefault(f) => assert_eq!(1f64, f.text.parse::<f64>().unwrap()),
        _ => panic!("wrong property"),
    }
}

#[test]
fn test_date_def() {
    let input = b"def: 20170101T00:00:00;".to_vec();
    assert_eq!(Property::DateDefault(dt(2017, 1, 1, 0, 0, 0, 0)), date_def(&input, 0).unwrap().0);

    let input = b"def: 12341225T14:15:32.420;".to_vec();
    assert_eq!(
        Property::DateDefault(dt(1234, 12, 25, 14, 15, 32, 420_000_000)),
        date_def(&input, 0).unwrap().0
    );

    let input = b"def: 2017-01-01T00:00:00;".to_vec();
    assert!(date_def(&input, 0).is_err());

    let input = b"def: 20171301T00:00:00;".to_vec();
    assert!(date_def(&input, 0).is_err());

    let input = b"def: 1234;".to_vec();
    assert_eq!(
        Property::DateDefault(dt(2001, 1, 1, 0, 0, 0, 1234)),
        date_def(&input, 0).unwrap().0
    );
}

#[test]
fn test_string_def() {
    let input = b"def: \"hello\";".to_vec();
    assert_eq!(Property::StringDefault("hello".to_string()), string_def(&input, 0).unwrap().0);

    let input = b"def: \"Test\";".to_vec();
    assert_eq!(Property::StringDefault("Test".to_string()), string_def(&input, 0).unwrap().0);

    let input = b"def: \"Test\x04\";".to_vec();
    assert_eq!(Property::StringDefault("Test\x04".to_string()), string_def(&input, 0).unwrap().0);

    // invalid unicode
    let input = b"def: \"Test\x80\x81\x82\";".to_vec();
    assert!(string_def(&input, 0).is_err());

    // unclosed quote
    let input = b"def: \"Test;".to_vec();
    assert!(string_def(&input, 0).is_err());
}

#[test]
fn test_binary_def() {
    let input = b"def: \"hello\";".to_vec();
    assert_eq!(
        Property::BinaryDefault(vec![0x68, 0x65, 0x6c, 0x6c, 0x6f]),
        binary_def(&input, 0).unwrap().0
    );

    let input = b"def: \"Test\";".to_vec();
    assert_eq!(Property::BinaryDefault(vec![0x54, 0x65, 0x73, 0x74]), binary_def(&input, 0).unwrap().0);

    let input = b"def: \"Test\x04\";".to_vec();
    assert_eq!(
        Property::BinaryDefault(vec![0x54, 0x65, 0x73, 0x74, 0x04]),
        binary_def(&input, 0).unwrap().0
    );

    // invalid unicode/ascii is fine for a binary default
    let input = b"def: \"Test\x80\x81\x82\";".to_vec();
    assert_eq!(
        Property::BinaryDefault(vec![0x54, 0x65, 0x73, 0x74, 0x80, 0x81, 0x82]),
        binary_def(&input, 0).unwrap().0
    );

    // unclosed quote
    let input = b"def: \"Test;".to_vec();
    assert!(binary_def(&input, 0).is_err());
}

#[test]
fn test_int_range() {
    let input = b"range: -2..5;".to_vec();
    assert_eq!(
        Property::IntRange(vec![IntRangeItem::Bounded { start: -2, end: 5 }]),
        int_range(&input, 0).unwrap().0
    );

    let input = b"range: 4..;".to_vec();
    assert_eq!(
        Property::IntRange(vec![IntRangeItem::From { start: 4 }]),
        int_range(&input, 0).unwrap().0
    );

    let input = b"range: ..102;".to_vec();
    assert_eq!(
        Property::IntRange(vec![IntRangeItem::To { end: 102 }]),
        int_range(&input, 0).unwrap().0
    );

    let input = b"range: 45;".to_vec();
    assert_eq!(Property::IntRange(vec![IntRangeItem::Single(45)]), int_range(&input, 0).unwrap().0);

    let input = b"range: -1..4, 5, 66..;".to_vec();
    assert_eq!(
        Property::IntRange(vec![
            IntRangeItem::Bounded { start: -1, end: 4 },
            IntRangeItem::Single(5),
            IntRangeItem::From { start: 66 },
        ]),
        int_range(&input, 0).unwrap().0
    );

    let input = b"range: -100..-99, 44, 55, 66..70;".to_vec();
    assert_eq!(
        Property::IntRange(vec![
            IntRangeItem::Bounded { start: -100, end: -99 },
            IntRangeItem::Single(44),
            IntRangeItem::Single(55),
            IntRangeItem::Bounded { start: 66, end: 70 },
        ]),
        int_range(&input, 0).unwrap().0
    );

    let input = b"range: ;".to_vec();
    assert!(int_range(&input, 0).is_err());
}

#[test]
fn test_uint_range() {
    let input = b"range: 2..5;".to_vec();
    assert_eq!(
        Property::UintRange(vec![UintRangeItem::Bounded { start: 2, end: 5 }]),
        uint_range(&input, 0).unwrap().0
    );

    let input = b"range: 4..;".to_vec();
    assert_eq!(
        Property::UintRange(vec![UintRangeItem::From { start: 4 }]),
        uint_range(&input, 0).unwrap().0
    );

    let input = b"range: 45;".to_vec();
    assert_eq!(
        Property::UintRange(vec![UintRangeItem::Single(45)]),
        uint_range(&input, 0).unwrap().0
    );

    let input = b"range: 1..4, 5, 66..;".to_vec();
    assert_eq!(
        Property::UintRange(vec![
            UintRangeItem::Bounded { start: 1, end: 4 },
            UintRangeItem::Single(5),
            UintRangeItem::From { start: 66 },
        ]),
        uint_range(&input, 0).unwrap().0
    );

    let input = b"range: 100..200, 44, 55, 66..70;".to_vec();
    assert_eq!(
        Property::UintRange(vec![
            UintRangeItem::Bounded { start: 100, end: 200 },
            UintRangeItem::Single(44),
            UintRangeItem::Single(55),
            UintRangeItem::Bounded { start: 66, end: 70 },
        ]),
        uint_range(&input, 0).unwrap().0
    );

    let input = b"range: -1..4;".to_vec();
    assert!(uint_range(&input, 0).is_err());
}

#[test]
fn test_float_range() {
    let input = b"range: >0;".to_vec();
    assert_eq!(
        Property::FloatRange(vec![FloatRangeItem::From { start: lit("0"), include_start: false }]),
        float_range(&input, 0).unwrap().0
    );

    let input = b"range: >=0;".to_vec();
    assert_eq!(
        Property::FloatRange(vec![FloatRangeItem::From { start: lit("0"), include_start: true }]),
        float_range(&input, 0).unwrap().0
    );

    let input = b"range: <0;".to_vec();
    assert_eq!(
        Property::FloatRange(vec![FloatRangeItem::To { end: lit("0"), include_end: false }]),
        float_range(&input, 0).unwrap().0
    );

    let input = b"range: <=1.2;".to_vec();
    assert_eq!(
        Property::FloatRange(vec![FloatRangeItem::To { end: lit("1.2"), include_end: true }]),
        float_range(&input, 0).unwrap().0
    );

    let input = b"range: -1.34e4<..<=4.0;".to_vec();
    assert_eq!(
        Property::FloatRange(vec![FloatRangeItem::Bounded {
            start: lit("-1.34e4"),
            include_start: false,
            end: lit("4.0"),
            include_end: true,
        }]),
        float_range(&input, 0).unwrap().0
    );
    assert_eq!(-1.34e4, lit("-1.34e4").text.parse::<f64>().unwrap());
    assert_eq!(4.0f64, lit("4.0").text.parse::<f64>().unwrap());

    let input = b"range: -4.4<=..<-4.2, 1.2e6<..<=1.3e7, >=2.4e8;".to_vec();
    assert_eq!(
        Property::FloatRange(vec![
            FloatRangeItem::Bounded {
                start: lit("-4.4"),
                include_start: true,
                end: lit("-4.2"),
                include_end: false,
            },
            FloatRangeItem::Bounded {
                start: lit("1.2e6"),
                include_start: false,
                end: lit("1.3e7"),
                include_end: true,
            },
            FloatRangeItem::From { start: lit("2.4e8"), include_start: true },
        ]),
        float_range(&input, 0).unwrap().0
    );
}

#[test]
fn test_date_range() {
    let input = b"range: 19020102T00:00:24..;".to_vec();
    assert_eq!(
        Property::DateRange(vec![DateRangeItem::From { start: dt(1902, 1, 2, 0, 0, 24, 0) }]),
        date_range(&input, 0).unwrap().0
    );

    let input = b"range: ..19950418T04:20:00.420;".to_vec();
    assert_eq!(
        Property::DateRange(vec![DateRangeItem::To { end: dt(1995, 4, 18, 4, 20, 0, 420_000_000) }]),
        date_range(&input, 0).unwrap().0
    );

    let input = b"range: 20010101T00:00:00.000001234..20170101T19:20:45.245, 20200101T00:00:00..;"
        .to_vec();
    assert_eq!(
        Property::DateRange(vec![
            DateRangeItem::Bounded {
                start: dt(2001, 1, 1, 0, 0, 0, 1234),
                end: dt(2017, 1, 1, 19, 20, 45, 245_000_000),
            },
            DateRangeItem::From { start: dt(2020, 1, 1, 0, 0, 0, 0) },
        ]),
        date_range(&input, 0).unwrap().0
    );

    let input = b"range: ;".to_vec();
    assert!(date_range(&input, 0).is_err());
}

#[test]
fn test_string_range() {
    let input = b"range: 32..;".to_vec();
    assert_eq!(
        Property::StringRange(vec![StringRangeItem::From { start: 32 }]),
        string_range(&input, 0).unwrap().0
    );

    let input = b"range: 12352..12447;".to_vec();
    assert_eq!(
        Property::StringRange(vec![StringRangeItem::Bounded { start: 0x3040, end: 0x309F }]),
        string_range(&input, 0).unwrap().0
    );

    let input = b"range: 42;".to_vec();
    assert_eq!(
        Property::StringRange(vec![StringRangeItem::Single(42)]),
        string_range(&input, 0).unwrap().0
    );

    let input = b"range: 1114112;".to_vec();
    assert!(string_range(&input, 0).is_err());
}

#[test]
fn test_binary_range() {
    let input = b"range: 32..;".to_vec();
    assert_eq!(
        Property::BinaryRange(vec![BinaryRangeItem::From { start: 32 }]),
        binary_range(&input, 0).unwrap().0
    );

    let input = b"range: 1..255;".to_vec();
    assert_eq!(
        Property::BinaryRange(vec![BinaryRangeItem::Bounded { start: 0x01, end: 0xFF }]),
        binary_range(&input, 0).unwrap().0
    );

    let input = b"range: 42;".to_vec();
    assert_eq!(
        Property::BinaryRange(vec![BinaryRangeItem::Single(42)]),
        binary_range(&input, 0).unwrap().0
    );

    let input = b"range: 256;".to_vec();
    assert!(binary_range(&input, 0).is_err());
}

#[test]
fn test_size() {
    let input = b"size: 2..5;".to_vec();
    assert_eq!(
        Property::Size(vec![UintRangeItem::Bounded { start: 2, end: 5 }]),
        size(&input, 0).unwrap().0
    );

    let input = b"size: 4..;".to_vec();
    assert_eq!(Property::Size(vec![UintRangeItem::From { start: 4 }]), size(&input, 0).unwrap().0);

    let input = b"size: 45;".to_vec();
    assert_eq!(Property::Size(vec![UintRangeItem::Single(45)]), size(&input, 0).unwrap().0);

    let input = b"size: 1..4, 5, 66..;".to_vec();
    assert_eq!(
        Property::Size(vec![
            UintRangeItem::Bounded { start: 1, end: 4 },
            UintRangeItem::Single(5),
            UintRangeItem::From { start: 66 },
        ]),
        size(&input, 0).unwrap().0
    );

    let input = b"size: 100..200, 44, 55, 66..70;".to_vec();
    assert_eq!(
        Property::Size(vec![
            UintRangeItem::Bounded { start: 100, end: 200 },
            UintRangeItem::Single(44),
            UintRangeItem::Single(55),
            UintRangeItem::Bounded { start: 66, end: 70 },
        ]),
        size(&input, 0).unwrap().0
    );

    let input = b"size: ;".to_vec();
    assert!(size(&input, 0).is_err());
}

#[test]
fn test_ordered() {
    assert_eq!(Property::Ordered(true), ordered(&b"ordered: yes;".to_vec(), 0).unwrap().0);
    assert_eq!(Property::Ordered(true), ordered(&b"ordered: 1;".to_vec(), 0).unwrap().0);
    assert_eq!(Property::Ordered(false), ordered(&b"ordered: no;".to_vec(), 0).unwrap().0);
    assert_eq!(Property::Ordered(false), ordered(&b"ordered: 0;".to_vec(), 0).unwrap().0);
}

#[test]
fn test_header_statement() {
    let input = b"FooBar := 1;".to_vec();
    assert_eq!(
        HeaderStatement::Uint { name: "FooBar".to_string(), value: 1 },
        header_statement(&input, 0).unwrap().0
    );

    let input = b"FooBar := -1;".to_vec();
    assert_eq!(
        HeaderStatement::Int { name: "FooBar".to_string(), value: -1 },
        header_statement(&input, 0).unwrap().0
    );

    let input = b"FooBarBaz := 1.25e-2;".to_vec();
    let st = header_statement(&input, 0).unwrap().0;
    assert_eq!(HeaderStatement::Float { name: "FooBarBaz".to_string(), value: lit("1.25e-2") }, st);
    match st {
        HeaderStatement::Float { value, .. } => {
            assert_eq!(1.25e-2f64, value.text.parse::<f64>().unwrap());
        },
        _ => panic!("wrong statement"),
    }

    let input = b"FooBar := 20140203T00:12:14.500;".to_vec();
    assert_eq!(
        HeaderStatement::Date {
            name: "FooBar".to_string(),
            value: dt(2014, 2, 3, 0, 12, 14, 500_000_000),
        },
        header_statement(&input, 0).unwrap().0
    );

    let input = "FooBar := \"any unicode string 隣町\";".as_bytes().to_vec();
    assert_eq!(
        HeaderStatement::Str {
            name: "FooBar".to_string(),
            value: "any unicode string 隣町".to_string(),
        },
        header_statement(&input, 0).unwrap().0
    );

    let input = b"FooBar := 0xFADEF00D;".to_vec();
    assert_eq!(
        HeaderStatement::Binary { name: "FooBar".to_string(), value: vec![0xFA, 0xDE, 0xF0, 0x0D] },
        header_statement(&input, 0).unwrap().0
    );
}

#[test]
fn test_hblock() {
    let mut text = String::new();
    text.push_str("declare header {\n");
    text.push_str("    FooBar := 1;\n");
    text.push_str("    Foo1 := \"test\";\n");
    text.push_str("    FooBaz := 0xFA DE F0 0D;\n");
    text.push_str("    FooQux := 20000101T00:00:00;\n");
    text.push_str("    Foo := \"隣町\";\n");
    text.push_str("}\n");
    let input = text.as_bytes().to_vec();
    let (stmts, _) = hblock(&input, 0).unwrap();
    assert_eq!(
        vec![
            HeaderStatement::Uint { name: "FooBar".to_string(), value: 1 },
            HeaderStatement::Str { name: "Foo1".to_string(), value: "test".to_string() },
            HeaderStatement::Binary {
                name: "FooBaz".to_string(),
                value: vec![0xFA, 0xDE, 0xF0, 0x0D],
            },
            HeaderStatement::Date { name: "FooQux".to_string(), value: dt(2000, 1, 1, 0, 0, 0, 0) },
            HeaderStatement::Str { name: "Foo".to_string(), value: "隣町".to_string() },
        ],
        stmts
    );
}

#[test]
fn test_dtype() {
    let input = b"Foo := int".to_vec();
    assert_eq!(
        NewType::Int { name: "Foo".to_string(), default: None, range: None },
        dtype(&input, 0).unwrap().0
    );

    let input = b"bar123 := int [ range: -25..100; def: 25; ];".to_vec();
    assert_eq!(
        NewType::Int {
            name: "bar123".to_string(),
            default: Some(25),
            range: Some(vec![IntRangeItem::Bounded { start: -25, end: 100 }]),
        },
        dtype(&input, 0).unwrap().0
    );

    let input = b"Foo := uint".to_vec();
    assert_eq!(
        NewType::Uint { name: "Foo".to_string(), default: None, range: None },
        dtype(&input, 0).unwrap().0
    );

    let input = b"Foo := uint [ def: 666; ]".to_vec();
    assert_eq!(
        NewType::Uint { name: "Foo".to_string(), default: Some(666), range: None },
        dtype(&input, 0).unwrap().0
    );

    let input = b"Foo := float".to_vec();
    assert_eq!(
        NewType::Float { name: "Foo".to_string(), default: None, range: None },
        dtype(&input, 0).unwrap().0
    );

    let input = b"Foo := float [ range: <=-1.0e8, >6.4, 4.0<=..<6.3; ];".to_vec();
    assert_eq!(
        NewType::Float {
            name: "Foo".to_string(),
            default: None,
            range: Some(vec![
                FloatRangeItem::To { end: lit("-1.0e8"), include_end: true },
                FloatRangeItem::From { start: lit("6.4"), include_start: false },
                FloatRangeItem::Bounded {
                    start: lit("4.0"),
                    include_start: true,
                    end: lit("6.3"),
                    include_end: false,
                },
            ]),
        },
        dtype(&input, 0).unwrap().0
    );

    let input = b"abcdefghijklmnopqrstuvwxyz1234567890 := date".to_vec();
    assert_eq!(
        NewType::Date {
            name: "abcdefghijklmnopqrstuvwxyz1234567890".to_string(),
            default: None,
            range: None,
        },
        dtype(&input, 0).unwrap().0
    );

    let input = b"Foo := date [ range: 17760604T09:21:55.356..; ];".to_vec();
    assert_eq!(
        NewType::Date {
            name: "Foo".to_string(),
            default: None,
            range: Some(vec![DateRangeItem::From { start: dt(1776, 6, 4, 9, 21, 55, 356_000_000) }]),
        },
        dtype(&input, 0).unwrap().0
    );

    let input = b"foo := string".to_vec();
    assert_eq!(
        NewType::Str { name: "foo".to_string(), default: None, range: None },
        dtype(&input, 0).unwrap().0
    );

    let input = b"FooA := string [ def: \"elephant\"; range: 12352..12447, 32..127; ];".to_vec();
    assert_eq!(
        NewType::Str {
            name: "FooA".to_string(),
            default: Some("elephant".to_string()),
            range: Some(vec![
                StringRangeItem::Bounded { start: 12352, end: 12447 },
                StringRangeItem::Bounded { start: 32, end: 127 },
            ]),
        },
        dtype(&input, 0).unwrap().0
    );

    let input = b"foo := binary".to_vec();
    assert_eq!(
        NewType::Binary { name: "foo".to_string(), default: None, range: None },
        dtype(&input, 0).unwrap().0
    );
}

#[test]
fn test_parse_edtd() {
    let mut text = String::new();
    text.push_str("// a small schema\n");
    text.push_str("declare header {\n");
    text.push_str("    DocType := \"files\";\n");
    text.push_str("}\n");
    text.push_str("Flag := uint [ range: 0..1; def: 0; ];\n");
    let input = text.as_bytes().to_vec();
    let doc = parse_edtd(&input).unwrap();
    assert_eq!(
        vec![HeaderStatement::Str { name: "DocType".to_string(), value: "files".to_string() }],
        doc.headers
    );
    assert_eq!(
        vec![NewType::Uint {
            name: "Flag".to_string(),
            default: Some(0),
            range: Some(vec![UintRangeItem::Bounded { start: 0, end: 1 }]),
        }],
        doc.types
    );
}
