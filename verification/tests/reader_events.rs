use ebml::{
    decode_document, standard_schema, AllowedParent, BinaryValue, Cardinality, ChildOrder,
    ContainerType, EbmlError, ElementType, Event, Id, Reader, Schema, SizeInfo, UintValue, Value,
    ValueKind,
};

/// The standard schema's indices: `EBML` is container 0, and `DocType` is
/// the fifth element.
const EBML_IX: usize = 0;
const DOCTYPE_IX: usize = 4;

fn doctype_index(schema: &Schema) -> usize {
    let ix = DOCTYPE_IX;
    assert_eq!(0x0282, schema.element(ix).id.get_value());
    ix
}

/// The bytes of a minimal valid header: the `EBML` root holding one
/// `DocType` element whose value is "test".
fn minimal_header_bytes() -> Vec<u8> {
    vec![
        0x1A, 0x45, 0xDF, 0xA3, // EBML, encoded ID
        0x87, // size: 7 bytes of content
        0x42, 0x82, // DocType, encoded ID
        0x84, // size: 4
        b't', b'e', b's', b't',
    ]
}

#[test]
fn load_vaild_document() {
    // This is the header of a valid document
    let data = minimal_header_bytes();
    let events = decode_document(data, standard_schema().unwrap()).unwrap();
    assert!(!events.iter().any(|e| matches!(e, Event::Error { .. })));
}

#[test]
fn minimum_valid_header() {
    let schema = standard_schema().unwrap();
    let doctype = doctype_index(&schema);
    let events = decode_document(minimal_header_bytes(), schema).unwrap();
    assert_eq!(3, events.len());
    assert_eq!(
        Event::BeginContainer { container: EBML_IX, size: SizeInfo::Known(7), ordered: true },
        events[0]
    );
    assert_eq!(
        Event::Value {
            element: doctype,
            value: Value::Binary(BinaryValue::from_vec(b"test".to_vec())),
        },
        events[1]
    );
    assert_eq!(Event::EndContainer { container: EBML_IX }, events[2]);
}

/// A schema of nested containers for the unknown-size scenarios: a root
/// holding a sub-container and an element, the sub-container holding only
/// its own element.
fn nested_schema() -> Schema {
    let containers = vec![
        ContainerType {
            name: "Root".to_string(),
            id: Id::from_encoded(0x81).unwrap(),
            cardinality: Cardinality::ZeroOrMany,
            child_order: ChildOrder::Significant,
            parent: AllowedParent::AnyContainer,
            min_level: None,
            max_level: None,
        },
        ContainerType {
            name: "Sub".to_string(),
            id: Id::from_encoded(0x82).unwrap(),
            cardinality: Cardinality::ZeroOrMany,
            child_order: ChildOrder::Significant,
            parent: AllowedParent::Container(0),
            min_level: None,
            max_level: None,
        },
    ];
    let elements = vec![
        ElementType {
            name: "Inner".to_string(),
            id: Id::from_encoded(0x83).unwrap(),
            kind: ValueKind::Uint,
            cardinality: Cardinality::ZeroOrMany,
            parent: AllowedParent::Container(1),
            min_level: None,
            max_level: None,
            default: None,
            restriction: None,
        },
        ElementType {
            name: "Outer".to_string(),
            id: Id::from_encoded(0x84).unwrap(),
            kind: ValueKind::Uint,
            cardinality: Cardinality::ZeroOrMany,
            parent: AllowedParent::Container(0),
            min_level: None,
            max_level: None,
            default: None,
            restriction: None,
        },
    ];
    Schema::new(containers, elements, 0).unwrap()
}

#[test]
fn unknown_size_container_terminated_by_outer_element() {
    // Root (unknown size) holds Sub (unknown size) holding one Inner value;
    // the Outer ID is not a legal child of Sub, so it ends Sub without
    // being consumed, and is then read at the Root level.
    let data = vec![
        0x81, 0xFF, // Root, unknown size
        0x82, 0xFF, // Sub, unknown size
        0x83, 0x81, 0x05, // Inner = 5
        0x84, 0x81, 0x09, // Outer = 9, not a child of Sub
    ];
    let events = decode_document(data, nested_schema()).unwrap();
    assert_eq!(
        vec![
            Event::BeginContainer { container: 0, size: SizeInfo::Unknown, ordered: true },
            Event::BeginContainer { container: 1, size: SizeInfo::Unknown, ordered: true },
            Event::Value { element: 0, value: Value::Uint(UintValue::from_u8(5)) },
            Event::EndContainer { container: 1 },
            Event::Value { element: 1, value: Value::Uint(UintValue::from_u8(9)) },
            Event::EndContainer { container: 0 },
        ],
        events
    );
}

#[test]
fn unexpected_child_in_finite_container() {
    // A container with a finite size holding an ID that is not a legal
    // child fails; an unknown-size container would have ended instead.
    let data = vec![
        0x1A, 0x45, 0xDF, 0xA3, // EBML
        0x8A, // size: 10
        0x81, 0x80, // an ID that no type of the standard schema carries
    ];
    let events = decode_document(data, standard_schema().unwrap()).unwrap();
    assert_eq!(2, events.len());
    assert_eq!(Event::Error { kind: EbmlError::UnexpectedChild }, events[1]);
}

#[test]
fn truncated_payload() {
    // DocType declares eight bytes but only six remain.
    let data = vec![
        0x1A, 0x45, 0xDF, 0xA3, 0xFF, // EBML, unknown size
        0x42, 0x82, 0x88, // DocType, size 8
        b'a', b'b', b'c', b'd', b'e', b'f',
    ];
    let events = decode_document(data, standard_schema().unwrap()).unwrap();
    assert_eq!(2, events.len());
    assert_eq!(Event::Error { kind: EbmlError::TruncatedInput }, events[1]);
}

#[test]
fn restriction_violated() {
    // A DocType byte below 0x20 falls outside the ASCII-printable
    // restriction the standard schema declares.
    let data = vec![
        0x1A, 0x45, 0xDF, 0xA3, 0xFF, // EBML, unknown size
        0x42, 0x82, 0x81, 0x1F, // DocType = [0x1F]
    ];
    let events = decode_document(data, standard_schema().unwrap()).unwrap();
    assert_eq!(2, events.len());
    assert_eq!(Event::Error { kind: EbmlError::RestrictionViolated }, events[1]);
}

#[test]
fn missing_required_child() {
    // A schema requiring exactly one Marker inside Root; closing Root
    // without one fails.
    let containers = vec![ContainerType {
        name: "Root".to_string(),
        id: Id::from_encoded(0x81).unwrap(),
        cardinality: Cardinality::ZeroOrMany,
        child_order: ChildOrder::Significant,
        parent: AllowedParent::AnyContainer,
        min_level: None,
        max_level: None,
    }];
    let elements = vec![ElementType {
        name: "Marker".to_string(),
        id: Id::from_encoded(0x82).unwrap(),
        kind: ValueKind::Uint,
        cardinality: Cardinality::ExactlyOne,
        parent: AllowedParent::Container(0),
        min_level: None,
        max_level: None,
        default: None,
        restriction: None,
    }];
    let schema = Schema::new(containers, elements, 0).unwrap();
    let data = vec![0x81, 0x80]; // Root with zero bytes of content
    let events = decode_document(data, schema).unwrap();
    assert_eq!(2, events.len());
    assert_eq!(Event::Error { kind: EbmlError::MissingRequiredChild }, events[1]);
}

#[test]
fn wrong_root_id() {
    let data = vec![0x42, 0x82, 0x80];
    let events = decode_document(data, standard_schema().unwrap()).unwrap();
    assert_eq!(vec![Event::Error { kind: EbmlError::WrongId }], events);
}

#[test]
fn empty_input_is_truncated() {
    let events = decode_document(Vec::new(), standard_schema().unwrap()).unwrap();
    assert_eq!(vec![Event::Error { kind: EbmlError::TruncatedInput }], events);
}

#[test]
fn id_out_of_range_in_document() {
    // A five-byte VINT where an ID is expected.
    let data = vec![0x08, 0x01, 0x02, 0x03, 0x04];
    let events = decode_document(data, standard_schema().unwrap()).unwrap();
    assert_eq!(vec![Event::Error { kind: EbmlError::IdOutOfRange }], events);
}

#[test]
fn element_with_unknown_size_is_malformed() {
    let data = vec![
        0x1A, 0x45, 0xDF, 0xA3, 0xFF, // EBML, unknown size
        0x42, 0x82, 0xFF, // DocType with the unknown-size sentinel
    ];
    let events = decode_document(data, standard_schema().unwrap()).unwrap();
    assert_eq!(2, events.len());
    assert_eq!(Event::Error { kind: EbmlError::MalformedDocument }, events[1]);
}

#[test]
fn schema_conflict_on_duplicate_ids() {
    let containers = vec![
        ContainerType {
            name: "A".to_string(),
            id: Id::from_encoded(0x81).unwrap(),
            cardinality: Cardinality::ZeroOrMany,
            child_order: ChildOrder::Significant,
            parent: AllowedParent::AnyContainer,
            min_level: None,
            max_level: None,
        },
        ContainerType {
            name: "B".to_string(),
            id: Id::from_encoded(0x81).unwrap(),
            cardinality: Cardinality::ZeroOrMany,
            child_order: ChildOrder::Significant,
            parent: AllowedParent::AnyContainer,
            min_level: None,
            max_level: None,
        },
    ];
    assert_eq!(
        Err(EbmlError::SchemaConflict),
        Schema::new(containers, Vec::new(), 0).map(|_| ())
    );
}

#[test]
fn several_top_level_elements() {
    // A document is one or more top-level elements; a second root follows
    // the first.
    let mut data = minimal_header_bytes();
    data.extend(minimal_header_bytes());
    let events = decode_document(data, standard_schema().unwrap()).unwrap();
    assert_eq!(6, events.len());
    assert!(matches!(events[0], Event::BeginContainer { .. }));
    assert!(matches!(events[2], Event::EndContainer { .. }));
    assert!(matches!(events[3], Event::BeginContainer { .. }));
    assert!(matches!(events[5], Event::EndContainer { .. }));
}

#[test]
fn errors_describe_themselves() {
    assert_eq!("the wrong id was read", EbmlError::WrongId.describe());
    assert_eq!("unexpected end of input", EbmlError::TruncatedInput.describe());
    assert_eq!("an id was out of range", EbmlError::IdOutOfRange.describe());
    assert_eq!("malformed EBML document", EbmlError::MalformedDocument.describe());
}

#[test]
fn reader_pulls_the_same_events() {
    let schema = standard_schema().unwrap();
    let mut reader = Reader::new(minimal_header_bytes(), schema).unwrap();
    let mut count = 0;
    while let Some(ev) = reader.next_event() {
        assert!(!matches!(ev, Event::Error { .. }));
        count += 1;
    }
    assert_eq!(3, count);
    assert_eq!(None, reader.next_event());
}

#[test]
fn typed_values_decode_by_kind() {
    // A schema with one element of each numeric kind under Root.
    let containers = vec![ContainerType {
        name: "Root".to_string(),
        id: Id::from_encoded(0x81).unwrap(),
        cardinality: Cardinality::ZeroOrMany,
        child_order: ChildOrder::Significant,
        parent: AllowedParent::AnyContainer,
        min_level: None,
        max_level: None,
    }];
    let elements = vec![
        ElementType {
            name: "I".to_string(),
            id: Id::from_encoded(0x82).unwrap(),
            kind: ValueKind::Int,
            cardinality: Cardinality::ZeroOrMany,
            parent: AllowedParent::Container(0),
            min_level: None,
            max_level: None,
            default: None,
            restriction: None,
        },
        ElementType {
            name: "S".to_string(),
            id: Id::from_encoded(0x83).unwrap(),
            kind: ValueKind::Str,
            cardinality: Cardinality::ZeroOrMany,
            parent: AllowedParent::Container(0),
            min_level: None,
            max_level: None,
            default: None,
            restriction: None,
        },
        ElementType {
            name: "D".to_string(),
            id: Id::from_encoded(0x84).unwrap(),
            kind: ValueKind::Date,
            cardinality: Cardinality::ZeroOrMany,
            parent: AllowedParent::Container(0),
            min_level: None,
            max_level: None,
            default: None,
            restriction: None,
        },
    ];
    let schema = Schema::new(containers, elements, 0).unwrap();
    let data = vec![
        0x81, 0xFF, // Root, unknown size
        0x82, 0x81, 0xFB, // I = -5
        0x83, 0x84, b'o', b'k', 0x00, 0x00, // S = "ok" with two bytes of padding
        0x84, 0x88, 0, 0, 0, 0, 0, 0, 0x04, 0xD2, // D = 1234 ns after the millennium
    ];
    let events = decode_document(data, schema).unwrap();
    assert_eq!(5, events.len());
    match &events[1] {
        Event::Value { value: Value::Int(iv), .. } => {
            assert_eq!(-5, iv.to_repr());
            assert_eq!(1, iv.get_size().get_value().unwrap());
        },
        other => panic!("unexpected event {:?}", other),
    }
    match &events[2] {
        Event::Value { value: Value::Str(sv), .. } => {
            assert_eq!("ok".to_string(), sv.to_repr());
            assert_eq!(4, sv.get_size().get_value().unwrap());
        },
        other => panic!("unexpected event {:?}", other),
    }
    match &events[3] {
        Event::Value { value: Value::Date(dv), .. } => {
            assert_eq!(1234, dv.nanos_since_millennium());
        },
        other => panic!("unexpected event {:?}", other),
    }
}
