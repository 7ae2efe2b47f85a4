use cassandra::errors::{MyError, ProtocolError, Unsupported};
use cassandra::types::CQLType;

#[test]
fn list_of_int_descriptor() {
    let (t, end) = CQLType::decode(&[0x00, 0x20, 0x00, 0x09], 0).unwrap();
    assert_eq!(t, CQLType::ListOf(Box::new(CQLType::Int)));
    assert_eq!(end, 4);
}

#[test]
fn map_of_varchar_to_int_descriptor() {
    let (t, end) = CQLType::decode(&[0x00, 0x21, 0x00, 0x0D, 0x00, 0x09], 0).unwrap();
    assert_eq!(t, CQLType::MapOf(Box::new(CQLType::Varchar), Box::new(CQLType::Int)));
    assert_eq!(end, 6);
}

#[test]
fn udt_and_tuple_descriptors_are_unsupported() {
    assert!(matches!(CQLType::decode(&[0x00, 0x30], 0), Err(MyError::Unsupported(Unsupported::Udt))));
    assert!(matches!(CQLType::decode(&[0x00, 0x31], 0), Err(MyError::Unsupported(Unsupported::Tuple))));
}

#[test]
fn reserved_and_unknown_tags_are_rejected() {
    assert!(matches!(
        CQLType::decode(&[0x00, 0x0A], 0),
        Err(MyError::Protocol(ProtocolError::UnknownType(0x000A)))
    ));
    assert!(matches!(
        CQLType::decode(&[0x12, 0x34], 0),
        Err(MyError::Protocol(ProtocolError::UnknownType(0x1234)))
    ));
}

#[test]
fn custom_descriptor_keeps_its_class_name() {
    let bytes = [0x00, 0x00, 0x00, 0x03, b'a', b'.', b'B', 0xFF];
    let (t, end) = CQLType::decode(&bytes, 0).unwrap();
    assert_eq!(t, CQLType::Custom("a.B".to_string()));
    assert_eq!(end, 7);
}

#[test]
fn nested_collections_decode_fully() {
    let bytes = [0x00, 0x20, 0x00, 0x21, 0x00, 0x01, 0x00, 0x22, 0x00, 0x0C];
    let (t, end) = CQLType::decode(&bytes, 0).unwrap();
    assert_eq!(
        t,
        CQLType::ListOf(Box::new(CQLType::MapOf(
            Box::new(CQLType::Ascii),
            Box::new(CQLType::SetOf(Box::new(CQLType::Uuid)))
        )))
    );
    assert_eq!(end, 10);
}

#[test]
fn scalar_tags_map_to_their_types() {
    let expected = [
        (0x01u8, CQLType::Ascii), (0x02, CQLType::Bigint), (0x03, CQLType::Blob), (0x04, CQLType::Boolean),
        (0x05, CQLType::Counter), (0x06, CQLType::Decimal), (0x07, CQLType::Double), (0x08, CQLType::Float),
        (0x09, CQLType::Int), (0x0B, CQLType::Timestamp), (0x0C, CQLType::Uuid), (0x0D, CQLType::Varchar),
        (0x0E, CQLType::Varint), (0x0F, CQLType::Timeuuid), (0x10, CQLType::Inet),
    ];
    for (tag, t) in expected {
        assert_eq!(CQLType::decode(&[0x00, tag], 0).unwrap(), (t, 2));
    }
}

#[test]
fn truncated_descriptor_is_rejected() {
    assert!(matches!(CQLType::decode(&[0x00, 0x21, 0x00, 0x09], 0), Err(MyError::Protocol(ProtocolError::Truncated))));
}
