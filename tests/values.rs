use cassandra::errors::{MyError, ProtocolError};
use cassandra::values::{FromCQL, ToCQL, Uuid};

#[test]
fn int_is_four_big_endian_bytes() {
    assert_eq!((-2i32).serialize().unwrap(), vec![0xFF, 0xFF, 0xFF, 0xFE]);
    assert_eq!(0x01020304i32.serialize().unwrap(), vec![1, 2, 3, 4]);
    assert_eq!(i32::parse(&[0xFF, 0xFF, 0xFF, 0xFE]).unwrap(), -2);
    assert!(matches!(i32::parse(&[1, 2, 3]), Err(MyError::Protocol(ProtocolError::Malformed))));
}

#[test]
fn text_is_its_utf8_bytes() {
    assert_eq!("né".serialize().unwrap(), vec![b'n', 0xC3, 0xA9]);
    assert_eq!("né".to_string().serialize().unwrap(), vec![b'n', 0xC3, 0xA9]);
    assert_eq!(String::parse(&[b'n', 0xC3, 0xA9]).unwrap(), "né");
    assert!(String::parse(&[0xFF]).is_err());
}

#[test]
fn booleans_are_one_byte() {
    assert_eq!(true.serialize().unwrap(), vec![1]);
    assert_eq!(false.serialize().unwrap(), vec![0]);
    assert!(bool::parse(&[1]).unwrap());
    assert!(bool::parse(&[7]).unwrap());
    assert!(!bool::parse(&[0]).unwrap());
    assert!(bool::parse(&[]).is_err());
}

#[test]
fn uuid_is_sixteen_bytes() {
    let parsed = uuid::Uuid::parse_str("3cceb492-1c19-11e5-92d8-28cfe91ca1e9").unwrap();
    let id = Uuid::from_slice(parsed.as_bytes()).unwrap();
    assert_eq!(id.serialize().unwrap(), parsed.as_bytes().to_vec());
    assert_eq!(Uuid::parse(parsed.as_bytes()).unwrap(), id);
    assert!(Uuid::parse(&[0; 15]).is_err());
}

#[test]
fn collection_round_trips() {
    let friends = vec!["Sam".to_string(), "Larry".to_string()];
    let bytes = friends.serialize().unwrap();
    assert_eq!(
        bytes,
        vec![0, 0, 0, 2, 0, 0, 0, 3, b'S', b'a', b'm', 0, 0, 0, 5, b'L', b'a', b'r', b'r', b'y']
    );
    assert_eq!(Vec::<String>::parse(&bytes).unwrap(), friends);
    assert_eq!(Vec::<i32>::parse(&[0, 0, 0, 0]).unwrap(), Vec::<i32>::new());
}

#[test]
fn malformed_collections_are_rejected() {
    assert!(Vec::<i32>::parse(&[0, 0, 0]).is_err());
    assert!(Vec::<i32>::parse(&[0xFF, 0xFF, 0xFF, 0xFF]).is_err());
    assert!(Vec::<i32>::parse(&[0, 0, 0, 1, 0, 0, 0, 4, 1, 2]).is_err());
    assert!(Vec::<i32>::parse(&[0, 0, 0, 1, 0, 0, 0, 2, 1, 2]).is_err());
}
