use cassandra::errors::{MyError, ProtocolError};
use cassandra::wire::{decode_string, encode_string, StringMultiMap};

#[test]
fn string_round_trips() {
    for s in ["", "a", "héllo wörld", "日本語", "\u{1F600}"] {
        let mut out = vec![0xEE];
        encode_string(s, &mut out).unwrap();
        assert_eq!(out[1..3], (s.len() as u16).to_be_bytes());
        out.push(0x77);
        let (back, end) = decode_string(&out, 1).unwrap();
        assert_eq!(back, s);
        assert_eq!(end, out.len() - 1);
    }
}

#[test]
fn string_of_65535_bytes_is_accepted() {
    let s = "x".repeat(65535);
    let mut out = Vec::new();
    encode_string(&s, &mut out).unwrap();
    assert_eq!(out.len(), 65537);
    assert_eq!(decode_string(&out, 0).unwrap().0, s);
}

#[test]
fn string_longer_than_65535_bytes_is_rejected() {
    let s = "x".repeat(65536);
    let mut out = vec![1, 2];
    assert!(matches!(encode_string(&s, &mut out), Err(MyError::Protocol(ProtocolError::TooLong))));
    assert_eq!(out, vec![1, 2]);
}

#[test]
fn string_with_invalid_utf8_is_rejected() {
    let bytes = [0x00, 0x02, 0xC3, 0x28];
    assert!(matches!(decode_string(&bytes, 0), Err(MyError::Protocol(ProtocolError::InvalidUtf8))));
}

#[test]
fn string_longer_than_its_buffer_is_truncated() {
    let bytes = [0x00, 0x05, b'a', b'b'];
    assert!(matches!(decode_string(&bytes, 0), Err(MyError::Protocol(ProtocolError::Truncated))));
}

fn push_string(out: &mut Vec<u8>, s: &str) {
    out.extend_from_slice(&(s.len() as u16).to_be_bytes());
    out.extend_from_slice(s.as_bytes());
}

#[test]
fn string_multimap_decodes_and_keeps_value_order() {
    let mut bytes = vec![0x00, 0x02];
    push_string(&mut bytes, "CQL_VERSION");
    bytes.extend_from_slice(&[0x00, 0x02]);
    push_string(&mut bytes, "3.4.0");
    push_string(&mut bytes, "3.3.1");
    push_string(&mut bytes, "COMPRESSION");
    bytes.extend_from_slice(&[0x00, 0x00]);
    let (map, end) = StringMultiMap::decode(&bytes, 0).unwrap();
    assert_eq!(end, bytes.len());
    assert_eq!(map.get("CQL_VERSION").unwrap(), &vec!["3.4.0".to_string(), "3.3.1".to_string()]);
    assert_eq!(map.get("COMPRESSION").unwrap().len(), 0);
    assert!(map.get("MISSING").is_none());
}

#[test]
fn string_multimap_lookup_takes_the_last_duplicate_key() {
    let mut bytes = vec![0x00, 0x02];
    push_string(&mut bytes, "k");
    bytes.extend_from_slice(&[0x00, 0x01]);
    push_string(&mut bytes, "first");
    push_string(&mut bytes, "k");
    bytes.extend_from_slice(&[0x00, 0x01]);
    push_string(&mut bytes, "second");
    let (map, _) = StringMultiMap::decode(&bytes, 0).unwrap();
    assert_eq!(map.get("k").unwrap(), &vec!["second".to_string()]);
}

#[test]
fn truncated_string_multimap_is_rejected() {
    let mut bytes = vec![0x00, 0x01];
    push_string(&mut bytes, "k");
    bytes.extend_from_slice(&[0x00, 0x02]);
    push_string(&mut bytes, "only one");
    assert!(matches!(StringMultiMap::decode(&bytes, 0), Err(MyError::Protocol(ProtocolError::Truncated))));
}
