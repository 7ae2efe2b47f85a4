use cassandra::errors::{MyError, ProtocolError};
use cassandra::frame::{Opcode, ToWire};
use cassandra::requests::{OptionsRequest, QueryRequest, StartupRequest};
use cassandra::values::ToCQL;

#[test]
fn options_request_is_a_bare_header() {
    let mut out = Vec::new();
    OptionsRequest::new().encode(&mut out).unwrap();
    assert_eq!(out, vec![0x03, 0x00, 0x00, 0x00, 0x05, 0x00, 0x00, 0x00, 0x00]);
}

#[test]
fn startup_request_carries_the_cql_version() {
    let req = StartupRequest::new("3.0.0").unwrap();
    let mut out = Vec::new();
    req.encode(&mut out).unwrap();
    let mut body = vec![0x00, 0x01, 0x00, 0x0B];
    body.extend_from_slice(b"CQL_VERSION");
    body.extend_from_slice(&[0x00, 0x05]);
    body.extend_from_slice(b"3.0.0");
    let mut expected = vec![0x03, 0x00, 0x00, 0x00, 0x01];
    expected.extend_from_slice(&(body.len() as u32).to_be_bytes());
    expected.extend_from_slice(&body);
    assert_eq!(out, expected);
    assert_eq!(req.header.opcode, Opcode::Startup);
}

#[test]
fn startup_request_rejects_an_overlong_version() {
    let long = "9".repeat(65536);
    assert!(matches!(StartupRequest::new(&long), Err(MyError::Protocol(ProtocolError::TooLong))));
}

#[test]
fn query_without_values() {
    let req = QueryRequest::new("SELECT * FROM t", vec![]);
    let mut out = Vec::new();
    req.encode(&mut out).unwrap();
    let mut body = vec![0x00, 0x00, 0x00, 0x0F];
    body.extend_from_slice(b"SELECT * FROM t");
    body.extend_from_slice(&[0x00, 0x01, 0x00]);
    assert_eq!(&out[..5], &[0x03, 0x00, 0x00, 0x00, 0x07]);
    assert_eq!(&out[5..9], &(body.len() as u32).to_be_bytes());
    assert_eq!(&out[9..], &body[..]);
}

#[test]
fn query_with_bound_values() {
    let values = vec![42i32.serialize().unwrap(), "John".serialize().unwrap(), false.serialize().unwrap()];
    let req = QueryRequest::new("INSERT ?", values);
    assert_eq!(req.flags, 0x01);
    let mut out = Vec::new();
    req.encode(&mut out).unwrap();
    let mut body = vec![0x00, 0x00, 0x00, 0x08];
    body.extend_from_slice(b"INSERT ?");
    body.extend_from_slice(&[0x00, 0x01, 0x01, 0x00, 0x03]);
    body.extend_from_slice(&[0, 0, 0, 4, 0, 0, 0, 42]);
    body.extend_from_slice(&[0, 0, 0, 4, b'J', b'o', b'h', b'n']);
    body.extend_from_slice(&[0, 0, 0, 1, 0]);
    assert_eq!(&out[5..9], &(body.len() as u32).to_be_bytes());
    assert_eq!(&out[9..], &body[..]);
}
