use cassandra::errors::{MyError, ProtocolError};
use cassandra::frame::{frame_body_length, Flags, FromWire, Header, Opcode, ToWire, Version};

fn header(version: Version, compression: bool, tracing: bool, stream: u16, opcode: Opcode, length: u32) -> Header {
    Header { version, flags: Flags { compression, tracing }, stream, opcode, length }
}

#[test]
fn header_encodes_to_nine_big_endian_bytes() {
    let h = header(Version::Request, true, false, 0x0102, Opcode::Query, 0x0A0B0C0D);
    let mut out = Vec::new();
    h.encode(&mut out).unwrap();
    assert_eq!(out, vec![0x03, 0x01, 0x01, 0x02, 0x07, 0x0A, 0x0B, 0x0C, 0x0D]);
}

#[test]
fn header_round_trips_for_every_field_combination() {
    let opcodes = [
        Opcode::Startup, Opcode::Ready, Opcode::Authenticate, Opcode::Options, Opcode::Supported,
        Opcode::Query, Opcode::Result, Opcode::Prepare, Opcode::Execute, Opcode::Register,
        Opcode::Event, Opcode::Batch, Opcode::AuthChallenge, Opcode::AuthResponse, Opcode::AuthSuccess,
    ];
    for version in [Version::Request, Version::Response] {
        for compression in [false, true] {
            for tracing in [false, true] {
                for opcode in opcodes {
                    for (stream, length) in [(0u16, 0u32), (0xFFFF, 0xFFFF_FFFF), (7, 300)] {
                        let h = header(version, compression, tracing, stream, opcode, length);
                        let mut out = Vec::new();
                        h.encode(&mut out).unwrap();
                        assert_eq!(Header::decode(&out).unwrap(), h);
                    }
                }
            }
        }
    }
}

#[test]
fn header_rejects_unknown_version_and_opcode() {
    let bad_version = [0x04, 0, 0, 0, 0x02, 0, 0, 0, 0];
    match Header::decode(&bad_version) {
        Err(MyError::Protocol(ProtocolError::UnknownVersion(0x04))) => {}
        other => panic!("unexpected {:?}", other),
    }
    let bad_opcode = [0x83, 0, 0, 0, 0x04, 0, 0, 0, 0];
    match Header::decode(&bad_opcode) {
        Err(MyError::Protocol(ProtocolError::UnknownOpcode(0x04))) => {}
        other => panic!("unexpected {:?}", other),
    }
}

#[test]
fn short_header_is_an_io_error() {
    assert!(matches!(Header::decode(&[0x83, 0, 0]), Err(MyError::IO(_))));
}

#[test]
fn error_frame_surfaces_code_and_message() {
    let mut frame = vec![0x83, 0, 0, 0, 0x00, 0, 0, 0, 10];
    frame.extend_from_slice(&[0x00, 0x00, 0x22, 0x00, 0x00, 0x04, b'o', b'o', b'p', b's']);
    match Header::decode(&frame) {
        Err(MyError::Protocol(ProtocolError::Server { code, message })) => {
            assert_eq!(code, 0x2200);
            assert_eq!(message, "oops");
        }
        other => panic!("unexpected {:?}", other),
    }
}

#[test]
fn error_frame_with_missing_body_is_an_io_error() {
    let frame = vec![0x83, 0, 0, 0, 0x00, 0, 0, 0, 10, 0x00];
    assert!(matches!(Header::decode(&frame), Err(MyError::IO(_))));
}

#[test]
fn body_length_is_read_from_the_header() {
    assert_eq!(frame_body_length(&[0x83, 0, 0, 0, 0x08, 0x00, 0x01, 0x00, 0x02]), 0x0001_0002);
}

#[test]
fn io_errors_convert_into_my_error() {
    let e: MyError = std::io::Error::new(std::io::ErrorKind::BrokenPipe, "gone").into();
    assert!(matches!(e, MyError::IO(_)));
}
