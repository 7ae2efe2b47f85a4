use cassandra::frame::{Flags, Header, Opcode, Version};
use cassandra::parser::Parser;

#[test]
fn it_parsers_headers() {
    let req = vec![
        0x03, // version
        0x00, // flags
        0x00, // stream
        0x00, // stream
        0x05, // opcode
        0x00, // length
        0x00, // length
        0x00, // length
        0x01, // length
    ];
    let mut parser = Parser::new(req);

    assert_eq!(
        parser.parse_header(),
        Header {
            version: Version::Request,
            flags: Flags {
                compression: false,
                tracing: false
            },
            stream: 0,
            opcode: Opcode::Options,
            length: 1,
        }
    )
}

#[test]
fn parser_reads_integers_and_strings_in_order() {
    let bytes = vec![0xAB, 0x01, 0x02, 0xDE, 0xAD, 0xBE, 0xEF, 0x00, 0x02, b'h', b'i'];
    let mut parser = Parser::new(bytes);
    assert_eq!(parser.parse_u8(), 0xAB);
    assert_eq!(parser.parse_u16(), 0x0102);
    assert_eq!(parser.parse_u32(), 0xDEADBEEF);
    assert_eq!(parser.parse_string(), "hi".to_string());
}

#[test]
fn parser_reads_flags_bits() {
    let mut parser = Parser::new(vec![0x03, 0x83]);
    let flags = parser.parse_flags();
    assert!(flags.compression);
    assert!(flags.tracing);
    assert_eq!(parser.parse_version(), Version::Response);
}
