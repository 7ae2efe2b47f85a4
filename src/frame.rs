//! The fixed 9-byte frame header, and the traits of values that are written to or read
//! from whole frames.

use vstd::prelude::*;

use crate::errors::{unexpected_eof, MyError, ProtocolError};
use crate::wire::{
    be_u16, be_u32, decode_string, spec_string, spec_u32, take_u16, take_u32, u16_bytes,
    u32_bytes, write_u16_be, write_u32_be, lemma_u16_round_trip, lemma_u32_round_trip,
};

verus! {

/// The number of bytes of a frame header.
pub const HEADER_LEN: usize = 9;

/// A value that is sent as bytes.
pub trait ToWire {
    /// The bytes that stand for `self`, or `None` where a field is too long for its
    /// length prefix.
    spec fn wire_bytes(&self) -> Option<Seq<u8>>;

    /// Appends the bytes that stand for `self`; on failure `buffer` is left as it was.
    fn encode(&self, buffer: &mut Vec<u8>) -> (r: Result<(), MyError>)
        ensures
            r is Ok <==> self.wire_bytes() is Some,
            r is Ok ==> final(buffer)@ == old(buffer)@ + self.wire_bytes().unwrap(),
            r matches Err(e) ==> final(buffer)@ == old(buffer)@ && e == MyError::Protocol(
                ProtocolError::TooLong,
            ),
    ;
}

/// A value that is read from a frame that starts at the first byte of a buffer.
pub trait FromWire: Sized {
    /// Whether `r` is the outcome of decoding the frame at the start of `bytes`.
    spec fn decodes_to(bytes: Seq<u8>, r: Result<Self, MyError>) -> bool;

    fn decode(buffer: &[u8]) -> (r: Result<Self, MyError>)
        ensures
            Self::decodes_to(buffer@, r),
    ;
}

#[derive(Debug, Clone, Copy, PartialEq, Eq, Structural)]
pub enum Version {
    Request,
    Response,
}

impl Version {
    pub open spec fn spec_byte(self) -> u8 {
        match self {
            Version::Request => 0x03,
            Version::Response => 0x83,
        }
    }

    pub fn to_byte(&self) -> (r: u8)
        ensures
            r == self.spec_byte(),
    {
        match self {
            Version::Request => 0x03,
            Version::Response => 0x83,
        }
    }

    pub fn from_byte(b: u8) -> (r: Option<Version>)
        ensures
            r == version_of(b),
    {
        if b == 0x03 {
            Some(Version::Request)
        } else if b == 0x83 {
            Some(Version::Response)
        } else {
            None
        }
    }
}

/// The version whose byte is `b`.
pub open spec fn version_of(b: u8) -> Option<Version> {
    if b == 0x03 {
        Some(Version::Request)
    } else if b == 0x83 {
        Some(Version::Response)
    } else {
        None
    }
}

#[derive(Debug, Clone, Copy, PartialEq, Eq, Structural)]
pub struct Flags {
    pub compression: bool,
    pub tracing: bool,
}

impl Flags {
    /// Both flags off.
    pub fn new() -> (r: Flags)
        ensures
            !r.compression && !r.tracing,
    {
        Flags { compression: false, tracing: false }
    }

    /// Bit 0 for compression, bit 1 for tracing.
    pub open spec fn spec_byte(self) -> u8 {
        ((if self.compression { 1int } else { 0int }) + (if self.tracing { 2int } else { 0int })) as u8
    }

    pub fn to_byte(&self) -> (r: u8)
        ensures
            r == self.spec_byte(),
    {
        let compression: u8 = if self.compression { 0x01 } else { 0x00 };
        let tracing: u8 = if self.tracing { 0x02 } else { 0x00 };
        compression + tracing
    }

    pub fn from_byte(b: u8) -> (r: Flags)
        ensures
            r == flags_of(b),
    {
        Flags { compression: (b & 0x01) != 0, tracing: (b & 0x02) != 0 }
    }
}

/// The flags that the byte `b` sets; its other bits are ignored.
pub open spec fn flags_of(b: u8) -> Flags {
    Flags { compression: (b & 0x01) != 0, tracing: (b & 0x02) != 0 }
}

pub proof fn lemma_flags_round_trip(f: Flags)
    ensures
        flags_of(f.spec_byte()) == f,
{
    assert((0u8 & 0x01u8) == 0u8 && (0u8 & 0x02u8) == 0u8) by (bit_vector);
    assert((1u8 & 0x01u8) != 0u8 && (1u8 & 0x02u8) == 0u8) by (bit_vector);
    assert((2u8 & 0x01u8) == 0u8 && (2u8 & 0x02u8) != 0u8) by (bit_vector);
    assert((3u8 & 0x01u8) != 0u8 && (3u8 & 0x02u8) != 0u8) by (bit_vector);
}

#[derive(Debug, Clone, Copy, PartialEq, Eq, Structural)]
pub enum Opcode {
    Error,
    Startup,
    Ready,
    Authenticate,
    Options,
    Supported,
    Query,
    Result,
    Prepare,
    Execute,
    Register,
    Event,
    Batch,
    AuthChallenge,
    AuthResponse,
    AuthSuccess,
}

impl Opcode {
    pub open spec fn spec_byte(self) -> u8 {
        match self {
            Opcode::Error => 0x00,
            Opcode::Startup => 0x01,
            Opcode::Ready => 0x02,
            Opcode::Authenticate => 0x03,
            Opcode::Options => 0x05,
            Opcode::Supported => 0x06,
            Opcode::Query => 0x07,
            Opcode::Result => 0x08,
            Opcode::Prepare => 0x09,
            Opcode::Execute => 0x0A,
            Opcode::Register => 0x0B,
            Opcode::Event => 0x0C,
            Opcode::Batch => 0x0D,
            Opcode::AuthChallenge => 0x0E,
            Opcode::AuthResponse => 0x0F,
            Opcode::AuthSuccess => 0x10,
        }
    }

    pub fn to_byte(&self) -> (r: u8)
        ensures
            r == self.spec_byte(),
    {
        match self {
            Opcode::Error => 0x00,
            Opcode::Startup => 0x01,
            Opcode::Ready => 0x02,
            Opcode::Authenticate => 0x03,
            Opcode::Options => 0x05,
            Opcode::Supported => 0x06,
            Opcode::Query => 0x07,
            Opcode::Result => 0x08,
            Opcode::Prepare => 0x09,
            Opcode::Execute => 0x0A,
            Opcode::Register => 0x0B,
            Opcode::Event => 0x0C,
            Opcode::Batch => 0x0D,
            Opcode::AuthChallenge => 0x0E,
            Opcode::AuthResponse => 0x0F,
            Opcode::AuthSuccess => 0x10,
        }
    }

    /// The opcode whose tag is `b`, if any.
    pub fn from_byte(b: u8) -> (r: Option<Opcode>)
        ensures
            r == opcode_of(b),
    {
        match b {
            0x00 => Some(Opcode::Error),
            0x01 => Some(Opcode::Startup),
            0x02 => Some(Opcode::Ready),
            0x03 => Some(Opcode::Authenticate),
            0x05 => Some(Opcode::Options),
            0x06 => Some(Opcode::Supported),
            0x07 => Some(Opcode::Query),
            0x08 => Some(Opcode::Result),
            0x09 => Some(Opcode::Prepare),
            0x0A => Some(Opcode::Execute),
            0x0B => Some(Opcode::Register),
            0x0C => Some(Opcode::Event),
            0x0D => Some(Opcode::Batch),
            0x0E => Some(Opcode::AuthChallenge),
            0x0F => Some(Opcode::AuthResponse),
            0x10 => Some(Opcode::AuthSuccess),
            _ => None,
        }
    }
}

/// The opcode whose tag is `b`, if any.
pub open spec fn opcode_of(b: u8) -> Option<Opcode> {
    match b {
        0x00 => Some(Opcode::Error),
        0x01 => Some(Opcode::Startup),
        0x02 => Some(Opcode::Ready),
        0x03 => Some(Opcode::Authenticate),
        0x05 => Some(Opcode::Options),
        0x06 => Some(Opcode::Supported),
        0x07 => Some(Opcode::Query),
        0x08 => Some(Opcode::Result),
        0x09 => Some(Opcode::Prepare),
        0x0A => Some(Opcode::Execute),
        0x0B => Some(Opcode::Register),
        0x0C => Some(Opcode::Event),
        0x0D => Some(Opcode::Batch),
        0x0E => Some(Opcode::AuthChallenge),
        0x0F => Some(Opcode::AuthResponse),
        0x10 => Some(Opcode::AuthSuccess),
        _ => None,
    }
}

/// Every opcode is found again from its byte.
pub proof fn lemma_opcode_round_trip(op: Opcode)
    ensures
        opcode_of(op.spec_byte()) == Some(op),
{
}

#[derive(Debug, Clone, Copy, PartialEq, Eq, Structural)]
pub struct Header {
    pub version: Version,
    pub flags: Flags,
    /// The stream id, which this codec always sets to 0.
    pub stream: u16,
    pub opcode: Opcode,
    /// The number of body bytes that follow the header.
    pub length: u32,
}

/// The 9 bytes of a header: version, flags, stream id, opcode, body length.
pub open spec fn header_bytes(h: Header) -> Seq<u8> {
    seq![h.version.spec_byte(), h.flags.spec_byte()] + u16_bytes(h.stream) + seq![
        h.opcode.spec_byte(),
    ] + u32_bytes(h.length)
}

/// What decoding a frame header from `s` comes to.
pub enum HeaderView {
    /// The bytes end before the header does, or before the body of an error frame does.
    Short,
    /// The bytes are refused with this error.
    Rejected(MyError),
    /// An error frame with this code and message.
    Server(u32, Seq<char>),
    /// A header of any opcode but `Error`.
    Decoded(Header),
}

/// The body of an error frame: a big-endian `u32` code, then a string.
pub open spec fn spec_error_body(body: Seq<u8>) -> HeaderView {
    match spec_u32(body, 0) {
        Err(e) => HeaderView::Rejected(e),
        Ok((code, at)) => match spec_string(body, at) {
            Err(e) => HeaderView::Rejected(e),
            Ok((message, _)) => HeaderView::Server(code, message),
        },
    }
}

/// The header at the start of `s`, with the version checked before the opcode. A
/// header whose opcode is `Error` stands for the error that its body carries.
pub open spec fn spec_header(s: Seq<u8>) -> HeaderView {
    if s.len() < 9 {
        HeaderView::Short
    } else {
        match version_of(s[0]) {
            None => HeaderView::Rejected(MyError::Protocol(ProtocolError::UnknownVersion(s[0]))),
            Some(version) => match opcode_of(s[4]) {
                None => HeaderView::Rejected(MyError::Protocol(ProtocolError::UnknownOpcode(s[4]))),
                Some(opcode) => {
                    let length = be_u32(s.subrange(5, 9));
                    if opcode != Opcode::Error {
                        HeaderView::Decoded(
                            Header {
                                version,
                                flags: flags_of(s[1]),
                                stream: be_u16(s.subrange(2, 4)),
                                opcode,
                                length,
                            },
                        )
                    } else if s.len() < 9 + length {
                        HeaderView::Short
                    } else {
                        spec_error_body(s.subrange(9, 9 + length))
                    }
                },
            },
        }
    }
}

/// Whether `r` is the failure that the header outcome `o` calls for (`o` is no `Decoded`).
pub open spec fn fails_as<T>(o: HeaderView, r: Result<T, MyError>) -> bool {
    match o {
        HeaderView::Short => r matches Err(MyError::IO(_)),
        HeaderView::Rejected(e) => r matches Err(f) && f == e,
        HeaderView::Server(code, message) => r matches Err(
            MyError::Protocol(ProtocolError::Server { code: c, message: m }),
        ) && c == code && m@ == message,
        HeaderView::Decoded(_) => false,
    }
}

impl Header {
    /// A request header with the given flags, stream 0, and the given opcode and body length.
    pub open spec fn request_spec(opcode: Opcode, length: u32, flags: Flags) -> Header {
        Header { version: Version::Request, flags, stream: 0, opcode, length }
    }

    /// A request header with no flags set, stream 0, and the given opcode and body length.
    pub fn request(opcode: Opcode, length: u32) -> (r: Header)
        ensures
            r == (Header { version: Version::Request, flags: r.flags, stream: 0, opcode, length }),
            !r.flags.compression && !r.flags.tracing,
    {
        Header { version: Version::Request, flags: Flags::new(), stream: 0, opcode, length }
    }

    /// Checks that the peer answered with `expected`.
    pub fn expect_opcode(&self, expected: Opcode) -> (r: Result<(), MyError>)
        ensures
            r is Ok <==> self.opcode == expected,
            r matches Err(e) ==> e == MyError::Protocol(ProtocolError::UnexpectedOpcode(self.opcode)),
    {
        if self.opcode == expected {
            Ok(())
        } else {
            Err(MyError::Protocol(ProtocolError::UnexpectedOpcode(self.opcode)))
        }
    }

    /// Appends the 9 header bytes.
    pub fn write(&self, buffer: &mut Vec<u8>)
        ensures
            final(buffer)@ == old(buffer)@ + header_bytes(*self),
    {
        buffer.push(self.version.to_byte());
        buffer.push(self.flags.to_byte());
        write_u16_be(buffer, self.stream);
        buffer.push(self.opcode.to_byte());
        write_u32_be(buffer, self.length);
        proof {
            assert(final(buffer)@ =~= old(buffer)@ + header_bytes(*self));
        }
    }
}

impl ToWire for Header {
    open spec fn wire_bytes(&self) -> Option<Seq<u8>> {
        Some(header_bytes(*self))
    }

    fn encode(&self, buffer: &mut Vec<u8>) -> (r: Result<(), MyError>) {
        self.write(buffer);
        Ok(())
    }
}

impl FromWire for Header {
    open spec fn decodes_to(bytes: Seq<u8>, r: Result<Header, MyError>) -> bool {
        match spec_header(bytes) {
            HeaderView::Decoded(h) => r == Ok::<Header, MyError>(h),
            o => fails_as(o, r),
        }
    }

    fn decode(buffer: &[u8]) -> (r: Result<Header, MyError>) {
        if buffer.len() < HEADER_LEN {
            return Err(MyError::IO(unexpected_eof()));
        }
        let version = match Version::from_byte(buffer[0]) {
            Some(v) => v,
            None => return Err(MyError::Protocol(ProtocolError::UnknownVersion(buffer[0]))),
        };
        let flags = Flags::from_byte(buffer[1]);
        let (stream, _) = take_u16(buffer, 2)?;
        let opcode = match Opcode::from_byte(buffer[4]) {
            Some(op) => op,
            None => return Err(MyError::Protocol(ProtocolError::UnknownOpcode(buffer[4]))),
        };
        let (length, _) = take_u32(buffer, 5)?;
        match opcode {
            Opcode::Error => {
                if length as usize > buffer.len() - HEADER_LEN {
                    return Err(MyError::IO(unexpected_eof()));
                }
                let body = &buffer[HEADER_LEN..HEADER_LEN + length as usize];
                let (code, at) = take_u32(body, 0)?;
                let (message, _) = decode_string(body, at)?;
                Err(MyError::Protocol(ProtocolError::Server { code, message }))
            },
            _ => Ok(Header { version, flags, stream, opcode, length }),
        }
    }
}

/// The body length that the 9 header bytes at the start of `header` announce, so that
/// a transport knows how many bytes to read after them.
pub fn frame_body_length(header: &[u8]) -> (r: u32)
    requires
        header@.len() >= 9,
    ensures
        r == be_u32(header@.subrange(5, 9)),
{
    match take_u32(header, 5) {
        Ok((n, _)) => n,
        // The precondition makes the four bytes present.
        Err(_) => 0,
    }
}

/// Decoding the bytes of a header gives that header back, for every header whose
/// opcode is not `Error` (an error frame decodes to the error its body carries).
pub proof fn lemma_header_round_trip(h: Header, rest: Seq<u8>)
    requires
        h.opcode != Opcode::Error,
    ensures
        spec_header(header_bytes(h) + rest) == HeaderView::Decoded(h),
{
    let s = header_bytes(h) + rest;
    lemma_flags_round_trip(h.flags);
    lemma_u16_round_trip(h.stream);
    lemma_u32_round_trip(h.length);
    assert(s.subrange(2, 4) =~= u16_bytes(h.stream));
    assert(s.subrange(5, 9) =~= u32_bytes(h.length));
    assert(s[0] == h.version.spec_byte());
    assert(s[4] == h.opcode.spec_byte());
    lemma_opcode_round_trip(h.opcode);
}

} // verus!
