//! The errors of the codec.

use vstd::prelude::*;

verus! {

#[verifier::external_type_specification]
#[verifier::external_body]
pub struct ExIoError(std::io::Error);

/// Relies on `std::io::Error::from(ErrorKind::UnexpectedEof)`: the error a reader
/// reports when the stream ends before the bytes it was asked for.
#[verifier::external_body]
pub(crate) fn unexpected_eof() -> std::io::Error {
    std::io::Error::from(std::io::ErrorKind::UnexpectedEof)
}

/// Bytes that are malformed or that the protocol does not allow.
#[derive(Debug, PartialEq, Eq)]
pub enum ProtocolError {
    /// A field runs past the end of the body that holds it.
    Truncated,
    /// A string is not valid UTF-8.
    InvalidUtf8,
    UnknownVersion(u8),
    UnknownOpcode(u8),
    UnknownResultKind(i32),
    UnknownType(u16),
    /// A count or a length that must not be negative is.
    NegativeCount(i32),
    /// The body holds bytes after the last field of the result.
    TrailingBytes,
    /// A value is too long for the length prefix that frames it.
    TooLong,
    /// A column payload does not hold a value of the requested type.
    Malformed,
    /// The peer answered with another opcode than the one the exchange expects.
    UnexpectedOpcode(crate::frame::Opcode),
    /// The peer answered with an error frame.
    Server { code: u32, message: String },
}

/// A well-formed frame that uses a feature this codec does not implement.
#[derive(Debug, PartialEq, Eq)]
pub enum Unsupported {
    /// A result kind that the decoding path does not handle (its wire tag).
    ResultKind(i32),
    /// A rows result that carries no column metadata.
    NoMetadata,
    /// A user-defined column type.
    Udt,
    /// A tuple column type.
    Tuple,
}

#[derive(Debug)]
pub enum MyError {
    /// The byte stream failed or ended early.
    IO(std::io::Error),
    Protocol(ProtocolError),
    Unsupported(Unsupported),
    /// A row has no column of the requested name.
    UnknownColumn,
}

impl From<std::io::Error> for MyError {
    fn from(err: std::io::Error) -> MyError {
        MyError::IO(err)
    }
}

impl vstd::std_specs::convert::FromSpecImpl<std::io::Error> for MyError {
    open spec fn obeys_from_spec() -> bool {
        true
    }

    open spec fn from_spec(v: std::io::Error) -> MyError {
        MyError::IO(v)
    }
}

/// The error of a field that runs past the end of its body.
pub open spec fn truncated() -> MyError {
    MyError::Protocol(ProtocolError::Truncated)
}

} // verus!
