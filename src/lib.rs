//! A codec for a length-framed, big-endian request/response protocol spoken with a
//! tabular database server: frame headers, primitive wire types, request encoders,
//! a recursive result decoder and the conversion of column values.

pub mod errors;
pub mod frame;
pub mod parser;
pub mod requests;
pub mod results;
pub mod types;
pub mod values;
pub mod wire;
