//! Column type descriptors: a recursive tree of scalar leaves and collection nodes.

use vstd::prelude::*;

use crate::errors::{truncated, MyError, ProtocolError, Unsupported};
use crate::wire::{decode_string, spec_string, spec_u16, take_u16, view_parsed};

verus! {

/// The type of a column.
#[derive(Debug, PartialEq, Eq)]
pub enum CQLType {
    /// A server-side type named by its class name.
    Custom(String),
    Ascii,
    Bigint,
    Blob,
    Boolean,
    Counter,
    Decimal,
    Double,
    Float,
    Int,
    Timestamp,
    Uuid,
    Varchar,
    Varint,
    Timeuuid,
    Inet,
    ListOf(Box<CQLType>),
    MapOf(Box<CQLType>, Box<CQLType>),
    SetOf(Box<CQLType>),
}

/// The mathematical form of a type descriptor: scalar leaves by their wire tag.
pub enum TypeView {
    Custom(Seq<char>),
    Scalar(u16),
    ListOf(Box<TypeView>),
    MapOf(Box<TypeView>, Box<TypeView>),
    SetOf(Box<TypeView>),
}

/// The wire tags of the scalar types: 0x0001 to 0x0010, but for the reserved 0x000A.
pub open spec fn is_scalar_tag(tag: u16) -> bool {
    1 <= tag <= 0x10 && tag != 0x0A
}

pub open spec fn type_view(t: CQLType) -> TypeView
    decreases t,
{
    match t {
        CQLType::Custom(name) => TypeView::Custom(name@),
        CQLType::Ascii => TypeView::Scalar(0x01),
        CQLType::Bigint => TypeView::Scalar(0x02),
        CQLType::Blob => TypeView::Scalar(0x03),
        CQLType::Boolean => TypeView::Scalar(0x04),
        CQLType::Counter => TypeView::Scalar(0x05),
        CQLType::Decimal => TypeView::Scalar(0x06),
        CQLType::Double => TypeView::Scalar(0x07),
        CQLType::Float => TypeView::Scalar(0x08),
        CQLType::Int => TypeView::Scalar(0x09),
        CQLType::Timestamp => TypeView::Scalar(0x0B),
        CQLType::Uuid => TypeView::Scalar(0x0C),
        CQLType::Varchar => TypeView::Scalar(0x0D),
        CQLType::Varint => TypeView::Scalar(0x0E),
        CQLType::Timeuuid => TypeView::Scalar(0x0F),
        CQLType::Inet => TypeView::Scalar(0x10),
        CQLType::ListOf(e) => TypeView::ListOf(Box::new(type_view(*e))),
        CQLType::MapOf(k, v) => TypeView::MapOf(Box::new(type_view(*k)), Box::new(type_view(*v))),
        CQLType::SetOf(e) => TypeView::SetOf(Box::new(type_view(*e))),
    }
}

impl View for CQLType {
    type V = TypeView;

    open spec fn view(&self) -> TypeView {
        type_view(*self)
    }
}

/// The type descriptor at offset `at`, and the offset after it: a big-endian `u16`
/// tag, then a class name for Custom, one nested descriptor for List and Set, and two
/// (key, then value) for Map.
pub open spec fn spec_type(s: Seq<u8>, at: int) -> Result<(TypeView, int), MyError>
    decreases s.len() - at,
{
    match spec_u16(s, at) {
        Err(e) => Err(e),
        Ok((tag, next)) => if tag == 0x0000 {
            match spec_string(s, next) {
                Err(e) => Err(e),
                Ok((name, end)) => Ok((TypeView::Custom(name), end)),
            }
        } else if is_scalar_tag(tag) {
            Ok((TypeView::Scalar(tag), next))
        } else if tag == 0x0020 || tag == 0x0022 {
            match spec_type(s, next) {
                Err(e) => Err(e),
                Ok((elem, end)) => Ok(
                    (
                        if tag == 0x0020 {
                            TypeView::ListOf(Box::new(elem))
                        } else {
                            TypeView::SetOf(Box::new(elem))
                        },
                        end,
                    ),
                ),
            }
        } else if tag == 0x0021 {
            match spec_type(s, next) {
                Err(e) => Err(e),
                // A descriptor always ends past its start and within `s`; the range
                // test keeps the definition well founded.
                Ok((key, mid)) => if mid <= at || mid > s.len() {
                    Err(truncated())
                } else {
                    match spec_type(s, mid) {
                        Err(e) => Err(e),
                        Ok((value, end)) => Ok(
                            (TypeView::MapOf(Box::new(key), Box::new(value)), end),
                        ),
                    }
                },
            }
        } else if tag == 0x0030 {
            Err(MyError::Unsupported(Unsupported::Udt))
        } else if tag == 0x0031 {
            Err(MyError::Unsupported(Unsupported::Tuple))
        } else {
            Err(MyError::Protocol(ProtocolError::UnknownType(tag)))
        },
    }
}

/// The scalar type whose tag is `tag`.
fn scalar_of_tag(tag: u16) -> (r: CQLType)
    requires
        is_scalar_tag(tag),
    ensures
        r@ == TypeView::Scalar(tag),
{
    match tag {
        0x01 => CQLType::Ascii,
        0x02 => CQLType::Bigint,
        0x03 => CQLType::Blob,
        0x04 => CQLType::Boolean,
        0x05 => CQLType::Counter,
        0x06 => CQLType::Decimal,
        0x07 => CQLType::Double,
        0x08 => CQLType::Float,
        0x09 => CQLType::Int,
        0x0B => CQLType::Timestamp,
        0x0C => CQLType::Uuid,
        0x0D => CQLType::Varchar,
        0x0E => CQLType::Varint,
        0x0F => CQLType::Timeuuid,
        _ => CQLType::Inet,
    }
}

impl CQLType {
    /// Decodes the type descriptor that starts at `pos`.
    pub fn decode(buf: &[u8], pos: usize) -> (r: Result<(CQLType, usize), MyError>)
        requires
            pos <= buf@.len(),
        ensures
            view_parsed(r) == spec_type(buf@, pos as int),
            r matches Ok((_, end)) ==> pos < end <= buf@.len(),
        decreases buf@.len() - pos,
    {
        let (tag, next) = take_u16(buf, pos)?;
        if tag == 0x0000 {
            let (name, end) = decode_string(buf, next)?;
            Ok((CQLType::Custom(name), end))
        } else if 1 <= tag && tag <= 0x10 && tag != 0x0A {
            Ok((scalar_of_tag(tag), next))
        } else if tag == 0x0020 || tag == 0x0022 {
            let (elem, end) = CQLType::decode(buf, next)?;
            if tag == 0x0020 {
                Ok((CQLType::ListOf(Box::new(elem)), end))
            } else {
                Ok((CQLType::SetOf(Box::new(elem)), end))
            }
        } else if tag == 0x0021 {
            let (key, mid) = CQLType::decode(buf, next)?;
            let (value, end) = CQLType::decode(buf, mid)?;
            Ok((CQLType::MapOf(Box::new(key), Box::new(value)), end))
        } else if tag == 0x0030 {
            Err(MyError::Unsupported(Unsupported::Udt))
        } else if tag == 0x0031 {
            Err(MyError::Unsupported(Unsupported::Tuple))
        } else {
            Err(MyError::Protocol(ProtocolError::UnknownType(tag)))
        }
    }
}

} // verus!
