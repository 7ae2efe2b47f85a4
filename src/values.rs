//! The conversion of native values to and from the opaque bytes of one column value
//! or one bound value. Conversion is directed by the type that the caller asks for;
//! nothing checks it against the column's declared type, so asking for the wrong
//! type reinterprets the bytes or fails as malformed.

use vstd::prelude::*;
use vstd::utf8::{decode_utf8, encode_utf8, valid_utf8};
use byteorder::{ByteOrder, WriteBytesExt};

use crate::errors::{MyError, ProtocolError};
use crate::wire::{append_bytes, be_i32, i32_bytes, string_from_utf8};

verus! {

broadcast use vstd::utf8::group_utf8_lib;

/// Relies on byteorder's `BigEndian::read_i32`: the first four bytes of the slice as
/// a big-endian two's complement integer (it panics on fewer, which `requires` rules out).
#[verifier::external_body]
fn read_i32_be(buf: &[u8]) -> (r: i32)
    requires
        buf@.len() >= 4,
    ensures
        r == be_i32(buf@),
{
    byteorder::BigEndian::read_i32(buf)
}

/// Relies on byteorder's `WriteBytesExt::write_i32` with `BigEndian` on a `Vec<u8>`:
/// it appends the four bytes (writing into a `Vec` does not fail).
#[verifier::external_body]
fn push_i32_be(buf: &mut Vec<u8>, x: i32)
    ensures
        final(buf)@ == old(buf)@ + i32_bytes(x),
{
    let _ = buf.write_i32::<byteorder::BigEndian>(x);
}

/// A native value that can be sent as a bound value.
pub trait ToCQL {
    /// The bytes of the value, or `None` where a length does not fit its prefix.
    spec fn cql_bytes(&self) -> Option<Seq<u8>>;

    fn serialize(&self) -> (r: Result<Vec<u8>, MyError>)
        ensures
            match r {
                Ok(b) => self.cql_bytes() == Some(b@),
                Err(e) => self.cql_bytes() is None && e == MyError::Protocol(ProtocolError::TooLong),
            },
    ;
}

/// A native value that can be read from the bytes of a column value.
pub trait FromCQL: Sized {
    /// Whether `bytes` holds a value of this type.
    spec fn cql_valid(bytes: Seq<u8>) -> bool;

    /// Whether `v` is the value that the valid `bytes` hold.
    spec fn cql_value(bytes: Seq<u8>, v: Self) -> bool;

    fn parse(buf: &[u8]) -> (r: Result<Self, MyError>)
        ensures
            match r {
                Ok(v) => Self::cql_valid(buf@) && Self::cql_value(buf@, v),
                Err(e) => !Self::cql_valid(buf@) && e == MyError::Protocol(ProtocolError::Malformed),
            },
    ;
}

/// A 32-bit integer: four big-endian bytes.
impl ToCQL for i32 {
    open spec fn cql_bytes(&self) -> Option<Seq<u8>> {
        Some(i32_bytes(*self))
    }

    fn serialize(&self) -> (r: Result<Vec<u8>, MyError>) {
        let mut out: Vec<u8> = Vec::new();
        push_i32_be(&mut out, *self);
        Ok(out)
    }
}

impl FromCQL for i32 {
    open spec fn cql_valid(bytes: Seq<u8>) -> bool {
        bytes.len() == 4
    }

    open spec fn cql_value(bytes: Seq<u8>, v: i32) -> bool {
        v == be_i32(bytes)
    }

    fn parse(buf: &[u8]) -> (r: Result<i32, MyError>) {
        if buf.len() != 4 {
            return Err(MyError::Protocol(ProtocolError::Malformed));
        }
        Ok(read_i32_be(buf))
    }
}

/// Text: its UTF-8 bytes, with no length prefix of its own.
impl ToCQL for String {
    open spec fn cql_bytes(&self) -> Option<Seq<u8>> {
        Some(encode_utf8(self@))
    }

    fn serialize(&self) -> (r: Result<Vec<u8>, MyError>) {
        Ok(vstd::slice::slice_to_vec(self.as_str().as_bytes()))
    }
}

impl<'a> ToCQL for &'a str {
    open spec fn cql_bytes(&self) -> Option<Seq<u8>> {
        Some(encode_utf8((**self)@))
    }

    fn serialize(&self) -> (r: Result<Vec<u8>, MyError>) {
        Ok(vstd::slice::slice_to_vec(self.as_bytes()))
    }
}

impl FromCQL for String {
    open spec fn cql_valid(bytes: Seq<u8>) -> bool {
        valid_utf8(bytes)
    }

    open spec fn cql_value(bytes: Seq<u8>, v: String) -> bool {
        v@ == decode_utf8(bytes)
    }

    fn parse(buf: &[u8]) -> (r: Result<String, MyError>) {
        match string_from_utf8(vstd::slice::slice_to_vec(buf)) {
            Some(s) => {
                proof {
                    vstd::utf8::encode_utf8_decode_utf8(s@);
                }
                Ok(s)
            },
            None => Err(MyError::Protocol(ProtocolError::Malformed)),
        }
    }
}

/// A boolean: one byte, 0x01 for true and 0x00 for false; any non-zero byte reads as true.
impl ToCQL for bool {
    open spec fn cql_bytes(&self) -> Option<Seq<u8>> {
        Some(if *self { seq![1u8] } else { seq![0u8] })
    }

    fn serialize(&self) -> (r: Result<Vec<u8>, MyError>) {
        let mut out: Vec<u8> = Vec::new();
        out.push(if *self { 1u8 } else { 0u8 });
        proof {
            assert(out@ =~= self.cql_bytes().unwrap());
        }
        Ok(out)
    }
}

impl FromCQL for bool {
    open spec fn cql_valid(bytes: Seq<u8>) -> bool {
        bytes.len() == 1
    }

    open spec fn cql_value(bytes: Seq<u8>, v: bool) -> bool {
        v == (bytes[0] != 0)
    }

    fn parse(buf: &[u8]) -> (r: Result<bool, MyError>) {
        if buf.len() != 1 {
            return Err(MyError::Protocol(ProtocolError::Malformed));
        }
        Ok(buf[0] != 0)
    }
}

/// A 128-bit UUID, held as its 16 bytes in RFC 4122 order.
#[derive(Debug, Clone, PartialEq, Eq, Hash)]
pub struct Uuid {
    bytes: Vec<u8>,
}

impl View for Uuid {
    type V = Seq<u8>;

    closed spec fn view(&self) -> Seq<u8> {
        self.bytes@
    }
}

impl Uuid {
    /// The UUID whose bytes are `b`, which must be 16.
    pub fn from_slice(b: &[u8]) -> (r: Option<Uuid>)
        ensures
            r is Some <==> b@.len() == 16,
            r matches Some(u) ==> u@ == b@,
    {
        if b.len() != 16 {
            return None;
        }
        Some(Uuid { bytes: vstd::slice::slice_to_vec(b) })
    }

    pub fn as_bytes(&self) -> (r: &[u8])
        ensures
            r@ == self@,
    {
        self.bytes.as_slice()
    }
}

impl ToCQL for Uuid {
    open spec fn cql_bytes(&self) -> Option<Seq<u8>> {
        Some(self@)
    }

    fn serialize(&self) -> (r: Result<Vec<u8>, MyError>) {
        Ok(vstd::slice::slice_to_vec(self.as_bytes()))
    }
}

impl FromCQL for Uuid {
    open spec fn cql_valid(bytes: Seq<u8>) -> bool {
        bytes.len() == 16
    }

    open spec fn cql_value(bytes: Seq<u8>, v: Uuid) -> bool {
        v@ == bytes
    }

    fn parse(buf: &[u8]) -> (r: Result<Uuid, MyError>) {
        match Uuid::from_slice(buf) {
            Some(u) => Ok(u),
            None => Err(MyError::Protocol(ProtocolError::Malformed)),
        }
    }
}

/// The elements of a collection, each as a big-endian `i32` length, then its bytes;
/// `None` where one cannot be sent or its length does not fit.
pub open spec fn items_bytes<T: ToCQL>(items: Seq<T>) -> Option<Seq<u8>>
    decreases items.len(),
{
    if items.len() == 0 {
        Some(seq![])
    } else {
        match (items_bytes(items.drop_last()), items.last().cql_bytes()) {
            (Some(front), Some(b)) => if b.len() <= i32::MAX {
                Some(front + i32_bytes(b.len() as i32) + b)
            } else {
                None
            },
            _ => None,
        }
    }
}

proof fn lemma_items_bytes_none<T: ToCQL>(items: Seq<T>, i: nat)
    requires
        i <= items.len(),
        items_bytes(items.subrange(0, i as int)) is None,
    ensures
        items_bytes(items) is None,
    decreases items.len() - i,
{
    if i < items.len() {
        assert(items.subrange(0, (i + 1) as int).drop_last() =~= items.subrange(0, i as int));
        lemma_items_bytes_none(items, i + 1);
    } else {
        assert(items.subrange(0, i as int) =~= items);
    }
}

/// A homogeneous collection: the number of elements as a big-endian `i32`, then the
/// elements, each with its own `i32` length.
impl<T: ToCQL> ToCQL for Vec<T> {
    open spec fn cql_bytes(&self) -> Option<Seq<u8>> {
        if self@.len() > i32::MAX {
            None
        } else {
            match items_bytes(self@) {
                Some(b) => Some(i32_bytes(self@.len() as i32) + b),
                None => None,
            }
        }
    }

    fn serialize(&self) -> (r: Result<Vec<u8>, MyError>) {
        if self.len() > 0x7FFF_FFFF {
            return Err(MyError::Protocol(ProtocolError::TooLong));
        }
        let mut out: Vec<u8> = Vec::new();
        push_i32_be(&mut out, self.len() as i32);
        let mut i: usize = 0;
        while i < self.len()
            invariant
                i <= self@.len() <= i32::MAX,
                items_bytes(self@.subrange(0, i as int)) is Some,
                out@ == i32_bytes(self@.len() as i32) + items_bytes(
                    self@.subrange(0, i as int),
                ).unwrap(),
            decreases self@.len() - i,
        {
            assert(self@.subrange(0, i + 1).drop_last() =~= self@.subrange(0, i as int));
            assert(self@.subrange(0, i + 1).last() == self@[i as int]);
            let item = match self[i].serialize() {
                Ok(b) => b,
                Err(e) => {
                    proof {
                        lemma_items_bytes_none(self@, (i + 1) as nat);
                    }
                    return Err(e);
                },
            };
            if item.len() > 0x7FFF_FFFF {
                proof {
                    lemma_items_bytes_none(self@, (i + 1) as nat);
                }
                return Err(MyError::Protocol(ProtocolError::TooLong));
            }
            push_i32_be(&mut out, item.len() as i32);
            append_bytes(&mut out, item.as_slice());
            i = i + 1;
        }
        assert(self@.subrange(0, i as int) =~= self@);
        Ok(out)
    }
}

/// The payloads of the first `n` elements of the collection `b`, which start after
/// its 4-byte count, and the offset after them.
pub open spec fn spec_items(b: Seq<u8>, n: nat) -> Option<(Seq<Seq<u8>>, int)>
    decreases n,
{
    if n == 0 {
        Some((seq![], 4))
    } else {
        match spec_items(b, (n - 1) as nat) {
            None => None,
            Some((items, at)) => if at + 4 > b.len() {
                None
            } else {
                let len = be_i32(b.subrange(at, at + 4));
                if len < 0 || at + 4 + len > b.len() {
                    None
                } else {
                    Some((items.push(b.subrange(at + 4, at + 4 + len)), at + 4 + len))
                }
            },
        }
    }
}

/// The element payloads of the collection `b`, if it is framed well: a count that is
/// not negative, then that many elements. Bytes after the last element are ignored.
pub open spec fn collection_items(b: Seq<u8>) -> Option<Seq<Seq<u8>>> {
    if b.len() < 4 {
        None
    } else {
        let count = be_i32(b.subrange(0, 4));
        if count < 0 {
            None
        } else {
            match spec_items(b, count as nat) {
                Some((items, _)) => Some(items),
                None => None,
            }
        }
    }
}

proof fn lemma_items_none(b: Seq<u8>, i: nat, n: nat)
    requires
        i <= n,
        spec_items(b, i) is None,
    ensures
        spec_items(b, n) is None,
    decreases n,
{
    if n > i {
        lemma_items_none(b, i, (n - 1) as nat);
    }
}

proof fn lemma_items_prefix(b: Seq<u8>, i: nat, n: nat)
    requires
        i <= n,
        spec_items(b, n) is Some,
    ensures
        spec_items(b, i) is Some,
        spec_items(b, n).unwrap().0.len() == n,
        spec_items(b, i).unwrap().0 == spec_items(b, n).unwrap().0.subrange(0, i as int),
    decreases n,
{
    if n > 0 {
        lemma_items_prefix(b, (n - 1) as nat, (n - 1) as nat);
        if i < n {
            lemma_items_prefix(b, i, (n - 1) as nat);
            let whole = spec_items(b, n).unwrap().0;
            let front = spec_items(b, (n - 1) as nat).unwrap().0;
            assert(whole.subrange(0, i as int) =~= front.subrange(0, i as int));
        } else {
            assert(spec_items(b, n).unwrap().0.subrange(0, i as int) =~= spec_items(b, n).unwrap().0);
        }
    }
}

pub open spec fn collection_valid<T: FromCQL>(bytes: Seq<u8>) -> bool {
    match collection_items(bytes) {
        Some(items) => forall|i: int| 0 <= i < items.len() ==> T::cql_valid(#[trigger] items[i]),
        None => false,
    }
}

proof fn lemma_invalid_item<T: FromCQL>(b: Seq<u8>, items: Seq<Seq<u8>>, i: int)
    requires
        collection_items(b) == Some(items),
        0 <= i < items.len(),
        !T::cql_valid(items[i]),
    ensures
        !<Vec<T> as FromCQL>::cql_valid(b),
{
    assert(collection_items(b).unwrap() == items);
    if collection_valid::<T>(b) {
        assert(T::cql_valid(items[i]));
    }
}

impl<T: FromCQL> FromCQL for Vec<T> {
    open spec fn cql_valid(bytes: Seq<u8>) -> bool {
        collection_valid::<T>(bytes)
    }

    open spec fn cql_value(bytes: Seq<u8>, v: Vec<T>) -> bool {
        match collection_items(bytes) {
            Some(items) => v@.len() == items.len() && forall|i: int|
                0 <= i < items.len() ==> T::cql_value(#[trigger] items[i], v@[i]),
            None => false,
        }
    }

    fn parse(buf: &[u8]) -> (r: Result<Vec<T>, MyError>) {
        if buf.len() < 4 {
            return Err(MyError::Protocol(ProtocolError::Malformed));
        }
        let count = read_i32_be(buf);
        assert(be_i32(buf@) == be_i32(buf@.subrange(0, 4)));
        if count < 0 {
            return Err(MyError::Protocol(ProtocolError::Malformed));
        }
        let n = count as usize;
        let mut out: Vec<T> = Vec::new();
        let mut at: usize = 4;
        let mut i: usize = 0;
        while i < n
            invariant
                i <= n,
                n == count,
                4 <= at <= buf@.len(),
                count == be_i32(buf@.subrange(0, 4)),
                spec_items(buf@, i as nat) matches Some((items, end)) && end == at && items.len()
                    == i && out@.len() == i && forall|k: int|
                    0 <= k < i ==> T::cql_valid(#[trigger] items[k]) && T::cql_value(
                        items[k],
                        out@[k],
                    ),
            decreases n - i,
        {
            if buf.len() - at < 4 {
                proof {
                    lemma_items_none(buf@, (i + 1) as nat, n as nat);
                }
                return Err(MyError::Protocol(ProtocolError::Malformed));
            }
            let len = read_i32_be(&buf[at..at + 4]);
            if len < 0 || len as usize > buf.len() - at - 4 {
                proof {
                    lemma_items_none(buf@, (i + 1) as nat, n as nat);
                }
                return Err(MyError::Protocol(ProtocolError::Malformed));
            }
            let start = at + 4;
            let end = start + len as usize;
            let item = &buf[start..end];
            let ghost items_before = spec_items(buf@, i as nat).unwrap().0;
            assert(spec_items(buf@, (i + 1) as nat) == Some::<(Seq<Seq<u8>>, int)>(
                (items_before.push(item@), end as int),
            ));
            match T::parse(item) {
                Ok(v) => {
                    out.push(v);
                    at = end;
                    i = i + 1;
                    proof {
                        let items = spec_items(buf@, i as nat).unwrap().0;
                        assert forall|k: int| 0 <= k < i implies T::cql_valid(#[trigger] items[k])
                            && T::cql_value(items[k], out@[k]) by {
                            if k < i - 1 {
                                assert(items[k] == items_before[k]);
                            }
                        }
                    }
                },
                Err(e) => {
                    proof {
                        if spec_items(buf@, n as nat) is Some {
                            lemma_items_prefix(buf@, (i + 1) as nat, n as nat);
                            let all = spec_items(buf@, n as nat).unwrap().0;
                            assert(all.subrange(0, i + 1)[i as int] == all[i as int]);
                            assert(all[i as int] == item@);
                            assert(collection_items(buf@) == Some(all));
                            lemma_invalid_item::<T>(buf@, all, i as int);
                        } else {
                            assert(collection_items(buf@) is None);
                        }
                    }
                    return Err(e);
                },
            }
        }
        proof {
            let items = spec_items(buf@, n as nat).unwrap().0;
            assert(collection_items(buf@) == Some(items));
        }
        Ok(out)
    }
}

} // verus!
