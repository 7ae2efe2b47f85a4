//! Primitive wire types: big-endian integers, length-prefixed strings, string maps
//! and string multimaps.

use vstd::prelude::*;
use vstd::utf8::{decode_utf8, encode_utf8, valid_utf8};
use podio::{ReadPodExt, WritePodExt};

use crate::errors::{truncated, MyError, ProtocolError};

verus! {

broadcast use vstd::utf8::group_utf8_lib;

/// The big-endian value of the first two bytes of `s`.
pub open spec fn be_u16(s: Seq<u8>) -> u16 {
    ((s[0] as u16) << 8u16) | (s[1] as u16)
}

/// The big-endian value of the first four bytes of `s`.
pub open spec fn be_u32(s: Seq<u8>) -> u32 {
    ((s[0] as u32) << 24u32) | ((s[1] as u32) << 16u32) | ((s[2] as u32) << 8u32) | (s[3] as u32)
}

/// The first four bytes of `s` read as a big-endian two's complement integer.
pub open spec fn be_i32(s: Seq<u8>) -> i32 {
    be_u32(s) as i32
}

pub open spec fn u16_bytes(x: u16) -> Seq<u8> {
    seq![(x >> 8u16) as u8, x as u8]
}

pub open spec fn u32_bytes(x: u32) -> Seq<u8> {
    seq![(x >> 24u32) as u8, (x >> 16u32) as u8, (x >> 8u32) as u8, x as u8]
}

pub open spec fn i32_bytes(x: i32) -> Seq<u8> {
    u32_bytes(x as u32)
}

pub proof fn lemma_u16_round_trip(x: u16)
    ensures
        be_u16(u16_bytes(x)) == x,
{
    let b0 = (x >> 8u16) as u8;
    let b1 = x as u8;
    assert((((b0 as u16) << 8u16) | (b1 as u16)) == x) by (bit_vector)
        requires
            b0 == (x >> 8u16) as u8,
            b1 == x as u8,
    ;
}

pub proof fn lemma_u32_round_trip(x: u32)
    ensures
        be_u32(u32_bytes(x)) == x,
{
    let b0 = (x >> 24u32) as u8;
    let b1 = (x >> 16u32) as u8;
    let b2 = (x >> 8u32) as u8;
    let b3 = x as u8;
    assert((((b0 as u32) << 24u32) | ((b1 as u32) << 16u32) | ((b2 as u32) << 8u32) | (b3 as u32))
        == x) by (bit_vector)
        requires
            b0 == (x >> 24u32) as u8,
            b1 == (x >> 16u32) as u8,
            b2 == (x >> 8u32) as u8,
            b3 == x as u8,
    ;
}

pub proof fn lemma_i32_round_trip(x: i32)
    ensures
        be_i32(i32_bytes(x)) == x,
{
    lemma_u32_round_trip(x as u32);
    assert(((x as u32) as i32) == x) by (bit_vector);
}

/// Relies on podio's `ReadPodExt::read_u16` with `BigEndian`, reading from a byte slice:
/// it takes the first two bytes, and fails when fewer are left.
#[verifier::external_body]
pub(crate) fn read_u16_at(buf: &[u8], pos: usize) -> (r: Option<u16>)
    requires
        pos <= buf@.len(),
    ensures
        pos + 2 <= buf@.len() ==> r == Some(be_u16(buf@.subrange(pos as int, pos + 2))),
        pos + 2 > buf@.len() ==> r is None,
{
    let mut rest: &[u8] = &buf[pos..];
    rest.read_u16::<podio::BigEndian>().ok()
}

/// Relies on podio's `ReadPodExt::read_u32` with `BigEndian`, reading from a byte slice:
/// it takes the first four bytes, and fails when fewer are left.
#[verifier::external_body]
pub(crate) fn read_u32_at(buf: &[u8], pos: usize) -> (r: Option<u32>)
    requires
        pos <= buf@.len(),
    ensures
        pos + 4 <= buf@.len() ==> r == Some(be_u32(buf@.subrange(pos as int, pos + 4))),
        pos + 4 > buf@.len() ==> r is None,
{
    let mut rest: &[u8] = &buf[pos..];
    rest.read_u32::<podio::BigEndian>().ok()
}

/// Relies on podio's `ReadPodExt::read_i32` with `BigEndian`, reading from a byte slice:
/// the first four bytes as a two's complement integer; it fails when fewer are left.
#[verifier::external_body]
pub(crate) fn read_i32_at(buf: &[u8], pos: usize) -> (r: Option<i32>)
    requires
        pos <= buf@.len(),
    ensures
        pos + 4 <= buf@.len() ==> r == Some(be_i32(buf@.subrange(pos as int, pos + 4))),
        pos + 4 > buf@.len() ==> r is None,
{
    let mut rest: &[u8] = &buf[pos..];
    rest.read_i32::<podio::BigEndian>().ok()
}

/// Relies on podio's `ReadPodExt::read_exact`, reading from a byte slice: the next
/// `n` bytes, or a failure when fewer are left.
#[verifier::external_body]
pub(crate) fn read_bytes_at(buf: &[u8], pos: usize, n: usize) -> (r: Option<Vec<u8>>)
    requires
        pos <= buf@.len(),
    ensures
        pos + n <= buf@.len() ==> r is Some && r.unwrap()@ == buf@.subrange(pos as int, pos + n),
        pos + n > buf@.len() ==> r is None,
{
    let mut rest: &[u8] = &buf[pos..];
    ReadPodExt::read_exact(&mut rest, n).ok()
}

/// Relies on podio's `WritePodExt::write_u16` with `BigEndian` on a `Vec<u8>`: it
/// appends the two bytes (writing into a `Vec` does not fail).
#[verifier::external_body]
pub(crate) fn write_u16_be(buf: &mut Vec<u8>, x: u16)
    ensures
        final(buf)@ == old(buf)@ + u16_bytes(x),
{
    let _ = buf.write_u16::<podio::BigEndian>(x);
}

/// Relies on podio's `WritePodExt::write_u32` with `BigEndian` on a `Vec<u8>`: it
/// appends the four bytes (writing into a `Vec` does not fail).
#[verifier::external_body]
pub(crate) fn write_u32_be(buf: &mut Vec<u8>, x: u32)
    ensures
        final(buf)@ == old(buf)@ + u32_bytes(x),
{
    let _ = buf.write_u32::<podio::BigEndian>(x);
}

/// Relies on podio's `WritePodExt::write_i32` with `BigEndian` on a `Vec<u8>`: it
/// appends the four bytes of the two's complement form (writing into a `Vec` does not fail).
#[verifier::external_body]
pub(crate) fn write_i32_be(buf: &mut Vec<u8>, x: i32)
    ensures
        final(buf)@ == old(buf)@ + i32_bytes(x),
{
    let _ = buf.write_i32::<podio::BigEndian>(x);
}

/// Relies on std's `String::from_utf8`: it accepts exactly the valid UTF-8 byte
/// sequences, and the string it returns holds those bytes.
#[verifier::external_body]
pub(crate) fn string_from_utf8(bytes: Vec<u8>) -> (r: Option<String>)
    ensures
        r is Some <==> valid_utf8(bytes@),
        r matches Some(s) ==> encode_utf8(s@) == bytes@,
{
    String::from_utf8(bytes).ok()
}

/// Appends `bytes` to `buf`.
pub fn append_bytes(buf: &mut Vec<u8>, bytes: &[u8])
    ensures
        final(buf)@ == old(buf)@ + bytes@,
{
    let mut i: usize = 0;
    while i < bytes.len()
        invariant
            i <= bytes@.len(),
            buf@ == old(buf)@ + bytes@.subrange(0, i as int),
        decreases bytes@.len() - i,
    {
        buf.push(bytes[i]);
        i = i + 1;
        assert(bytes@.subrange(0, i as int) =~= bytes@.subrange(0, i - 1) + seq![bytes@[i - 1]]);
    }
    assert(bytes@.subrange(0, i as int) =~= bytes@);
}

/// The outcome of a field decoder, with its value mapped to the value's view and the
/// position after the field as an `int`.
pub open spec fn view_parsed<T: View>(r: Result<(T, usize), MyError>) -> Result<(T::V, int), MyError> {
    match r {
        Ok((v, end)) => Ok((v@, end as int)),
        Err(e) => Err(e),
    }
}

/// A big-endian `u16` at offset `at`, and the offset after it.
pub open spec fn spec_u16(s: Seq<u8>, at: int) -> Result<(u16, int), MyError> {
    if at + 2 <= s.len() {
        Ok((be_u16(s.subrange(at, at + 2)), at + 2))
    } else {
        Err(truncated())
    }
}

/// A big-endian `u32` at offset `at`, and the offset after it.
pub open spec fn spec_u32(s: Seq<u8>, at: int) -> Result<(u32, int), MyError> {
    if at + 4 <= s.len() {
        Ok((be_u32(s.subrange(at, at + 4)), at + 4))
    } else {
        Err(truncated())
    }
}

/// A big-endian `i32` at offset `at`, and the offset after it.
pub open spec fn spec_i32(s: Seq<u8>, at: int) -> Result<(i32, int), MyError> {
    if at + 4 <= s.len() {
        Ok((be_i32(s.subrange(at, at + 4)), at + 4))
    } else {
        Err(truncated())
    }
}

/// A string at offset `at`: a big-endian `u16` byte count, then that many bytes of UTF-8.
pub open spec fn spec_string(s: Seq<u8>, at: int) -> Result<(Seq<char>, int), MyError> {
    match spec_u16(s, at) {
        Err(e) => Err(e),
        Ok((n, start)) => if start + n > s.len() {
            Err(truncated())
        } else if !valid_utf8(s.subrange(start, start + n)) {
            Err(MyError::Protocol(ProtocolError::InvalidUtf8))
        } else {
            Ok((decode_utf8(s.subrange(start, start + n)), start + n))
        },
    }
}

/// The wire form of a string: its UTF-8 byte count as a big-endian `u16`, then the bytes.
pub open spec fn string_bytes(chars: Seq<char>) -> Seq<u8> {
    u16_bytes(encode_utf8(chars).len() as u16) + encode_utf8(chars)
}

/// The wire form of a long string: its UTF-8 byte count as a big-endian `u32`, then the bytes.
pub open spec fn long_string_bytes(chars: Seq<char>) -> Seq<u8> {
    u32_bytes(encode_utf8(chars).len() as u32) + encode_utf8(chars)
}

pub fn take_u16(buf: &[u8], pos: usize) -> (r: Result<(u16, usize), MyError>)
    requires
        pos <= buf@.len(),
    ensures
        view_parsed(r) == spec_u16(buf@, pos as int),
{
    match read_u16_at(buf, pos) {
        Some(v) => {
            assert(pos + 2 <= buf.len());
            Ok((v, pos + 2))
        },
        None => Err(MyError::Protocol(ProtocolError::Truncated)),
    }
}

pub fn take_u32(buf: &[u8], pos: usize) -> (r: Result<(u32, usize), MyError>)
    requires
        pos <= buf@.len(),
    ensures
        view_parsed(r) == spec_u32(buf@, pos as int),
{
    match read_u32_at(buf, pos) {
        Some(v) => {
            assert(pos + 4 <= buf.len());
            Ok((v, pos + 4))
        },
        None => Err(MyError::Protocol(ProtocolError::Truncated)),
    }
}

pub fn take_i32(buf: &[u8], pos: usize) -> (r: Result<(i32, usize), MyError>)
    requires
        pos <= buf@.len(),
    ensures
        view_parsed(r) == spec_i32(buf@, pos as int),
{
    match read_i32_at(buf, pos) {
        Some(v) => {
            assert(pos + 4 <= buf.len());
            Ok((v, pos + 4))
        },
        None => Err(MyError::Protocol(ProtocolError::Truncated)),
    }
}

/// Decodes the string that starts at `pos`.
pub fn decode_string(buf: &[u8], pos: usize) -> (r: Result<(String, usize), MyError>)
    requires
        pos <= buf@.len(),
    ensures
        view_parsed(r) == spec_string(buf@, pos as int),
{
    let (n, start) = take_u16(buf, pos)?;
    if n as usize > buf.len() - start {
        return Err(MyError::Protocol(ProtocolError::Truncated));
    }
    let bytes = match read_bytes_at(buf, start, n as usize) {
        Some(b) => b,
        None => return Err(MyError::Protocol(ProtocolError::Truncated)),
    };
    match string_from_utf8(bytes) {
        Some(s) => {
            proof {
                vstd::utf8::encode_utf8_decode_utf8(s@);
            }
            Ok((s, start + n as usize))
        },
        None => Err(MyError::Protocol(ProtocolError::InvalidUtf8)),
    }
}

/// Appends the wire form of `s`, or rejects a string longer than 65535 bytes and
/// leaves `buf` as it was.
pub fn encode_string(s: &str, buf: &mut Vec<u8>) -> (r: Result<(), MyError>)
    ensures
        r is Ok <==> encode_utf8(s@).len() <= 65535,
        r is Ok ==> final(buf)@ == old(buf)@ + string_bytes(s@),
        r matches Err(e) ==> e == MyError::Protocol(ProtocolError::TooLong) && final(buf)@ == old(buf)@,
{
    let bytes = s.as_bytes();
    if bytes.len() > 65535 {
        return Err(MyError::Protocol(ProtocolError::TooLong));
    }
    write_u16_be(buf, bytes.len() as u16);
    append_bytes(buf, bytes);
    proof {
        assert(final(buf)@ =~= old(buf)@ + string_bytes(s@));
    }
    Ok(())
}

/// A string of at most 65535 bytes decodes from its wire form to itself, consuming
/// exactly that form, whatever follows it.
pub proof fn lemma_string_round_trip(chars: Seq<char>, before: Seq<u8>, after: Seq<u8>)
    requires
        encode_utf8(chars).len() <= 65535,
    ensures
        spec_string(before + string_bytes(chars) + after, before.len() as int)
            == Ok::<(Seq<char>, int), MyError>((chars, (before.len() + string_bytes(chars).len()) as int)),
{
    let s = before + string_bytes(chars) + after;
    let at = before.len() as int;
    let n = encode_utf8(chars).len();
    lemma_u16_round_trip(n as u16);
    assert(s.subrange(at, at + 2) =~= u16_bytes(n as u16));
    assert(s.subrange(at + 2, at + 2 + n) =~= encode_utf8(chars));
    vstd::utf8::encode_utf8_decode_utf8(chars);
}

/// `n` strings from offset `at`, one after the other.
pub open spec fn spec_string_list(s: Seq<u8>, at: int, n: nat) -> Result<(Seq<Seq<char>>, int), MyError>
    decreases n,
{
    if n == 0 {
        Ok((seq![], at))
    } else {
        match spec_string_list(s, at, (n - 1) as nat) {
            Err(e) => Err(e),
            Ok((list, a)) => match spec_string(s, a) {
                Err(e) => Err(e),
                Ok((v, end)) => Ok((list.push(v), end)),
            },
        }
    }
}

/// A multimap entry at offset `at`: the key, a big-endian `u16` count, then that many
/// strings.
pub open spec fn spec_multimap_entry(s: Seq<u8>, at: int) -> Result<
    ((Seq<char>, Seq<Seq<char>>), int),
    MyError,
> {
    match spec_string(s, at) {
        Err(e) => Err(e),
        Ok((key, a)) => match spec_u16(s, a) {
            Err(e) => Err(e),
            Ok((n, b)) => match spec_string_list(s, b, n as nat) {
                Err(e) => Err(e),
                Ok((values, end)) => Ok(((key, values), end)),
            },
        },
    }
}

/// `n` multimap entries from offset `at`.
pub open spec fn spec_multimap_entries(s: Seq<u8>, at: int, n: nat) -> Result<
    (Seq<(Seq<char>, Seq<Seq<char>>)>, int),
    MyError,
>
    decreases n,
{
    if n == 0 {
        Ok((seq![], at))
    } else {
        match spec_multimap_entries(s, at, (n - 1) as nat) {
            Err(e) => Err(e),
            Ok((entries, a)) => match spec_multimap_entry(s, a) {
                Err(e) => Err(e),
                Ok((entry, end)) => Ok((entries.push(entry), end)),
            },
        }
    }
}

/// A string multimap at offset `at`: a big-endian `u16` count, then that many entries.
pub open spec fn spec_multimap(s: Seq<u8>, at: int) -> Result<
    (Seq<(Seq<char>, Seq<Seq<char>>)>, int),
    MyError,
> {
    match spec_u16(s, at) {
        Err(e) => Err(e),
        Ok((n, a)) => spec_multimap_entries(s, a, n as nat),
    }
}

proof fn lemma_string_list_fail(s: Seq<u8>, at: int, i: nat, n: nat, list: Seq<Seq<char>>, a: int, e: MyError)
    requires
        i < n,
        spec_string_list(s, at, i) == Ok::<(Seq<Seq<char>>, int), MyError>((list, a)),
        spec_string(s, a) == Err::<(Seq<char>, int), MyError>(e),
    ensures
        spec_string_list(s, at, n) == Err::<(Seq<Seq<char>>, int), MyError>(e),
    decreases n,
{
    if n > i + 1 {
        lemma_string_list_fail(s, at, i, (n - 1) as nat, list, a, e);
    }
}

proof fn lemma_multimap_entries_fail(
    s: Seq<u8>,
    at: int,
    i: nat,
    n: nat,
    entries: Seq<(Seq<char>, Seq<Seq<char>>)>,
    a: int,
    e: MyError,
)
    requires
        i < n,
        spec_multimap_entries(s, at, i) == Ok::<(Seq<(Seq<char>, Seq<Seq<char>>)>, int), MyError>(
            (entries, a),
        ),
        spec_multimap_entry(s, a) == Err::<((Seq<char>, Seq<Seq<char>>), int), MyError>(e),
    ensures
        spec_multimap_entries(s, at, n) == Err::<(Seq<(Seq<char>, Seq<Seq<char>>)>, int), MyError>(e),
    decreases n,
{
    if n > i + 1 {
        lemma_multimap_entries_fail(s, at, i, (n - 1) as nat, entries, a, e);
    }
}

pub open spec fn strings_view(v: Seq<String>) -> Seq<Seq<char>> {
    v.map_values(|x: String| x@)
}

pub open spec fn entry_view(e: (String, Vec<String>)) -> (Seq<char>, Seq<Seq<char>>) {
    (e.0@, strings_view(e.1@))
}

fn decode_string_list(buf: &[u8], pos: usize, n: u16) -> (r: Result<(Vec<String>, usize), MyError>)
    requires
        pos <= buf@.len(),
    ensures
        match r {
            Ok((v, end)) => spec_string_list(buf@, pos as int, n as nat) == Ok::<
                (Seq<Seq<char>>, int),
                MyError,
            >((strings_view(v@), end as int)) && end <= buf@.len(),
            Err(e) => spec_string_list(buf@, pos as int, n as nat) == Err::<
                (Seq<Seq<char>>, int),
                MyError,
            >(e),
        },
{
    let mut list: Vec<String> = Vec::new();
    let mut at = pos;
    let mut i: u16 = 0;
    assert(strings_view(list@) =~= seq![]);
    while i < n
        invariant
            i <= n,
            at <= buf@.len(),
            spec_string_list(buf@, pos as int, i as nat) == Ok::<(Seq<Seq<char>>, int), MyError>(
                (strings_view(list@), at as int),
            ),
        decreases n - i,
    {
        match decode_string(buf, at) {
            Err(e) => {
                proof {
                    lemma_string_list_fail(buf@, pos as int, i as nat, n as nat, strings_view(list@), at as int, e);
                }
                return Err(e);
            },
            Ok((v, next)) => {
                let ghost before = list@;
                list.push(v);
                proof {
                    assert(strings_view(list@) =~= strings_view(before).push(v@));
                }
                at = next;
                i = i + 1;
            },
        }
    }
    Ok((list, at))
}

fn decode_multimap_entry(buf: &[u8], pos: usize) -> (r: Result<((String, Vec<String>), usize), MyError>)
    requires
        pos <= buf@.len(),
    ensures
        match r {
            Ok((e, end)) => spec_multimap_entry(buf@, pos as int) == Ok::<
                ((Seq<char>, Seq<Seq<char>>), int),
                MyError,
            >((entry_view(e), end as int)) && end <= buf@.len(),
            Err(e) => spec_multimap_entry(buf@, pos as int) == Err::<
                ((Seq<char>, Seq<Seq<char>>), int),
                MyError,
            >(e),
        },
{
    let (key, a) = decode_string(buf, pos)?;
    let (n, b) = take_u16(buf, a)?;
    let (values, end) = decode_string_list(buf, b, n)?;
    Ok(((key, values), end))
}

/// A map from string keys to lists of strings, such as the options a server supports.
/// Entries keep their wire order; the order of each key's values is significant.
#[derive(Debug, Clone, PartialEq, Eq)]
pub struct StringMultiMap {
    pub entries: Vec<(String, Vec<String>)>,
}

impl View for StringMultiMap {
    type V = Seq<(Seq<char>, Seq<Seq<char>>)>;

    open spec fn view(&self) -> Seq<(Seq<char>, Seq<Seq<char>>)> {
        self.entries@.map_values(|e: (String, Vec<String>)| entry_view(e))
    }
}

/// The values of the last of `entries` whose key is `key`, if any.
pub open spec fn multimap_lookup(entries: Seq<(Seq<char>, Seq<Seq<char>>)>, key: Seq<char>) -> Option<
    Seq<Seq<char>>,
>
    decreases entries.len(),
{
    if entries.len() == 0 {
        None
    } else if entries.last().0 == key {
        Some(entries.last().1)
    } else {
        multimap_lookup(entries.drop_last(), key)
    }
}

impl StringMultiMap {
    /// Decodes the string multimap that starts at `pos`.
    pub fn decode(buf: &[u8], pos: usize) -> (r: Result<(StringMultiMap, usize), MyError>)
        requires
            pos <= buf@.len(),
        ensures
            view_parsed(r) == spec_multimap(buf@, pos as int),
    {
        let (n, start) = take_u16(buf, pos)?;
        let mut entries: Vec<(String, Vec<String>)> = Vec::new();
        let mut at = start;
        let mut i: u16 = 0;
        assert(entries@.map_values(|e: (String, Vec<String>)| entry_view(e)) =~= seq![]);
        while i < n
            invariant
                i <= n,
                at <= buf@.len(),
                spec_u16(buf@, pos as int) == Ok::<(u16, int), MyError>((n, start as int)),
                spec_multimap_entries(buf@, start as int, i as nat) == Ok::<
                    (Seq<(Seq<char>, Seq<Seq<char>>)>, int),
                    MyError,
                >((entries@.map_values(|e: (String, Vec<String>)| entry_view(e)), at as int)),
            decreases n - i,
        {
            match decode_multimap_entry(buf, at) {
                Err(e) => {
                    proof {
                        lemma_multimap_entries_fail(
                            buf@,
                            start as int,
                            i as nat,
                            n as nat,
                            entries@.map_values(|e: (String, Vec<String>)| entry_view(e)),
                            at as int,
                            e,
                        );
                    }
                    return Err(e);
                },
                Ok((entry, next)) => {
                    let ghost before = entries@;
                    let ghost ev = entry_view(entry);
                    entries.push(entry);
                    proof {
                        assert(entries@.map_values(|e: (String, Vec<String>)| entry_view(e))
                            =~= before.map_values(|e: (String, Vec<String>)| entry_view(e)).push(ev));
                    }
                    at = next;
                    i = i + 1;
                },
            }
        }
        Ok((StringMultiMap { entries }, at))
    }

    /// The values of `key`; where the key occurs more than once, its last entry.
    pub fn get(&self, key: &str) -> (r: Option<&Vec<String>>)
        ensures
            match multimap_lookup(self@, key@) {
                None => r is None,
                Some(values) => r matches Some(v) && strings_view(v@) == values,
            },
    {
        let k = String::from_str(key);
        let mut found: Option<usize> = None;
        let mut i: usize = 0;
        while i < self.entries.len()
            invariant
                i <= self.entries@.len(),
                k@ == key@,
                match found {
                    None => multimap_lookup(self@.subrange(0, i as int), key@) is None,
                    Some(j) => j < i && multimap_lookup(self@.subrange(0, i as int), key@) == Some(
                        self@[j as int].1,
                    ),
                },
            decreases self.entries@.len() - i,
        {
            assert(self@.subrange(0, i + 1).drop_last() =~= self@.subrange(0, i as int));
            if self.entries[i].0 == k {
                found = Some(i);
            }
            i = i + 1;
        }
        assert(self@.subrange(0, i as int) =~= self@);
        match found {
            None => None,
            Some(j) => Some(&self.entries[j].1),
        }
    }
}

} // verus!
