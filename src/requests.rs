//! Request encoders: each builds its body, then a header whose length is the body's.

use vstd::prelude::*;
use vstd::utf8::encode_utf8;

use crate::errors::{MyError, ProtocolError};
use crate::frame::{header_bytes, Header, Opcode, ToWire};
use crate::wire::{
    append_bytes, encode_string, i32_bytes, long_string_bytes, string_bytes, u16_bytes,
    write_i32_be, write_u16_be, write_u32_be,
};

verus! {

/// A request for the options that the server supports: a header and no body.
pub struct OptionsRequest {
    pub header: Header,
}

impl OptionsRequest {
    pub fn new() -> (r: OptionsRequest)
        ensures
            r.header == (Header {
                version: crate::frame::Version::Request,
                flags: r.header.flags,
                stream: 0,
                opcode: Opcode::Options,
                length: 0,
            }),
            !r.header.flags.compression && !r.header.flags.tracing,
    {
        OptionsRequest { header: Header::request(Opcode::Options, 0) }
    }
}

impl ToWire for OptionsRequest {
    open spec fn wire_bytes(&self) -> Option<Seq<u8>> {
        Some(header_bytes(self.header))
    }

    fn encode(&self, buffer: &mut Vec<u8>) -> (r: Result<(), MyError>) {
        self.header.write(buffer);
        Ok(())
    }
}

pub open spec fn pair_view(p: (String, String)) -> (Seq<char>, Seq<char>) {
    (p.0@, p.1@)
}

/// Whether every key and value of `entries` fits a string, and their number a `u16`.
pub open spec fn string_map_fits(entries: Seq<(Seq<char>, Seq<char>)>) -> bool {
    &&& entries.len() <= 65535
    &&& forall|i: int|
        0 <= i < entries.len() ==> encode_utf8(#[trigger] entries[i].0).len() <= 65535
            && encode_utf8(entries[i].1).len() <= 65535
}

/// Each entry as its key, then its value, as strings.
pub open spec fn pairs_bytes(entries: Seq<(Seq<char>, Seq<char>)>) -> Seq<u8>
    decreases entries.len(),
{
    if entries.len() == 0 {
        seq![]
    } else {
        pairs_bytes(entries.drop_last()) + string_bytes(entries.last().0) + string_bytes(
            entries.last().1,
        )
    }
}

/// A string map: the number of entries as a big-endian `u16`, then the entries.
pub open spec fn string_map_bytes(entries: Seq<(Seq<char>, Seq<char>)>) -> Seq<u8> {
    u16_bytes(entries.len() as u16) + pairs_bytes(entries)
}

/// Appends the string map of `entries`, in their order; rejects a map that does not
/// fit its prefixes and leaves `buffer` as it was.
pub fn encode_string_map(entries: &Vec<(String, String)>, buffer: &mut Vec<u8>) -> (r: Result<(), MyError>)
    ensures
        r is Ok <==> string_map_fits(entries@.map_values(|p: (String, String)| pair_view(p))),
        r is Ok ==> final(buffer)@ == old(buffer)@ + string_map_bytes(
            entries@.map_values(|p: (String, String)| pair_view(p)),
        ),
        r matches Err(e) ==> e == MyError::Protocol(ProtocolError::TooLong) && final(buffer)@
            == old(buffer)@,
{
    let ghost ev = entries@.map_values(|p: (String, String)| pair_view(p));
    if entries.len() > 65535 {
        return Err(MyError::Protocol(ProtocolError::TooLong));
    }
    let mut out: Vec<u8> = Vec::new();
    write_u16_be(&mut out, entries.len() as u16);
    let mut i: usize = 0;
    while i < entries.len()
        invariant
            i <= entries@.len() <= 65535,
            ev == entries@.map_values(|p: (String, String)| pair_view(p)),
            out@ == u16_bytes(entries@.len() as u16) + pairs_bytes(ev.subrange(0, i as int)),
            string_map_fits(ev.subrange(0, i as int)),
        decreases entries@.len() - i,
    {
        let ghost before = out@;
        assert(ev.subrange(0, i + 1).drop_last() =~= ev.subrange(0, i as int));
        assert(ev[i as int] == pair_view(entries@[i as int]));
        if encode_string(entries[i].0.as_str(), &mut out).is_err() {
            assert(!(encode_utf8(ev[i as int].0).len() <= 65535));
            return Err(MyError::Protocol(ProtocolError::TooLong));
        }
        if encode_string(entries[i].1.as_str(), &mut out).is_err() {
            assert(!(encode_utf8(ev[i as int].1).len() <= 65535));
            return Err(MyError::Protocol(ProtocolError::TooLong));
        }
        proof {
            assert(out@ =~= u16_bytes(entries@.len() as u16) + pairs_bytes(ev.subrange(0, i + 1)));
            assert forall|k: int| 0 <= k < i + 1 implies encode_utf8(
                #[trigger] ev.subrange(0, i + 1)[k].0,
            ).len() <= 65535 && encode_utf8(ev.subrange(0, i + 1)[k].1).len() <= 65535 by {
                if k < i {
                    assert(ev.subrange(0, i + 1)[k] == ev.subrange(0, i as int)[k]);
                }
            }
        }
        i = i + 1;
    }
    assert(ev.subrange(0, i as int) =~= ev);
    append_bytes(buffer, out.as_slice());
    Ok(())
}

proof fn lemma_cql_version_key_len()
    ensures
        encode_utf8("CQL_VERSION"@).len() == 11,
{
    reveal_strlit("CQL_VERSION");
    let k = "CQL_VERSION"@;
    assert(vstd::utf8::is_ascii_chars(k)) by {
        assert forall|i: int| 0 <= i < k.len() implies '\0' <= #[trigger] k[i] <= '\u{7f}' by {
            assert(i == 0 || i == 1 || i == 2 || i == 3 || i == 4 || i == 5 || i == 6 || i == 7
                || i == 8 || i == 9 || i == 10);
        }
    }
    vstd::utf8::is_ascii_chars_encode_utf8(k);
}

/// The string map of the startup body.
pub open spec fn startup_body(cql_version: Seq<char>) -> Seq<u8> {
    string_map_bytes(seq![("CQL_VERSION"@, cql_version)])
}

/// A startup request: a body holding the string map `{"CQL_VERSION": version}`.
pub struct StartupRequest {
    pub header: Header,
    pub body: Vec<u8>,
}

impl StartupRequest {
    /// Builds the request, or rejects a version longer than 65535 bytes.
    pub fn new(cql_version: &str) -> (r: Result<StartupRequest, MyError>)
        ensures
            r is Ok <==> encode_utf8(cql_version@).len() <= 65535,
            r matches Ok(req) ==> req.body@ == startup_body(cql_version@) && req.header == (Header {
                version: crate::frame::Version::Request,
                flags: req.header.flags,
                stream: 0,
                opcode: Opcode::Startup,
                length: req.body@.len() as u32,
            }) && !req.header.flags.compression && !req.header.flags.tracing,
            r matches Err(e) ==> e == MyError::Protocol(ProtocolError::TooLong),
    {
        let key = String::from_str("CQL_VERSION");
        let mut options: Vec<(String, String)> = Vec::new();
        options.push((key, String::from_str(cql_version)));
        proof {
            assert(options@.map_values(|p: (String, String)| pair_view(p)) =~= seq![
                ("CQL_VERSION"@, cql_version@),
            ]);
            lemma_cql_version_key_len();
        }
        let mut body: Vec<u8> = Vec::new();
        encode_string_map(&options, &mut body)?;
        proof {
            let ev = seq![("CQL_VERSION"@, cql_version@)];
            assert(ev.drop_last() =~= Seq::<(Seq<char>, Seq<char>)>::empty());
            assert(pairs_bytes(ev.drop_last()) == Seq::<u8>::empty());
            assert(ev.last() == ("CQL_VERSION"@, cql_version@));
            assert(pairs_bytes(ev) == pairs_bytes(ev.drop_last()) + string_bytes("CQL_VERSION"@)
                + string_bytes(cql_version@));
            assert(body@.len() == 2 + 2 + 11 + 2 + encode_utf8(cql_version@).len());
        }
        let header = Header::request(Opcode::Startup, body.len() as u32);
        Ok(StartupRequest { header, body })
    }
}

impl ToWire for StartupRequest {
    open spec fn wire_bytes(&self) -> Option<Seq<u8>> {
        Some(header_bytes(self.header) + self.body@)
    }

    fn encode(&self, buffer: &mut Vec<u8>) -> (r: Result<(), MyError>) {
        self.header.write(buffer);
        append_bytes(buffer, self.body.as_slice());
        Ok(())
    }
}

/// The consistency level that every query asks for ("one").
pub const CONSISTENCY_ONE: u16 = 0x0001;

/// Each value as a big-endian `i32` length, then its bytes.
pub open spec fn values_bytes(values: Seq<Seq<u8>>) -> Seq<u8>
    decreases values.len(),
{
    if values.len() == 0 {
        seq![]
    } else {
        values_bytes(values.drop_last()) + i32_bytes(values.last().len() as i32) + values.last()
    }
}

/// A query with its bound values, each already in its wire form.
pub struct QueryRequest {
    pub header: Header,
    pub query: String,
    pub consistency: u16,
    /// 0x01 when values are bound, else 0x00.
    pub flags: u8,
    pub values: Vec<Vec<u8>>,
}

impl QueryRequest {
    pub open spec fn values_view(&self) -> Seq<Seq<u8>> {
        self.values@.map_values(|v: Vec<u8>| v@)
    }

    /// The body: the query as a long string, the consistency, the flags byte, then, when
    /// values are bound, their number as a big-endian `u16` and the values.
    pub open spec fn body_bytes(&self) -> Seq<u8> {
        long_string_bytes(self.query@) + u16_bytes(self.consistency) + seq![self.flags] + if self.values@.len() > 0 {
            u16_bytes(self.values@.len() as u16) + values_bytes(self.values_view())
        } else {
            seq![]
        }
    }

    /// Whether every length fits its prefix: the query a `u32`, the number of values a
    /// `u16`, each value an `i32`, and the body a `u32`.
    pub open spec fn fits(&self) -> bool {
        &&& encode_utf8(self.query@).len() <= u32::MAX
        &&& self.values@.len() <= 65535
        &&& forall|i: int| 0 <= i < self.values@.len() ==> #[trigger] self.values@[i]@.len() <= i32::MAX
        &&& self.body_bytes().len() <= u32::MAX
    }

    pub fn new(query: &str, values: Vec<Vec<u8>>) -> (r: QueryRequest)
        ensures
            r.query@ == query@,
            r.values@ == values@,
            r.consistency == CONSISTENCY_ONE,
            r.flags == if values@.len() == 0 { 0u8 } else { 1u8 },
            r.header == Header::request_spec(Opcode::Query, 0, r.header.flags),
            !r.header.flags.compression && !r.header.flags.tracing,
    {
        let flags: u8 = if values.len() == 0 { 0x00 } else { 0x01 };
        QueryRequest {
            header: Header::request(Opcode::Query, 0),
            query: String::from_str(query),
            consistency: CONSISTENCY_ONE,
            flags,
            values,
        }
    }
}

impl ToWire for QueryRequest {
    open spec fn wire_bytes(&self) -> Option<Seq<u8>> {
        if self.fits() {
            Some(
                header_bytes(Header { length: self.body_bytes().len() as u32, ..self.header })
                    + self.body_bytes(),
            )
        } else {
            None
        }
    }

    fn encode(&self, buffer: &mut Vec<u8>) -> (r: Result<(), MyError>) {
        let query = self.query.as_str().as_bytes();
        if query.len() > 0xFFFF_FFFF {
            return Err(MyError::Protocol(ProtocolError::TooLong));
        }
        let mut body: Vec<u8> = Vec::new();
        write_u32_be(&mut body, query.len() as u32);
        append_bytes(&mut body, query);
        write_u16_be(&mut body, self.consistency);
        body.push(self.flags);
        proof {
            assert(body@ =~= long_string_bytes(self.query@) + u16_bytes(self.consistency) + seq![
                self.flags,
            ]);
        }
        let ghost head = body@;
        if self.values.len() > 0 {
            if self.values.len() > 65535 {
                return Err(MyError::Protocol(ProtocolError::TooLong));
            }
            write_u16_be(&mut body, self.values.len() as u16);
            let ghost vv = self.values_view();
            let mut i: usize = 0;
            while i < self.values.len()
                invariant
                    i <= self.values@.len() <= 65535,
                    vv == self.values_view(),
                    body@ == head + u16_bytes(self.values@.len() as u16) + values_bytes(
                        vv.subrange(0, i as int),
                    ),
                    forall|k: int| 0 <= k < i ==> #[trigger] self.values@[k]@.len() <= i32::MAX,
                decreases self.values@.len() - i,
            {
                let value = &self.values[i];
                if value.len() > 0x7FFF_FFFF {
                    return Err(MyError::Protocol(ProtocolError::TooLong));
                }
                write_i32_be(&mut body, value.len() as i32);
                append_bytes(&mut body, value.as_slice());
                proof {
                    assert(vv.subrange(0, i + 1).drop_last() =~= vv.subrange(0, i as int));
                    assert(body@ =~= head + u16_bytes(self.values@.len() as u16) + values_bytes(
                        vv.subrange(0, i + 1),
                    ));
                }
                i = i + 1;
            }
            assert(vv.subrange(0, i as int) =~= vv);
        }
        assert(body@ =~= self.body_bytes());
        if body.len() > 0xFFFF_FFFF {
            return Err(MyError::Protocol(ProtocolError::TooLong));
        }
        let header = Header { length: body.len() as u32, ..self.header };
        header.write(buffer);
        append_bytes(buffer, body.as_slice());
        Ok(())
    }
}

} // verus!
