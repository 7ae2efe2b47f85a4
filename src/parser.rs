//! A byte-at-a-time reader of frame headers and strings, which expects well-formed
//! input: callers state by `requires` that the bytes they read are there and valid.

use vstd::prelude::*;

use crate::frame::{flags_of, opcode_of, version_of, Flags, Header, Opcode, Version};
use crate::wire::{be_u16, be_u32, spec_string, string_from_utf8};

verus! {

broadcast use vstd::utf8::group_utf8_lib;

pub struct Parser {
    bytes: Vec<u8>,
    pos: usize,
}

impl Parser {
    pub closed spec fn wf(&self) -> bool {
        self.pos <= self.bytes@.len()
    }

    /// The bytes not read yet.
    pub closed spec fn remaining(&self) -> Seq<u8> {
        self.bytes@.subrange(self.pos as int, self.bytes@.len() as int)
    }

    pub fn new(vec: Vec<u8>) -> (r: Parser)
        ensures
            r.wf(),
            r.remaining() == vec@,
    {
        let r = Parser { bytes: vec, pos: 0 };
        assert(r.remaining() =~= r.bytes@);
        r
    }

    pub fn parse_u8(&mut self) -> (r: u8)
        requires
            old(self).wf(),
            old(self).remaining().len() >= 1,
        ensures
            final(self).wf(),
            r == old(self).remaining()[0],
            final(self).remaining() == old(self).remaining().subrange(1, old(self).remaining().len() as int),
    {
        assert(self.pos < self.bytes.len());
        let b = self.bytes[self.pos];
        self.pos = self.pos + 1;
        assert(self.remaining() =~= old(self).remaining().subrange(1, old(self).remaining().len() as int));
        b
    }

    /// A big-endian `u16`.
    pub fn parse_u16(&mut self) -> (r: u16)
        requires
            old(self).wf(),
            old(self).remaining().len() >= 2,
        ensures
            final(self).wf(),
            r == be_u16(old(self).remaining()),
            final(self).remaining() == old(self).remaining().subrange(2, old(self).remaining().len() as int),
    {
        let hi = self.parse_u8();
        let lo = self.parse_u8();
        assert(self.remaining() =~= old(self).remaining().subrange(2, old(self).remaining().len() as int));
        ((hi as u16) << 8u16) | (lo as u16)
    }

    /// A big-endian `u32`.
    pub fn parse_u32(&mut self) -> (r: u32)
        requires
            old(self).wf(),
            old(self).remaining().len() >= 4,
        ensures
            final(self).wf(),
            r == be_u32(old(self).remaining()),
            final(self).remaining() == old(self).remaining().subrange(4, old(self).remaining().len() as int),
    {
        let b0 = self.parse_u8();
        let b1 = self.parse_u8();
        let b2 = self.parse_u8();
        let b3 = self.parse_u8();
        assert(self.remaining() =~= old(self).remaining().subrange(4, old(self).remaining().len() as int));
        ((b0 as u32) << 24u32) | ((b1 as u32) << 16u32) | ((b2 as u32) << 8u32) | (b3 as u32)
    }

    /// A string: a big-endian `u16` byte count, then that many bytes of valid UTF-8.
    pub fn parse_string(&mut self) -> (r: String)
        requires
            old(self).wf(),
            spec_string(old(self).remaining(), 0) is Ok,
        ensures
            final(self).wf(),
            spec_string(old(self).remaining(), 0) matches Ok((s, end)) && r@ == s
                && final(self).remaining() == old(self).remaining().subrange(end, old(self).remaining().len() as int),
    {
        let ghost start = self.remaining();
        let len = self.parse_u16();
        assert(start.subrange(0, 2) =~= seq![start[0], start[1]]);
        let mut bytes: Vec<u8> = Vec::new();
        let mut i: u16 = 0;
        while i < len
            invariant
                self.wf(),
                i <= len,
                2 + len <= start.len(),
                len == be_u16(start.subrange(0, 2)),
                bytes@ == start.subrange(2, 2 + i),
                self.remaining() == start.subrange(2 + i, start.len() as int),
            decreases len - i,
        {
            let b = self.parse_u8();
            bytes.push(b);
            i = i + 1;
            assert(bytes@ =~= start.subrange(2, 2 + i));
            assert(self.remaining() =~= start.subrange(2 + i, start.len() as int));
        }
        match string_from_utf8(bytes) {
            Some(s) => {
                proof {
                    vstd::utf8::encode_utf8_decode_utf8(s@);
                }
                s
            },
            // The precondition makes the bytes valid UTF-8.
            None => String::new(),
        }
    }

    pub fn parse_version(&mut self) -> (r: Version)
        requires
            old(self).wf(),
            old(self).remaining().len() >= 1,
            version_of(old(self).remaining()[0]) is Some,
        ensures
            final(self).wf(),
            Some(r) == version_of(old(self).remaining()[0]),
            final(self).remaining() == old(self).remaining().subrange(1, old(self).remaining().len() as int),
    {
        let b = self.parse_u8();
        match Version::from_byte(b) {
            Some(v) => v,
            // The precondition makes the byte a version.
            None => Version::Request,
        }
    }

    pub fn parse_flags(&mut self) -> (r: Flags)
        requires
            old(self).wf(),
            old(self).remaining().len() >= 1,
        ensures
            final(self).wf(),
            r == flags_of(old(self).remaining()[0]),
            final(self).remaining() == old(self).remaining().subrange(1, old(self).remaining().len() as int),
    {
        let b = self.parse_u8();
        Flags::from_byte(b)
    }

    pub fn parse_opcode(&mut self) -> (r: Opcode)
        requires
            old(self).wf(),
            old(self).remaining().len() >= 1,
            opcode_of(old(self).remaining()[0]) is Some,
        ensures
            final(self).wf(),
            Some(r) == opcode_of(old(self).remaining()[0]),
            final(self).remaining() == old(self).remaining().subrange(1, old(self).remaining().len() as int),
    {
        let b = self.parse_u8();
        match Opcode::from_byte(b) {
            Some(op) => op,
            // The precondition makes the byte an opcode.
            None => Opcode::Error,
        }
    }

    /// The 9 bytes of a header, whatever its opcode.
    pub fn parse_header(&mut self) -> (r: Header)
        requires
            old(self).wf(),
            old(self).remaining().len() >= 9,
            version_of(old(self).remaining()[0]) is Some,
            opcode_of(old(self).remaining()[4]) is Some,
        ensures
            final(self).wf(),
            Some(r.version) == version_of(old(self).remaining()[0]),
            r.flags == flags_of(old(self).remaining()[1]),
            r.stream == be_u16(old(self).remaining().subrange(2, 4)),
            Some(r.opcode) == opcode_of(old(self).remaining()[4]),
            r.length == be_u32(old(self).remaining().subrange(5, 9)),
            final(self).remaining() == old(self).remaining().subrange(9, old(self).remaining().len() as int),
    {
        let ghost s = self.remaining();
        let version = self.parse_version();
        let flags = self.parse_flags();
        assert(self.remaining() =~= s.subrange(2, s.len() as int));
        let stream = self.parse_u16();
        assert(self.remaining() =~= s.subrange(4, s.len() as int));
        let opcode = self.parse_opcode();
        assert(self.remaining() =~= s.subrange(5, s.len() as int));
        let length = self.parse_u32();
        assert(self.remaining() =~= s.subrange(9, s.len() as int));
        assert(s.subrange(2, 4) =~= s.subrange(2, s.len() as int).subrange(0, 2));
        assert(s.subrange(5, 9) =~= s.subrange(5, s.len() as int).subrange(0, 4));
        Header { version, flags, stream, opcode, length }
    }
}

} // verus!
