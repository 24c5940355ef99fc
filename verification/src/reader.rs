//! The bounds-checked decoder of the wire format: a cursor over a borrowed
//! byte buffer, with readers that mirror each writer and a skip operation for
//! unrecognized fields.
//!
//! Every reader's contract states, over the spec functions of
//! [`crate::codec`], exactly which bytes it consumes, which value it yields,
//! and on which inputs each error is returned.

use vstd::prelude::*;
use vstd::slice::slice_subrange;
use vstd::string::StringSliceAdditionalSpecFns;
use vstd::utf8::{decode_utf8, valid_utf8};

use crate::codec::{
    field_skip_len, frame_truncated, le_bytes, le_value, lemma_le_bytes_of_value,
    lemma_le_value4, lemma_le_value8, lemma_packed_fixed32_payload_push,
    lemma_packed_fixed64_payload_push, lemma_scan_len_bounds, lemma_varint_combine,
    packed_fixed32_payload, packed_fixed64_payload, parse_packed_varints, varint_parse_len,
    varint_scan, varint_value, varint_value_int, zigzag32_inv, zigzag64_inv,
};
use crate::errors::Error;
use crate::message::MessageRead;

verus! {

/// A bounds-checked cursor over an immutable byte buffer.
///
/// The buffer itself is handed to every call; the cursor holds only the read
/// offset and the boundary of the region it may read, which is the buffer's
/// end at the top level and the end of the enclosing length-delimited span
/// while inside a nested message.
pub struct ByteCursor {
    /// The absolute position of the next byte to read.
    pub offset: usize,
    /// The absolute position the cursor must not read past.
    pub boundary: usize,
}

impl ByteCursor {
    /// The cursor is well formed over `buf`: the offset has not passed the
    /// boundary and the boundary lies within the buffer.
    pub open spec fn wf(self, buf: Seq<u8>) -> bool {
        self.offset <= self.boundary <= buf.len()
    }

    /// The bytes the cursor may still read.
    pub open spec fn region(self, buf: Seq<u8>) -> Seq<u8> {
        buf.subrange(self.offset as int, self.boundary as int)
    }

    /// Creates a cursor over the whole of `bytes`.
    pub fn from_bytes(bytes: &[u8]) -> (r: ByteCursor)
        ensures
            r.offset == 0,
            r.boundary == bytes@.len(),
            r.wf(bytes@),
    {
        ByteCursor { offset: 0, boundary: bytes.len() }
    }

    /// True when the cursor has consumed its whole region.
    pub fn is_eof(&self) -> (r: bool)
        ensures
            r == (self.offset == self.boundary),
    {
        self.offset == self.boundary
    }

    /// Decodes one varint, consuming at most `fuel` bytes.
    fn read_varint_fuel(&mut self, bytes: &[u8], fuel: u32) -> (r: Result<u64, Error>)
        requires
            old(self).wf(bytes@),
        ensures
            final(self).boundary == old(self).boundary,
            final(self).wf(bytes@),
            old(self).offset <= final(self).offset,
            ({
                let region = old(self).region(bytes@);
                match varint_scan(region, fuel as nat) {
                    Some(k) => r == Ok::<u64, Error>(varint_value(region.subrange(0, k as int)))
                        && final(self).offset == old(self).offset + k,
                    None => r.is_err() && (region.len() < fuel ==> r == Err::<u64, Error>(
                        Error::Truncated,
                    )) && (region.len() >= fuel ==> r == Err::<u64, Error>(Error::Malformed)),
                }
            }),
        decreases fuel,
    {
        let ghost region = old(self).region(bytes@);
        if fuel == 0 {
            return Err(Error::Malformed);
        }
        if self.offset >= self.boundary {
            return Err(Error::Truncated);
        }
        let b = bytes[self.offset];
        self.offset = self.offset + 1;
        proof {
            assert(region[0] == b);
        }
        if b < 0x80 {
            proof {
                assert(varint_scan(region, fuel as nat) == Some(1nat));
                let c = region.subrange(0, 1);
                assert(c[0] == b);
                assert(c.subrange(1, 1) =~= Seq::<u8>::empty());
                assert(varint_value_int(Seq::<u8>::empty()) == 0);
                assert(varint_value_int(c) == b % 0x80);
                assert(varint_value(c) == b);
            }
            Ok(b as u64)
        } else {
            let ghost sub = self;
            let rest = match self.read_varint_fuel(bytes, fuel - 1) {
                Ok(x) => x,
                Err(e) => {
                    proof {
                        assert(sub.region(bytes@) =~= region.subrange(1, region.len() as int));
                    }
                    return Err(e);
                },
            };
            let v: u64 = ((b & 0x7f) as u64) | (rest << 7u64);
            proof {
                let region1 = region.subrange(1, region.len() as int);
                assert(sub.region(bytes@) =~= region1);
                let k = varint_scan(region1, (fuel - 1) as nat).unwrap();
                assert(varint_scan(region, fuel as nat) == Some((k + 1) as nat));
                let c1 = region1.subrange(0, k as int);
                let c = region.subrange(0, k as int + 1);
                assert(c[0] == b);
                assert(c.subrange(1, c.len() as int) =~= c1);
                assert(varint_value_int(c) == (b % 0x80) + 0x80 * varint_value_int(c1));
                lemma_varint_value_int_nonneg(c1);
                lemma_varint_combine(b, rest, varint_value_int(c1));
                assert(v == varint_value(c));
            }
            Ok(v)
        }
    }

    /// Decodes one varint: 7-bit groups accumulate until a byte without the
    /// continuation bit; more than ten bytes is malformed, running out of
    /// bytes first is truncation.
    pub fn read_varint(&mut self, bytes: &[u8]) -> (r: Result<u64, Error>)
        requires
            old(self).wf(bytes@),
        ensures
            final(self).boundary == old(self).boundary,
            final(self).wf(bytes@),
            old(self).offset <= final(self).offset,
            ({
                let region = old(self).region(bytes@);
                match varint_parse_len(region) {
                    Some(k) => r == Ok::<u64, Error>(varint_value(region.subrange(0, k as int)))
                        && final(self).offset == old(self).offset + k,
                    None => r.is_err() && (region.len() < 10 ==> r == Err::<u64, Error>(
                        Error::Truncated,
                    )) && (region.len() >= 10 ==> r == Err::<u64, Error>(Error::Malformed)),
                }
            }),
    {
        self.read_varint_fuel(bytes, 10)
    }

    /// Reads a tag: one varint, truncated to 32 bits, packing a field number
    /// and a wire type.
    pub fn read_tag(&mut self, bytes: &[u8]) -> (r: Result<u32, Error>)
        requires
            old(self).wf(bytes@),
        ensures
            final(self).boundary == old(self).boundary,
            final(self).wf(bytes@),
            old(self).offset <= final(self).offset,
            ({
                let region = old(self).region(bytes@);
                match varint_parse_len(region) {
                    Some(k) => r == Ok::<u32, Error>(
                        varint_value(region.subrange(0, k as int)) as u32,
                    ) && final(self).offset == old(self).offset + k,
                    None => r.is_err() && (region.len() < 10 ==> r == Err::<u32, Error>(
                        Error::Truncated,
                    )) && (region.len() >= 10 ==> r == Err::<u32, Error>(Error::Malformed)),
                }
            }),
    {
        match self.read_varint(bytes) {
            Ok(v) => Ok(v as u32),
            Err(e) => Err(e),
        }
    }

    /// Reads an `int32`: a varint, truncated to 32 bits with its sign.
    pub fn read_int32(&mut self, bytes: &[u8]) -> (r: Result<i32, Error>)
        requires
            old(self).wf(bytes@),
        ensures
            final(self).boundary == old(self).boundary,
            final(self).wf(bytes@),
            old(self).offset <= final(self).offset,
            ({
                let region = old(self).region(bytes@);
                match varint_parse_len(region) {
                    Some(k) => r == Ok::<i32, Error>(
                        varint_value(region.subrange(0, k as int)) as i32,
                    ) && final(self).offset == old(self).offset + k,
                    None => r.is_err() && (region.len() < 10 ==> r == Err::<i32, Error>(
                        Error::Truncated,
                    )) && (region.len() >= 10 ==> r == Err::<i32, Error>(Error::Malformed)),
                }
            }),
    {
        match self.read_varint(bytes) {
            Ok(v) => Ok(v as i32),
            Err(e) => Err(e),
        }
    }

    /// Reads an `int64`: a varint, reinterpreted as signed.
    pub fn read_int64(&mut self, bytes: &[u8]) -> (r: Result<i64, Error>)
        requires
            old(self).wf(bytes@),
        ensures
            final(self).boundary == old(self).boundary,
            final(self).wf(bytes@),
            old(self).offset <= final(self).offset,
            ({
                let region = old(self).region(bytes@);
                match varint_parse_len(region) {
                    Some(k) => r == Ok::<i64, Error>(
                        varint_value(region.subrange(0, k as int)) as i64,
                    ) && final(self).offset == old(self).offset + k,
                    None => r.is_err() && (region.len() < 10 ==> r == Err::<i64, Error>(
                        Error::Truncated,
                    )) && (region.len() >= 10 ==> r == Err::<i64, Error>(Error::Malformed)),
                }
            }),
    {
        match self.read_varint(bytes) {
            Ok(v) => Ok(v as i64),
            Err(e) => Err(e),
        }
    }

    /// Reads a `uint32`: a varint, truncated to 32 bits.
    pub fn read_uint32(&mut self, bytes: &[u8]) -> (r: Result<u32, Error>)
        requires
            old(self).wf(bytes@),
        ensures
            final(self).boundary == old(self).boundary,
            final(self).wf(bytes@),
            old(self).offset <= final(self).offset,
            ({
                let region = old(self).region(bytes@);
                match varint_parse_len(region) {
                    Some(k) => r == Ok::<u32, Error>(
                        varint_value(region.subrange(0, k as int)) as u32,
                    ) && final(self).offset == old(self).offset + k,
                    None => r.is_err() && (region.len() < 10 ==> r == Err::<u32, Error>(
                        Error::Truncated,
                    )) && (region.len() >= 10 ==> r == Err::<u32, Error>(Error::Malformed)),
                }
            }),
    {
        match self.read_varint(bytes) {
            Ok(v) => Ok(v as u32),
            Err(e) => Err(e),
        }
    }

    /// Reads a `uint64`: one varint.
    pub fn read_uint64(&mut self, bytes: &[u8]) -> (r: Result<u64, Error>)
        requires
            old(self).wf(bytes@),
        ensures
            final(self).boundary == old(self).boundary,
            final(self).wf(bytes@),
            old(self).offset <= final(self).offset,
            ({
                let region = old(self).region(bytes@);
                match varint_parse_len(region) {
                    Some(k) => r == Ok::<u64, Error>(varint_value(region.subrange(0, k as int)))
                        && final(self).offset == old(self).offset + k,
                    None => r.is_err() && (region.len() < 10 ==> r == Err::<u64, Error>(
                        Error::Truncated,
                    )) && (region.len() >= 10 ==> r == Err::<u64, Error>(Error::Malformed)),
                }
            }),
    {
        self.read_varint(bytes)
    }

    /// Reads a `sint32`: a varint, truncated to 32 bits and zigzag-decoded.
    pub fn read_sint32(&mut self, bytes: &[u8]) -> (r: Result<i32, Error>)
        requires
            old(self).wf(bytes@),
        ensures
            final(self).boundary == old(self).boundary,
            final(self).wf(bytes@),
            old(self).offset <= final(self).offset,
            ({
                let region = old(self).region(bytes@);
                match varint_parse_len(region) {
                    Some(k) => r == Ok::<i32, Error>(
                        zigzag32_inv(varint_value(region.subrange(0, k as int)) as u32),
                    ) && final(self).offset == old(self).offset + k,
                    None => r.is_err() && (region.len() < 10 ==> r == Err::<i32, Error>(
                        Error::Truncated,
                    )) && (region.len() >= 10 ==> r == Err::<i32, Error>(Error::Malformed)),
                }
            }),
    {
        match self.read_varint(bytes) {
            Ok(v) => Ok(crate::codec::decode_zigzag32(v as u32)),
            Err(e) => Err(e),
        }
    }

    /// Reads a `sint64`: a varint, zigzag-decoded.
    pub fn read_sint64(&mut self, bytes: &[u8]) -> (r: Result<i64, Error>)
        requires
            old(self).wf(bytes@),
        ensures
            final(self).boundary == old(self).boundary,
            final(self).wf(bytes@),
            old(self).offset <= final(self).offset,
            ({
                let region = old(self).region(bytes@);
                match varint_parse_len(region) {
                    Some(k) => r == Ok::<i64, Error>(
                        zigzag64_inv(varint_value(region.subrange(0, k as int))),
                    ) && final(self).offset == old(self).offset + k,
                    None => r.is_err() && (region.len() < 10 ==> r == Err::<i64, Error>(
                        Error::Truncated,
                    )) && (region.len() >= 10 ==> r == Err::<i64, Error>(Error::Malformed)),
                }
            }),
    {
        match self.read_varint(bytes) {
            Ok(v) => Ok(crate::codec::decode_zigzag64(v)),
            Err(e) => Err(e),
        }
    }

    /// Reads a `bool`: a varint; any nonzero value is true.
    pub fn read_bool(&mut self, bytes: &[u8]) -> (r: Result<bool, Error>)
        requires
            old(self).wf(bytes@),
        ensures
            final(self).boundary == old(self).boundary,
            final(self).wf(bytes@),
            old(self).offset <= final(self).offset,
            ({
                let region = old(self).region(bytes@);
                match varint_parse_len(region) {
                    Some(k) => r == Ok::<bool, Error>(
                        varint_value(region.subrange(0, k as int)) != 0,
                    ) && final(self).offset == old(self).offset + k,
                    None => r.is_err() && (region.len() < 10 ==> r == Err::<bool, Error>(
                        Error::Truncated,
                    )) && (region.len() >= 10 ==> r == Err::<bool, Error>(Error::Malformed)),
                }
            }),
    {
        match self.read_varint(bytes) {
            Ok(v) => Ok(v != 0),
            Err(e) => Err(e),
        }
    }

    /// Reads an `enum` value, coded as an `int32`.
    pub fn read_enum(&mut self, bytes: &[u8]) -> (r: Result<i32, Error>)
        requires
            old(self).wf(bytes@),
        ensures
            final(self).boundary == old(self).boundary,
            final(self).wf(bytes@),
            old(self).offset <= final(self).offset,
            ({
                let region = old(self).region(bytes@);
                match varint_parse_len(region) {
                    Some(k) => r == Ok::<i32, Error>(
                        varint_value(region.subrange(0, k as int)) as i32,
                    ) && final(self).offset == old(self).offset + k,
                    None => r.is_err() && (region.len() < 10 ==> r == Err::<i32, Error>(
                        Error::Truncated,
                    )) && (region.len() >= 10 ==> r == Err::<i32, Error>(Error::Malformed)),
                }
            }),
    {
        self.read_int32(bytes)
    }

    /// Reads a `fixed32`: four raw little-endian bytes.
    pub fn read_fixed32(&mut self, bytes: &[u8]) -> (r: Result<u32, Error>)
        requires
            old(self).wf(bytes@),
        ensures
            final(self).boundary == old(self).boundary,
            final(self).wf(bytes@),
            old(self).offset <= final(self).offset,
            old(self).boundary - old(self).offset >= 4 ==> (r matches Ok(v) && v == le_value(
                old(self).region(bytes@).subrange(0, 4),
            ) && final(self).offset == old(self).offset + 4),
            old(self).boundary - old(self).offset < 4 ==> r == Err::<u32, Error>(Error::Truncated)
                && *final(self) == *old(self),
    {
        if self.boundary - self.offset < 4 {
            return Err(Error::Truncated);
        }
        let b0 = bytes[self.offset] as u32;
        let b1 = bytes[self.offset + 1] as u32;
        let b2 = bytes[self.offset + 2] as u32;
        let b3 = bytes[self.offset + 3] as u32;
        self.offset = self.offset + 4;
        let v: u32 = b0 + b1 * 0x100 + b2 * 0x10000 + b3 * 0x1000000;
        proof {
            let s = old(self).region(bytes@).subrange(0, 4);
            lemma_le_value4(s);
        }
        Ok(v)
    }

    /// Reads a `fixed64`: eight raw little-endian bytes.
    pub fn read_fixed64(&mut self, bytes: &[u8]) -> (r: Result<u64, Error>)
        requires
            old(self).wf(bytes@),
        ensures
            final(self).boundary == old(self).boundary,
            final(self).wf(bytes@),
            old(self).offset <= final(self).offset,
            old(self).boundary - old(self).offset >= 8 ==> (r matches Ok(v) && v == le_value(
                old(self).region(bytes@).subrange(0, 8),
            ) && final(self).offset == old(self).offset + 8),
            old(self).boundary - old(self).offset < 8 ==> r == Err::<u64, Error>(Error::Truncated)
                && *final(self) == *old(self),
    {
        if self.boundary - self.offset < 8 {
            return Err(Error::Truncated);
        }
        let b0 = bytes[self.offset] as u64;
        let b1 = bytes[self.offset + 1] as u64;
        let b2 = bytes[self.offset + 2] as u64;
        let b3 = bytes[self.offset + 3] as u64;
        let b4 = bytes[self.offset + 4] as u64;
        let b5 = bytes[self.offset + 5] as u64;
        let b6 = bytes[self.offset + 6] as u64;
        let b7 = bytes[self.offset + 7] as u64;
        self.offset = self.offset + 8;
        let v: u64 = b0 + b1 * 0x100 + b2 * 0x10000 + b3 * 0x1000000 + b4 * 0x1_0000_0000 + b5
            * 0x100_0000_0000 + b6 * 0x1_0000_0000_0000 + b7 * 0x100_0000_0000_0000;
        proof {
            let s = old(self).region(bytes@).subrange(0, 8);
            lemma_le_value8(s);
        }
        Ok(v)
    }

    /// Reads an `sfixed32`: four little-endian bytes, reinterpreted signed.
    pub fn read_sfixed32(&mut self, bytes: &[u8]) -> (r: Result<i32, Error>)
        requires
            old(self).wf(bytes@),
        ensures
            final(self).boundary == old(self).boundary,
            final(self).wf(bytes@),
            old(self).offset <= final(self).offset,
            old(self).boundary - old(self).offset >= 4 ==> (r matches Ok(v) && v == ((le_value(
                old(self).region(bytes@).subrange(0, 4),
            ) as u32) as i32) && final(self).offset == old(self).offset + 4),
            old(self).boundary - old(self).offset < 4 ==> r == Err::<i32, Error>(Error::Truncated)
                && *final(self) == *old(self),
    {
        match self.read_fixed32(bytes) {
            Ok(v) => Ok(v as i32),
            Err(e) => Err(e),
        }
    }

    /// Reads an `sfixed64`: eight little-endian bytes, reinterpreted signed.
    pub fn read_sfixed64(&mut self, bytes: &[u8]) -> (r: Result<i64, Error>)
        requires
            old(self).wf(bytes@),
        ensures
            final(self).boundary == old(self).boundary,
            final(self).wf(bytes@),
            old(self).offset <= final(self).offset,
            old(self).boundary - old(self).offset >= 8 ==> (r matches Ok(v) && v == ((le_value(
                old(self).region(bytes@).subrange(0, 8),
            ) as u64) as i64) && final(self).offset == old(self).offset + 8),
            old(self).boundary - old(self).offset < 8 ==> r == Err::<i64, Error>(Error::Truncated)
                && *final(self) == *old(self),
    {
        match self.read_fixed64(bytes) {
            Ok(v) => Ok(v as i64),
            Err(e) => Err(e),
        }
    }

    /// Reads `bytes`: a varint length, then that many raw bytes, returned as
    /// a zero-copy view into the buffer.
    pub fn read_bytes<'a>(&mut self, bytes: &'a [u8]) -> (r: Result<&'a [u8], Error>)
        requires
            old(self).wf(bytes@),
        ensures
            final(self).boundary == old(self).boundary,
            final(self).wf(bytes@),
            old(self).offset <= final(self).offset,
            ({
                let region = old(self).region(bytes@);
                match varint_parse_len(region) {
                    Some(k) => ({
                        let len = varint_value(region.subrange(0, k as int)) as int;
                        if len <= region.len() - k {
                            r matches Ok(s) && s@ == region.subrange(k as int, k as int + len)
                                && final(self).offset == old(self).offset + k + len
                        } else {
                            r matches Err(e) && e == Error::Truncated
                        }
                    }),
                    None => r.is_err() && (region.len() < 10 ==> (r matches Err(e) && e
                        == Error::Truncated)) && (region.len() >= 10 ==> (r matches Err(e) && e
                        == Error::Malformed)),
                }
            }),
    {
        let len64 = match self.read_varint(bytes) {
            Ok(l) => l,
            Err(e) => {
                return Err(e);
            },
        };
        let remaining = self.boundary - self.offset;
        if len64 > remaining as u64 {
            return Err(Error::Truncated);
        }
        let len = len64 as usize;
        let s = slice_subrange(bytes, self.offset, self.offset + len);
        self.offset = self.offset + len;
        proof {
            let region = old(self).region(bytes@);
            let k = varint_parse_len(region).unwrap() as int;
            assert(s@ =~= region.subrange(k, k + len));
        }
        Ok(s)
    }

    /// Reads a `string`: a varint length, then that many bytes, which must
    /// be valid UTF-8; returned as a zero-copy view into the buffer.
    pub fn read_string<'a>(&mut self, bytes: &'a [u8]) -> (r: Result<&'a str, Error>)
        requires
            old(self).wf(bytes@),
        ensures
            final(self).boundary == old(self).boundary,
            final(self).wf(bytes@),
            old(self).offset <= final(self).offset,
            ({
                let region = old(self).region(bytes@);
                match varint_parse_len(region) {
                    Some(k) => ({
                        let len = varint_value(region.subrange(0, k as int)) as int;
                        if len <= region.len() - k {
                            let payload = region.subrange(k as int, k as int + len);
                            (valid_utf8(payload) ==> (r matches Ok(s) && s@ == decode_utf8(payload)
                                && s.spec_bytes() == payload && final(self).offset == old(
                                self,
                            ).offset + k + len)) && (!valid_utf8(payload) ==> (r matches Err(e)
                                && e == Error::Malformed))
                        } else {
                            r matches Err(e) && e == Error::Truncated
                        }
                    }),
                    None => r.is_err() && (region.len() < 10 ==> (r matches Err(e) && e
                        == Error::Truncated)) && (region.len() >= 10 ==> (r matches Err(e) && e
                        == Error::Malformed)),
                }
            }),
    {
        let payload = match self.read_bytes(bytes) {
            Ok(p) => p,
            Err(e) => {
                return Err(e);
            },
        };
        match bytes_to_str(payload) {
            Some(s) => Ok(s),
            None => Err(Error::Malformed),
        }
    }

    /// Skips one unrecognized field, consuming exactly the bytes its wire
    /// type prescribes: a varint, a fixed width, or a length prefix plus its
    /// payload. Group wire types (3 and 4) and unknown wire types are
    /// malformed.
    pub fn skip_field(&mut self, bytes: &[u8], wire_type: u32) -> (r: Result<(), Error>)
        requires
            old(self).wf(bytes@),
        ensures
            final(self).boundary == old(self).boundary,
            final(self).wf(bytes@),
            old(self).offset <= final(self).offset,
            ({
                let region = old(self).region(bytes@);
                match field_skip_len(region, wire_type) {
                    Some(n) => r == Ok::<(), Error>(()) && final(self).offset == old(self).offset
                        + n,
                    None => r.is_err(),
                }
            }),
            ({
                let region = old(self).region(bytes@);
                (wire_type == 0 || wire_type == 2) && varint_parse_len(region) is None ==> (
                region.len() < 10 ==> r == Err::<(), Error>(Error::Truncated)) && (region.len()
                    >= 10 ==> r == Err::<(), Error>(Error::Malformed))
            }),
            ({
                let region = old(self).region(bytes@);
                wire_type == 2 ==> match varint_parse_len(region) {
                    Some(k) => (varint_value(region.subrange(0, k as int)) as int) > region.len()
                        - k ==> r == Err::<(), Error>(Error::Truncated),
                    None => true,
                }
            }),
            (wire_type == 1 && old(self).boundary - old(self).offset < 8) ==> r == Err::<
                (),
                Error,
            >(Error::Truncated),
            (wire_type == 5 && old(self).boundary - old(self).offset < 4) ==> r == Err::<
                (),
                Error,
            >(Error::Truncated),
            !(wire_type == 0 || wire_type == 1 || wire_type == 2 || wire_type == 5) ==> r == Err::<
                (),
                Error,
            >(Error::Malformed),
    {
        if wire_type == 0 {
            match self.read_varint(bytes) {
                Ok(_) => Ok(()),
                Err(e) => Err(e),
            }
        } else if wire_type == 1 {
            if self.boundary - self.offset < 8 {
                return Err(Error::Truncated);
            }
            self.offset = self.offset + 8;
            Ok(())
        } else if wire_type == 5 {
            if self.boundary - self.offset < 4 {
                return Err(Error::Truncated);
            }
            self.offset = self.offset + 4;
            Ok(())
        } else if wire_type == 2 {
            match self.read_bytes(bytes) {
                Ok(_) => Ok(()),
                Err(e) => Err(e),
            }
        } else {
            Err(Error::Malformed)
        }
    }

    /// Reads a packed repeated varint field's payload: a varint length, then
    /// varint elements back to back until the payload's own boundary.
    pub fn read_packed_varints(&mut self, bytes: &[u8]) -> (r: Result<Vec<u64>, Error>)
        requires
            old(self).wf(bytes@),
        ensures
            final(self).boundary == old(self).boundary,
            final(self).wf(bytes@),
            old(self).offset <= final(self).offset,
            ({
                let region = old(self).region(bytes@);
                match varint_parse_len(region) {
                    Some(k) => ({
                        let len = varint_value(region.subrange(0, k as int)) as int;
                        if len <= region.len() - k {
                            let payload = region.subrange(k as int, k as int + len);
                            (r matches Ok(vs) ==> parse_packed_varints(payload) == Some(vs@)
                                && final(self).offset == old(self).offset + k + len) && (r is Err
                                ==> parse_packed_varints(payload) is None)
                        } else {
                            r matches Err(e) && e == Error::Truncated
                        }
                    }),
                    None => r.is_err() && (region.len() < 10 ==> (r matches Err(e) && e
                        == Error::Truncated)) && (region.len() >= 10 ==> (r matches Err(e) && e
                        == Error::Malformed)),
                }
            }),
    {
        let len64 = match self.read_varint(bytes) {
            Ok(l) => l,
            Err(e) => {
                return Err(e);
            },
        };
        let remaining = self.boundary - self.offset;
        if len64 > remaining as u64 {
            return Err(Error::Truncated);
        }
        let len = len64 as usize;
        let saved_boundary = self.boundary;
        let sub_end = self.offset + len;
        self.boundary = sub_end;
        let ghost payload = bytes@.subrange(self.offset as int, sub_end as int);
        proof {
            let region = old(self).region(bytes@);
            let k = varint_parse_len(region).unwrap() as int;
            assert(payload =~= region.subrange(k, k + len));
        }
        let mut vs: Vec<u64> = Vec::new();
        proof {
            assert(parse_packed_varints(Seq::<u8>::empty()) == Some(Seq::<u64>::empty()));
            if parse_packed_varints(payload) is Some {
                assert(vs@ + parse_packed_varints(payload).unwrap() =~= parse_packed_varints(
                    payload,
                ).unwrap());
            }
        }
        while self.offset < sub_end
            invariant
                saved_boundary == old(self).boundary,
                old(self).offset <= self.offset,
                self.boundary == sub_end,
                self.offset <= sub_end <= saved_boundary <= bytes@.len(),
                ({
                    let region = old(self).region(bytes@);
                    match varint_parse_len(region) {
                        Some(k) => ({
                            let len0 = varint_value(region.subrange(0, k as int)) as int;
                            &&& len0 <= region.len() - k
                            &&& sub_end == old(self).offset + k + len0
                            &&& payload == region.subrange(k as int, k as int + len0)
                        }),
                        None => false,
                    }
                }),
                ({
                    let rem = bytes@.subrange(self.offset as int, sub_end as int);
                    match parse_packed_varints(rem) {
                        Some(t) => parse_packed_varints(payload) == Some(vs@ + t),
                        None => parse_packed_varints(payload) is None,
                    }
                }),
            decreases sub_end - self.offset,
        {
            let ghost pre = self;
            let ghost rem = bytes@.subrange(pre.offset as int, sub_end as int);
            let v = match self.read_varint(bytes) {
                Ok(v) => v,
                Err(e) => {
                    proof {
                        assert(parse_packed_varints(rem) is None);
                    }
                    self.boundary = saved_boundary;
                    return Err(e);
                },
            };
            proof {
                let k1 = varint_parse_len(rem).unwrap();
                lemma_scan_len_bounds(rem, 10);
                let rem2 = bytes@.subrange(self.offset as int, sub_end as int);
                assert(rem2 =~= rem.subrange(k1 as int, rem.len() as int));
                assert(v == varint_value(rem.subrange(0, k1 as int)));
                match parse_packed_varints(rem2) {
                    Some(t2) => {
                        assert(parse_packed_varints(rem) == Some(seq![v] + t2));
                        assert(vs@ + (seq![v] + t2) =~= vs@.push(v) + t2);
                    },
                    None => {
                        assert(parse_packed_varints(rem) is None);
                    },
                }
            }
            vs.push(v);
        }
        proof {
            assert(bytes@.subrange(self.offset as int, sub_end as int) =~= Seq::<u8>::empty());
            assert(parse_packed_varints(payload) == Some(vs@ + Seq::<u64>::empty()));
            assert(vs@ + Seq::<u64>::empty() =~= vs@);
        }
        self.boundary = saved_boundary;
        Ok(vs)
    }

    /// Reads a packed repeated fixed32 field's payload: a varint length,
    /// then four-byte little-endian elements back to back. A payload that is
    /// not a whole number of elements is truncated mid-element.
    pub fn read_packed_fixed32(&mut self, bytes: &[u8]) -> (r: Result<Vec<u32>, Error>)
        requires
            old(self).wf(bytes@),
        ensures
            final(self).boundary == old(self).boundary,
            final(self).wf(bytes@),
            old(self).offset <= final(self).offset,
            ({
                let region = old(self).region(bytes@);
                match varint_parse_len(region) {
                    Some(k) => ({
                        let len = varint_value(region.subrange(0, k as int)) as int;
                        if len > region.len() - k || len % 4 != 0 {
                            r matches Err(e) && e == Error::Truncated
                        } else {
                            r matches Ok(vs) && packed_fixed32_payload(vs@) == region.subrange(
                                k as int,
                                k as int + len,
                            ) && vs@.len() == len / 4 && final(self).offset == old(self).offset + k
                                + len
                        }
                    }),
                    None => r.is_err() && (region.len() < 10 ==> (r matches Err(e) && e
                        == Error::Truncated)) && (region.len() >= 10 ==> (r matches Err(e) && e
                        == Error::Malformed)),
                }
            }),
    {
        let len64 = match self.read_varint(bytes) {
            Ok(l) => l,
            Err(e) => {
                return Err(e);
            },
        };
        let remaining = self.boundary - self.offset;
        if len64 > remaining as u64 {
            return Err(Error::Truncated);
        }
        let len = len64 as usize;
        if len % 4 != 0 {
            return Err(Error::Truncated);
        }
        let count = len / 4;
        let ghost start = self.offset;
        let ghost payload = bytes@.subrange(start as int, start as int + len);
        proof {
            let region = old(self).region(bytes@);
            let k = varint_parse_len(region).unwrap() as int;
            assert(payload =~= region.subrange(k, k + len));
        }
        let mut vs: Vec<u32> = Vec::new();
        while vs.len() < count
            invariant
                self.boundary == old(self).boundary,
                self.wf(bytes@),
                vs@.len() <= count,
                count * 4 == len,
                self.offset == start + 4 * vs@.len(),
                start + len <= self.boundary,
                payload == bytes@.subrange(start as int, start as int + len),
                old(self).offset <= start,
                ({
                    let region = old(self).region(bytes@);
                    match varint_parse_len(region) {
                        Some(k) => start == old(self).offset + k && (len as int) <= region.len()
                            - k && payload == region.subrange(k as int, k as int + len),
                        None => false,
                    }
                }),
                packed_fixed32_payload(vs@) =~= payload.subrange(0, 4 * vs@.len() as int),
            decreases count - vs@.len(),
        {
            let ghost i = vs@.len() as int;
            let v = match self.read_fixed32(bytes) {
                Ok(v) => v,
                Err(e) => {
                    proof {
                        assert(self.boundary - self.offset >= 4);
                    }
                    return Err(e);
                },
            };
            proof {
                let chunk = payload.subrange(4 * i, 4 * i + 4);
                assert(bytes@.subrange(
                    start + 4 * i,
                    old(self).boundary as int,
                ).subrange(0, 4) =~= chunk);
                lemma_le_bytes_of_value(chunk);
                assert(le_bytes(v as int, 4) == chunk);
                lemma_packed_fixed32_payload_push(vs@, v);
                assert(packed_fixed32_payload(vs@.push(v)) =~= payload.subrange(0, 4 * (i + 1)));
            }
            vs.push(v);
        }
        proof {
            assert(packed_fixed32_payload(vs@) =~= payload);
        }
        Ok(vs)
    }

    /// Reads a packed repeated fixed64 field's payload: a varint length,
    /// then eight-byte little-endian elements back to back. A payload that
    /// is not a whole number of elements is truncated mid-element.
    pub fn read_packed_fixed64(&mut self, bytes: &[u8]) -> (r: Result<Vec<u64>, Error>)
        requires
            old(self).wf(bytes@),
        ensures
            final(self).boundary == old(self).boundary,
            final(self).wf(bytes@),
            old(self).offset <= final(self).offset,
            ({
                let region = old(self).region(bytes@);
                match varint_parse_len(region) {
                    Some(k) => ({
                        let len = varint_value(region.subrange(0, k as int)) as int;
                        if len > region.len() - k || len % 8 != 0 {
                            r matches Err(e) && e == Error::Truncated
                        } else {
                            r matches Ok(vs) && packed_fixed64_payload(vs@) == region.subrange(
                                k as int,
                                k as int + len,
                            ) && vs@.len() == len / 8 && final(self).offset == old(self).offset + k
                                + len
                        }
                    }),
                    None => r.is_err() && (region.len() < 10 ==> (r matches Err(e) && e
                        == Error::Truncated)) && (region.len() >= 10 ==> (r matches Err(e) && e
                        == Error::Malformed)),
                }
            }),
    {
        let len64 = match self.read_varint(bytes) {
            Ok(l) => l,
            Err(e) => {
                return Err(e);
            },
        };
        let remaining = self.boundary - self.offset;
        if len64 > remaining as u64 {
            return Err(Error::Truncated);
        }
        let len = len64 as usize;
        if len % 8 != 0 {
            return Err(Error::Truncated);
        }
        let count = len / 8;
        let ghost start = self.offset;
        let ghost payload = bytes@.subrange(start as int, start as int + len);
        proof {
            let region = old(self).region(bytes@);
            let k = varint_parse_len(region).unwrap() as int;
            assert(payload =~= region.subrange(k, k + len));
        }
        let mut vs: Vec<u64> = Vec::new();
        while vs.len() < count
            invariant
                self.boundary == old(self).boundary,
                self.wf(bytes@),
                vs@.len() <= count,
                count * 8 == len,
                self.offset == start + 8 * vs@.len(),
                start + len <= self.boundary,
                payload == bytes@.subrange(start as int, start as int + len),
                old(self).offset <= start,
                ({
                    let region = old(self).region(bytes@);
                    match varint_parse_len(region) {
                        Some(k) => start == old(self).offset + k && (len as int) <= region.len()
                            - k && payload == region.subrange(k as int, k as int + len),
                        None => false,
                    }
                }),
                packed_fixed64_payload(vs@) =~= payload.subrange(0, 8 * vs@.len() as int),
            decreases count - vs@.len(),
        {
            let ghost i = vs@.len() as int;
            let v = match self.read_fixed64(bytes) {
                Ok(v) => v,
                Err(e) => {
                    proof {
                        assert(self.boundary - self.offset >= 8);
                    }
                    return Err(e);
                },
            };
            proof {
                let chunk = payload.subrange(8 * i, 8 * i + 8);
                assert(bytes@.subrange(
                    start + 8 * i,
                    old(self).boundary as int,
                ).subrange(0, 8) =~= chunk);
                lemma_le_bytes_of_value(chunk);
                assert(le_bytes(v as int, 8) == chunk);
                lemma_packed_fixed64_payload_push(vs@, v);
                assert(packed_fixed64_payload(vs@.push(v)) =~= payload.subrange(0, 8 * (i + 1)));
            }
            vs.push(v);
        }
        proof {
            assert(packed_fixed64_payload(vs@) =~= payload);
        }
        Ok(vs)
    }

    /// Reads a nested message: a varint length, then the fields of the
    /// message, decoded by its `MessageRead` implementation under a boundary
    /// pushed at the end of the payload and restored afterwards. A payload
    /// cut short by the boundary is truncation, whatever it holds.
    pub fn read_message<M: MessageRead>(&mut self, bytes: &[u8]) -> (r: Result<M, Error>)
        requires
            old(self).wf(bytes@),
        ensures
            final(self).boundary == old(self).boundary,
            final(self).wf(bytes@),
            old(self).offset <= final(self).offset,
            frame_truncated(old(self).region(bytes@)) ==> (r matches Err(e) && e
                == Error::Truncated),
            ({
                let region = old(self).region(bytes@);
                match varint_parse_len(region) {
                    Some(k) => ({
                        let len = varint_value(region.subrange(0, k as int)) as int;
                        if len <= region.len() - k {
                            r is Ok ==> final(self).offset == old(self).offset + k + len
                        } else {
                            r matches Err(e) && e == Error::Truncated
                        }
                    }),
                    None => r.is_err() && (region.len() < 10 ==> (r matches Err(e) && e
                        == Error::Truncated)) && (region.len() >= 10 ==> (r matches Err(e) && e
                        == Error::Malformed)),
                }
            }),
    {
        let len64 = match self.read_varint(bytes) {
            Ok(l) => l,
            Err(e) => {
                return Err(e);
            },
        };
        let remaining = self.boundary - self.offset;
        if len64 > remaining as u64 {
            return Err(Error::Truncated);
        }
        let len = len64 as usize;
        let saved_boundary = self.boundary;
        self.boundary = self.offset + len;
        match M::from_reader(self, bytes) {
            Ok(m) => {
                self.offset = self.boundary;
                self.boundary = saved_boundary;
                Ok(m)
            },
            Err(e) => {
                self.boundary = saved_boundary;
                Err(e)
            },
        }
    }
}

/// Relies on std::str::from_utf8: returns the string viewing `b` exactly
/// when `b` is valid UTF-8.
#[verifier::external_body]
fn bytes_to_str(b: &[u8]) -> (r: Option<&str>)
    ensures
        match r {
            Some(s) => valid_utf8(b@) && s@ == decode_utf8(b@) && s.spec_bytes() == b@,
            None => !valid_utf8(b@),
        },
{
    core::str::from_utf8(b).ok()
}

/// The base-128 value of any byte group sequence is non-negative.
proof fn lemma_varint_value_int_nonneg(s: Seq<u8>)
    ensures
        varint_value_int(s) >= 0,
    decreases s.len(),
{
    if s.len() > 0 {
        lemma_varint_value_int_nonneg(s.subrange(1, s.len() as int));
    }
}

} // verus!
