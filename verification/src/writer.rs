//! The byte sink of the wire format: sequential writers for tags, scalars,
//! length-delimited payloads, packed repeated fields and nested messages.
//!
//! Every writer's contract states the exact bytes it appends, in terms of the
//! spec functions of [`crate::codec`].

use vstd::prelude::*;
use vstd::string::StringSliceAdditionalSpecFns;

use byteorder::{LittleEndian, WriteBytesExt};

use crate::codec::{
    le_bytes, lemma_packed_fixed32_payload_push, lemma_packed_fixed64_payload_push,
    lemma_packed_varint_payload_push, lemma_packed_varint_payload_split, packed_fixed32_payload,
    packed_fixed64_payload, packed_varint_payload, sizeof_varint, varint_bytes, zigzag32, zigzag64,
};
use crate::errors::Error;
use crate::message::MessageWrite;

verus! {

/// A sequential protobuf writer over an in-memory byte buffer.
///
/// The buffer accumulates every byte emitted; a caller that serves a file or
/// a socket hands the finished buffer to its channel afterwards, so a failed
/// transfer never leaves a half-written message at the destination.
pub struct Writer {
    inner: Vec<u8>,
}

impl View for Writer {
    type V = Seq<u8>;

    closed spec fn view(&self) -> Seq<u8> {
        self.inner@
    }
}

/// Relies on byteorder's `WriteBytesExt::write_u32` with the `LittleEndian`
/// order: appends exactly the four little-endian bytes of `v`. Writing into a
/// `Vec` cannot fail.
#[verifier::external_body]
fn push_u32_le(buf: &mut Vec<u8>, v: u32)
    ensures
        final(buf)@ == old(buf)@ + le_bytes(v as int, 4),
{
    buf.write_u32::<LittleEndian>(v).unwrap();
}

/// Relies on byteorder's `WriteBytesExt::write_u64` with the `LittleEndian`
/// order: appends exactly the eight little-endian bytes of `v`. Writing into
/// a `Vec` cannot fail.
#[verifier::external_body]
fn push_u64_le(buf: &mut Vec<u8>, v: u64)
    ensures
        final(buf)@ == old(buf)@ + le_bytes(v as int, 8),
{
    buf.write_u64::<LittleEndian>(v).unwrap();
}

/// Relies on byteorder's `WriteBytesExt::write_i32` with the `LittleEndian`
/// order: appends the four little-endian bytes of the two's-complement image
/// of `v`. Writing into a `Vec` cannot fail.
#[verifier::external_body]
fn push_i32_le(buf: &mut Vec<u8>, v: i32)
    ensures
        final(buf)@ == old(buf)@ + le_bytes((v as u32) as int, 4),
{
    buf.write_i32::<LittleEndian>(v).unwrap();
}

/// Relies on byteorder's `WriteBytesExt::write_i64` with the `LittleEndian`
/// order: appends the eight little-endian bytes of the two's-complement image
/// of `v`. Writing into a `Vec` cannot fail.
#[verifier::external_body]
fn push_i64_le(buf: &mut Vec<u8>, v: i64)
    ensures
        final(buf)@ == old(buf)@ + le_bytes((v as u64) as int, 8),
{
    buf.write_i64::<LittleEndian>(v).unwrap();
}

/// The total byte length of the packed varint payload of `v`.
fn packed_varint_size(v: &[u64]) -> (r: usize)
    requires
        packed_varint_payload(v@).len() <= usize::MAX,
    ensures
        r == packed_varint_payload(v@).len(),
{
    let mut total: usize = 0;
    let mut i: usize = 0;
    while i < v.len()
        invariant
            0 <= i <= v@.len(),
            total == packed_varint_payload(v@.subrange(0, i as int)).len(),
            packed_varint_payload(v@).len() <= usize::MAX,
        decreases v@.len() - i,
    {
        proof {
            assert(v@.subrange(0, i + 1) =~= v@.subrange(0, i as int).push(v@[i as int]));
            lemma_packed_varint_payload_push(v@.subrange(0, i as int), v@[i as int]);
            lemma_packed_varint_payload_split(v@, i + 1);
        }
        total = total + sizeof_varint(v[i]);
        i = i + 1;
    }
    proof {
        assert(v@.subrange(0, v@.len() as int) =~= v@);
    }
    total
}

impl Writer {
    /// Creates a new writer over the given output buffer.
    pub fn new(w: Vec<u8>) -> (r: Writer)
        ensures
            r@ == w@,
    {
        Writer { inner: w }
    }

    /// Hands the accumulated bytes back to the caller.
    pub fn into_inner(self) -> (r: Vec<u8>)
        ensures
            r@ == self@,
    {
        self.inner
    }

    /// Writes a `varint` (compacted `u64`).
    pub fn write_varint(&mut self, v: u64) -> (r: Result<(), Error>)
        ensures
            r.is_ok(),
            final(self)@ == old(self)@ + varint_bytes(v),
        decreases v,
    {
        if v < 0x80 {
            self.inner.push(v as u8);
            proof {
                assert(self@ =~= old(self)@ + varint_bytes(v));
            }
            Ok(())
        } else {
            self.inner.push((v % 0x80 + 0x80) as u8);
            let r = self.write_varint(v / 0x80);
            proof {
                assert(self@ =~= old(self)@ + varint_bytes(v));
            }
            r
        }
    }

    /// Writes a tag, which packs a field number and a wire type.
    pub fn write_tag(&mut self, tag: u32) -> (r: Result<(), Error>)
        ensures
            r.is_ok(),
            final(self)@ == old(self)@ + varint_bytes(tag as u64),
    {
        self.write_varint(tag as u64)
    }

    /// Writes an `int32`, coded as a sign-extended varint.
    pub fn write_int32(&mut self, v: i32) -> (r: Result<(), Error>)
        ensures
            r.is_ok(),
            final(self)@ == old(self)@ + varint_bytes(v as u64),
    {
        self.write_varint(v as u64)
    }

    /// Writes an `int64`, coded as a varint.
    pub fn write_int64(&mut self, v: i64) -> (r: Result<(), Error>)
        ensures
            r.is_ok(),
            final(self)@ == old(self)@ + varint_bytes(v as u64),
    {
        self.write_varint(v as u64)
    }

    /// Writes a `uint32`, coded as a varint.
    pub fn write_uint32(&mut self, v: u32) -> (r: Result<(), Error>)
        ensures
            r.is_ok(),
            final(self)@ == old(self)@ + varint_bytes(v as u64),
    {
        self.write_varint(v as u64)
    }

    /// Writes a `uint64`, coded as a varint.
    pub fn write_uint64(&mut self, v: u64) -> (r: Result<(), Error>)
        ensures
            r.is_ok(),
            final(self)@ == old(self)@ + varint_bytes(v),
    {
        self.write_varint(v)
    }

    /// Writes a `sint32`: the zigzag image of `v`, coded as a varint.
    pub fn write_sint32(&mut self, v: i32) -> (r: Result<(), Error>)
        ensures
            r.is_ok(),
            final(self)@ == old(self)@ + varint_bytes(zigzag32(v) as u64),
    {
        let z = crate::codec::encode_zigzag32(v);
        self.write_varint(z as u64)
    }

    /// Writes a `sint64`: the zigzag image of `v`, coded as a varint.
    pub fn write_sint64(&mut self, v: i64) -> (r: Result<(), Error>)
        ensures
            r.is_ok(),
            final(self)@ == old(self)@ + varint_bytes(zigzag64(v)),
    {
        let z = crate::codec::encode_zigzag64(v);
        self.write_varint(z)
    }

    /// Writes a `fixed64`: eight raw little-endian bytes, no length prefix.
    pub fn write_fixed64(&mut self, v: u64) -> (r: Result<(), Error>)
        ensures
            r.is_ok(),
            final(self)@ == old(self)@ + le_bytes(v as int, 8),
    {
        push_u64_le(&mut self.inner, v);
        Ok(())
    }

    /// Writes a `fixed32`: four raw little-endian bytes, no length prefix.
    pub fn write_fixed32(&mut self, v: u32) -> (r: Result<(), Error>)
        ensures
            r.is_ok(),
            final(self)@ == old(self)@ + le_bytes(v as int, 4),
    {
        push_u32_le(&mut self.inner, v);
        Ok(())
    }

    /// Writes an `sfixed64`: the two's-complement image of `v`, little endian.
    pub fn write_sfixed64(&mut self, v: i64) -> (r: Result<(), Error>)
        ensures
            r.is_ok(),
            final(self)@ == old(self)@ + le_bytes((v as u64) as int, 8),
    {
        push_i64_le(&mut self.inner, v);
        Ok(())
    }

    /// Writes an `sfixed32`: the two's-complement image of `v`, little endian.
    pub fn write_sfixed32(&mut self, v: i32) -> (r: Result<(), Error>)
        ensures
            r.is_ok(),
            final(self)@ == old(self)@ + le_bytes((v as u32) as int, 4),
    {
        push_i32_le(&mut self.inner, v);
        Ok(())
    }

    /// Writes a `bool`: one varint byte, 1 for true and 0 for false.
    pub fn write_bool(&mut self, v: bool) -> (r: Result<(), Error>)
        ensures
            r.is_ok(),
            final(self)@ == old(self)@ + varint_bytes((if v { 1u64 } else { 0u64 })),
    {
        self.write_varint(if v { 1 } else { 0 })
    }

    /// Writes an `enum` value, coded as an `int32`.
    pub fn write_enum(&mut self, v: i32) -> (r: Result<(), Error>)
        ensures
            r.is_ok(),
            final(self)@ == old(self)@ + varint_bytes(v as u64),
    {
        self.write_int32(v)
    }

    /// Writes `bytes`: a varint length first, then the raw bytes.
    pub fn write_bytes(&mut self, bytes: &[u8]) -> (r: Result<(), Error>)
        ensures
            r.is_ok(),
            final(self)@ == old(self)@ + varint_bytes(bytes@.len() as u64) + bytes@,
    {
        match self.write_varint(bytes.len() as u64) {
            Ok(()) => {
                self.inner.extend_from_slice(bytes);
                Ok(())
            },
            Err(e) => Err(e),
        }
    }

    /// Writes a `string`: a varint length first, then the UTF-8 bytes.
    /// UTF-8 validity of `s` is guaranteed by its type.
    pub fn write_string(&mut self, s: &str) -> (r: Result<(), Error>)
        ensures
            r.is_ok(),
            final(self)@ == old(self)@ + varint_bytes(s.spec_bytes().len() as u64) + s.spec_bytes(),
    {
        self.write_bytes(s.as_bytes())
    }

    /// Writes a packed repeated varint field without its tag: one varint
    /// length for the whole payload, then each element back to back. Callers
    /// pass each element as the `u64` varint image of its scalar kind
    /// (sign-extended `int32`/`int64`, zigzagged `sint32`/`sint64`, 0 or 1
    /// for `bool`). An empty slice writes nothing at all.
    pub fn write_packed_repeated_field(&mut self, v: &[u64]) -> (r: Result<(), Error>)
        requires
            packed_varint_payload(v@).len() <= usize::MAX,
        ensures
            r.is_ok(),
            v@.len() == 0 ==> final(self)@ == old(self)@,
            v@.len() > 0 ==> final(self)@ == old(self)@ + varint_bytes(
                packed_varint_payload(v@).len() as u64,
            ) + packed_varint_payload(v@),
    {
        if v.is_empty() {
            return Ok(());
        }
        let total = packed_varint_size(v);
        match self.write_varint(total as u64) {
            Ok(()) => {},
            Err(e) => {
                return Err(e);
            },
        }
        let ghost mid = self@;
        let mut i: usize = 0;
        while i < v.len()
            invariant
                0 <= i <= v@.len(),
                self@ == mid + packed_varint_payload(v@.subrange(0, i as int)),
            decreases v@.len() - i,
        {
            proof {
                assert(v@.subrange(0, i + 1) =~= v@.subrange(0, i as int).push(v@[i as int]));
                lemma_packed_varint_payload_push(v@.subrange(0, i as int), v@[i as int]);
            }
            match self.write_varint(v[i]) {
                Ok(()) => {},
                Err(e) => {
                    return Err(e);
                },
            }
            i = i + 1;
        }
        proof {
            assert(v@.subrange(0, v@.len() as int) =~= v@);
        }
        Ok(())
    }

    /// Writes a packed repeated fixed32 field without its tag: one varint
    /// length (four bytes per element), then each element little endian. An
    /// empty slice writes nothing at all: that is the wire format's
    /// convention for an absent field.
    pub fn write_packed_fixed32(&mut self, v: &[u32]) -> (r: Result<(), Error>)
        requires
            4 * v@.len() <= usize::MAX,
        ensures
            r.is_ok(),
            v@.len() == 0 ==> final(self)@ == old(self)@,
            v@.len() > 0 ==> final(self)@ == old(self)@ + varint_bytes((4 * v@.len()) as u64)
                + packed_fixed32_payload(v@),
    {
        if v.is_empty() {
            return Ok(());
        }
        let total: usize = 4 * v.len();
        match self.write_varint(total as u64) {
            Ok(()) => {},
            Err(e) => {
                return Err(e);
            },
        }
        let ghost mid = self@;
        let mut i: usize = 0;
        while i < v.len()
            invariant
                0 <= i <= v@.len(),
                self@ == mid + packed_fixed32_payload(v@.subrange(0, i as int)),
            decreases v@.len() - i,
        {
            proof {
                assert(v@.subrange(0, i + 1) =~= v@.subrange(0, i as int).push(v@[i as int]));
                lemma_packed_fixed32_payload_push(v@.subrange(0, i as int), v@[i as int]);
            }
            push_u32_le(&mut self.inner, v[i]);
            i = i + 1;
        }
        proof {
            assert(v@.subrange(0, v@.len() as int) =~= v@);
        }
        Ok(())
    }

    /// Writes a packed repeated fixed64 field without its tag: one varint
    /// length (eight bytes per element), then each element little endian. An
    /// empty slice writes nothing at all: that is the wire format's
    /// convention for an absent field.
    pub fn write_packed_fixed64(&mut self, v: &[u64]) -> (r: Result<(), Error>)
        requires
            8 * v@.len() <= usize::MAX,
        ensures
            r.is_ok(),
            v@.len() == 0 ==> final(self)@ == old(self)@,
            v@.len() > 0 ==> final(self)@ == old(self)@ + varint_bytes((8 * v@.len()) as u64)
                + packed_fixed64_payload(v@),
    {
        if v.is_empty() {
            return Ok(());
        }
        let total: usize = 8 * v.len();
        match self.write_varint(total as u64) {
            Ok(()) => {},
            Err(e) => {
                return Err(e);
            },
        }
        let ghost mid = self@;
        let mut i: usize = 0;
        while i < v.len()
            invariant
                0 <= i <= v@.len(),
                self@ == mid + packed_fixed64_payload(v@.subrange(0, i as int)),
            decreases v@.len() - i,
        {
            proof {
                assert(v@.subrange(0, i + 1) =~= v@.subrange(0, i as int).push(v@[i as int]));
                lemma_packed_fixed64_payload_push(v@.subrange(0, i as int), v@[i as int]);
            }
            push_u64_le(&mut self.inner, v[i]);
            i = i + 1;
        }
        proof {
            assert(v@.subrange(0, v@.len() as int) =~= v@);
        }
        Ok(())
    }

    /// Writes a tag, then an `int32`.
    pub fn write_int32_with_tag(&mut self, tag: u32, v: i32) -> (r: Result<(), Error>)
        ensures
            r.is_ok(),
            final(self)@ == old(self)@ + varint_bytes(tag as u64) + varint_bytes(v as u64),
    {
        match self.write_tag(tag) {
            Ok(()) => self.write_int32(v),
            Err(e) => Err(e),
        }
    }

    /// Writes a tag, then an `int64`.
    pub fn write_int64_with_tag(&mut self, tag: u32, v: i64) -> (r: Result<(), Error>)
        ensures
            r.is_ok(),
            final(self)@ == old(self)@ + varint_bytes(tag as u64) + varint_bytes(v as u64),
    {
        match self.write_tag(tag) {
            Ok(()) => self.write_int64(v),
            Err(e) => Err(e),
        }
    }

    /// Writes a tag, then a `uint32`.
    pub fn write_uint32_with_tag(&mut self, tag: u32, v: u32) -> (r: Result<(), Error>)
        ensures
            r.is_ok(),
            final(self)@ == old(self)@ + varint_bytes(tag as u64) + varint_bytes(v as u64),
    {
        match self.write_tag(tag) {
            Ok(()) => self.write_uint32(v),
            Err(e) => Err(e),
        }
    }

    /// Writes a tag, then a `uint64`.
    pub fn write_uint64_with_tag(&mut self, tag: u32, v: u64) -> (r: Result<(), Error>)
        ensures
            r.is_ok(),
            final(self)@ == old(self)@ + varint_bytes(tag as u64) + varint_bytes(v),
    {
        match self.write_tag(tag) {
            Ok(()) => self.write_uint64(v),
            Err(e) => Err(e),
        }
    }

    /// Writes a tag, then a `sint32`.
    pub fn write_sint32_with_tag(&mut self, tag: u32, v: i32) -> (r: Result<(), Error>)
        ensures
            r.is_ok(),
            final(self)@ == old(self)@ + varint_bytes(tag as u64) + varint_bytes(
                zigzag32(v) as u64,
            ),
    {
        match self.write_tag(tag) {
            Ok(()) => self.write_sint32(v),
            Err(e) => Err(e),
        }
    }

    /// Writes a tag, then a `sint64`.
    pub fn write_sint64_with_tag(&mut self, tag: u32, v: i64) -> (r: Result<(), Error>)
        ensures
            r.is_ok(),
            final(self)@ == old(self)@ + varint_bytes(tag as u64) + varint_bytes(zigzag64(v)),
    {
        match self.write_tag(tag) {
            Ok(()) => self.write_sint64(v),
            Err(e) => Err(e),
        }
    }

    /// Writes a tag, then a `fixed64`.
    pub fn write_fixed64_with_tag(&mut self, tag: u32, v: u64) -> (r: Result<(), Error>)
        ensures
            r.is_ok(),
            final(self)@ == old(self)@ + varint_bytes(tag as u64) + le_bytes(v as int, 8),
    {
        match self.write_tag(tag) {
            Ok(()) => self.write_fixed64(v),
            Err(e) => Err(e),
        }
    }

    /// Writes a tag, then a `fixed32`.
    pub fn write_fixed32_with_tag(&mut self, tag: u32, v: u32) -> (r: Result<(), Error>)
        ensures
            r.is_ok(),
            final(self)@ == old(self)@ + varint_bytes(tag as u64) + le_bytes(v as int, 4),
    {
        match self.write_tag(tag) {
            Ok(()) => self.write_fixed32(v),
            Err(e) => Err(e),
        }
    }

    /// Writes a tag, then an `sfixed64`.
    pub fn write_sfixed64_with_tag(&mut self, tag: u32, v: i64) -> (r: Result<(), Error>)
        ensures
            r.is_ok(),
            final(self)@ == old(self)@ + varint_bytes(tag as u64) + le_bytes((v as u64) as int, 8),
    {
        match self.write_tag(tag) {
            Ok(()) => self.write_sfixed64(v),
            Err(e) => Err(e),
        }
    }

    /// Writes a tag, then an `sfixed32`.
    pub fn write_sfixed32_with_tag(&mut self, tag: u32, v: i32) -> (r: Result<(), Error>)
        ensures
            r.is_ok(),
            final(self)@ == old(self)@ + varint_bytes(tag as u64) + le_bytes((v as u32) as int, 4),
    {
        match self.write_tag(tag) {
            Ok(()) => self.write_sfixed32(v),
            Err(e) => Err(e),
        }
    }

    /// Writes a tag, then a `bool`.
    pub fn write_bool_with_tag(&mut self, tag: u32, v: bool) -> (r: Result<(), Error>)
        ensures
            r.is_ok(),
            final(self)@ == old(self)@ + varint_bytes(tag as u64) + varint_bytes(
                (if v { 1u64 } else { 0u64 }),
            ),
    {
        match self.write_tag(tag) {
            Ok(()) => self.write_bool(v),
            Err(e) => Err(e),
        }
    }

    /// Writes a tag, then an `enum` value.
    pub fn write_enum_with_tag(&mut self, tag: u32, v: i32) -> (r: Result<(), Error>)
        ensures
            r.is_ok(),
            final(self)@ == old(self)@ + varint_bytes(tag as u64) + varint_bytes(v as u64),
    {
        match self.write_tag(tag) {
            Ok(()) => self.write_enum(v),
            Err(e) => Err(e),
        }
    }

    /// Writes a tag, then `bytes`.
    pub fn write_bytes_with_tag(&mut self, tag: u32, bytes: &[u8]) -> (r: Result<(), Error>)
        ensures
            r.is_ok(),
            final(self)@ == old(self)@ + varint_bytes(tag as u64) + varint_bytes(
                bytes@.len() as u64,
            ) + bytes@,
    {
        match self.write_tag(tag) {
            Ok(()) => self.write_bytes(bytes),
            Err(e) => Err(e),
        }
    }

    /// Writes a tag, then a `string`.
    pub fn write_string_with_tag(&mut self, tag: u32, s: &str) -> (r: Result<(), Error>)
        ensures
            r.is_ok(),
            final(self)@ == old(self)@ + varint_bytes(tag as u64) + varint_bytes(
                s.spec_bytes().len() as u64,
            ) + s.spec_bytes(),
    {
        match self.write_tag(tag) {
            Ok(()) => self.write_string(s),
            Err(e) => Err(e),
        }
    }

    /// Writes a tag, then a packed repeated varint field. An empty slice
    /// writes nothing at all, not even the tag: that is the wire format's
    /// convention for an absent field.
    pub fn write_packed_repeated_field_with_tag(&mut self, tag: u32, v: &[u64]) -> (r: Result<
        (),
        Error,
    >)
        requires
            packed_varint_payload(v@).len() <= usize::MAX,
        ensures
            r.is_ok(),
            v@.len() == 0 ==> final(self)@ == old(self)@,
            v@.len() > 0 ==> final(self)@ == old(self)@ + varint_bytes(tag as u64) + varint_bytes(
                packed_varint_payload(v@).len() as u64,
            ) + packed_varint_payload(v@),
    {
        if v.is_empty() {
            return Ok(());
        }
        match self.write_tag(tag) {
            Ok(()) => self.write_packed_repeated_field(v),
            Err(e) => Err(e),
        }
    }

    /// Writes a tag, then a packed repeated fixed32 field. An empty slice
    /// writes nothing at all, not even the tag.
    pub fn write_packed_fixed32_with_tag(&mut self, tag: u32, v: &[u32]) -> (r: Result<(), Error>)
        requires
            4 * v@.len() <= usize::MAX,
        ensures
            r.is_ok(),
            v@.len() == 0 ==> final(self)@ == old(self)@,
            v@.len() > 0 ==> final(self)@ == old(self)@ + varint_bytes(tag as u64) + varint_bytes(
                (4 * v@.len()) as u64,
            ) + packed_fixed32_payload(v@),
    {
        if v.is_empty() {
            return Ok(());
        }
        match self.write_tag(tag) {
            Ok(()) => self.write_packed_fixed32(v),
            Err(e) => Err(e),
        }
    }

    /// Writes a tag, then a packed repeated fixed64 field. An empty slice
    /// writes nothing at all, not even the tag.
    pub fn write_packed_fixed64_with_tag(&mut self, tag: u32, v: &[u64]) -> (r: Result<(), Error>)
        requires
            8 * v@.len() <= usize::MAX,
        ensures
            r.is_ok(),
            v@.len() == 0 ==> final(self)@ == old(self)@,
            v@.len() > 0 ==> final(self)@ == old(self)@ + varint_bytes(tag as u64) + varint_bytes(
                (8 * v@.len()) as u64,
            ) + packed_fixed64_payload(v@),
    {
        if v.is_empty() {
            return Ok(());
        }
        match self.write_tag(tag) {
            Ok(()) => self.write_packed_fixed64(v),
            Err(e) => Err(e),
        }
    }

    /// Writes a tag, then a message with its length prefix.
    pub fn write_message_with_tag<M: MessageWrite>(&mut self, tag: u32, m: &M) -> (r: Result<
        (),
        Error,
    >)
        ensures
            r.is_ok() ==> final(self)@ == old(self)@ + varint_bytes(tag as u64) + varint_bytes(
                m.encoding().len() as u64,
            ) + m.encoding(),
            old(self)@.is_prefix_of(final(self)@),
            (old(self)@ + varint_bytes(tag as u64) + varint_bytes(
                m.encoding().len() as u64,
            )).is_prefix_of(final(self)@),
    {
        match self.write_tag(tag) {
            Ok(()) => self.write_message(m),
            Err(e) => Err(e),
        }
    }

    /// Writes a message: its exact size as a varint length prefix, then its
    /// fields, as its `MessageWrite` implementation declares them.
    pub fn write_message<M: MessageWrite>(&mut self, m: &M) -> (r: Result<(), Error>)
        ensures
            r.is_ok() ==> final(self)@ == old(self)@ + varint_bytes(m.encoding().len() as u64)
                + m.encoding(),
            old(self)@.is_prefix_of(final(self)@),
            (old(self)@ + varint_bytes(m.encoding().len() as u64)).is_prefix_of(final(self)@),
    {
        let len = m.get_size();
        match self.write_varint(len as u64) {
            Ok(()) => {},
            Err(e) => {
                return Err(e);
            },
        }
        m.write_message(self)
    }
}

} // verus!
