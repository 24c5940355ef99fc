use quick_protobuf::codec::sizeof_varint;
use quick_protobuf::errors::Error;
use quick_protobuf::message::{MessageRead, MessageWrite};
use quick_protobuf::reader::ByteCursor;
use quick_protobuf::writer::Writer;

#[derive(Debug, Clone, PartialEq, Default)]
struct Rec {
    id: Option<u32>,
    name: Option<String>,
}

impl MessageRead for Rec {
    fn from_reader(reader: &mut ByteCursor, bytes: &[u8]) -> Result<Rec, Error> {
        let mut m = Rec::default();
        while !reader.is_eof() {
            let tag = reader.read_tag(bytes)?;
            match tag {
                0x08 => m.id = Some(reader.read_uint32(bytes)?),
                0x12 => m.name = Some(reader.read_string(bytes)?.to_string()),
                t => reader.skip_field(bytes, t & 7)?,
            }
        }
        Ok(m)
    }
}

impl MessageWrite for Rec {
    // ghost item of the trait; never called at runtime
    fn encoding(&self) -> vstd::seq::Seq<u8> {
        unreachable!()
    }

    fn get_size(&self) -> usize {
        let mut size = 0;
        if let Some(id) = self.id {
            size += 1 + sizeof_varint(id as u64);
        }
        if let Some(ref name) = self.name {
            size += 1 + sizeof_varint(name.len() as u64) + name.len();
        }
        size
    }

    fn write_message(&self, w: &mut Writer) -> Result<(), Error> {
        if let Some(id) = self.id {
            w.write_uint32_with_tag(0x08, id)?;
        }
        if let Some(ref name) = self.name {
            w.write_string_with_tag(0x12, name)?;
        }
        Ok(())
    }
}

fn encode_rec(m: &Rec) -> Vec<u8> {
    let mut w = Writer::new(Vec::new());
    m.write_message(&mut w).unwrap();
    w.into_inner()
}

fn decode_rec(bytes: &[u8]) -> Result<Rec, Error> {
    let mut c = ByteCursor::from_bytes(bytes);
    Rec::from_reader(&mut c, bytes)
}

#[test]
fn varint_roundtrip_values() {
    for v in [0u64, 1, 127, 128, 300, 16383, 16384, u64::MAX] {
        let mut w = Writer::new(Vec::new());
        w.write_varint(v).unwrap();
        let bytes = w.into_inner();
        let mut c = ByteCursor::from_bytes(&bytes);
        assert_eq!(c.read_varint(&bytes).unwrap(), v);
        assert!(c.is_eof());
    }
}

#[test]
fn scalar_roundtrips_varint_kinds() {
    for v in [0i32, 1, -1, i32::MAX, i32::MIN] {
        let mut w = Writer::new(Vec::new());
        w.write_int32(v).unwrap();
        w.write_sint32(v).unwrap();
        w.write_enum(v).unwrap();
        let bytes = w.into_inner();
        let mut c = ByteCursor::from_bytes(&bytes);
        assert_eq!(c.read_int32(&bytes).unwrap(), v);
        assert_eq!(c.read_sint32(&bytes).unwrap(), v);
        assert_eq!(c.read_enum(&bytes).unwrap(), v);
        assert!(c.is_eof());
    }
    for v in [0i64, -1, i64::MAX, i64::MIN] {
        let mut w = Writer::new(Vec::new());
        w.write_int64(v).unwrap();
        w.write_sint64(v).unwrap();
        let bytes = w.into_inner();
        let mut c = ByteCursor::from_bytes(&bytes);
        assert_eq!(c.read_int64(&bytes).unwrap(), v);
        assert_eq!(c.read_sint64(&bytes).unwrap(), v);
    }
    for v in [0u32, 1, u32::MAX] {
        let mut w = Writer::new(Vec::new());
        w.write_uint32(v).unwrap();
        let bytes = w.into_inner();
        let mut c = ByteCursor::from_bytes(&bytes);
        assert_eq!(c.read_uint32(&bytes).unwrap(), v);
    }
    for v in [true, false] {
        let mut w = Writer::new(Vec::new());
        w.write_bool(v).unwrap();
        let bytes = w.into_inner();
        let mut c = ByteCursor::from_bytes(&bytes);
        assert_eq!(c.read_bool(&bytes).unwrap(), v);
    }
}

#[test]
fn scalar_roundtrips_fixed_kinds() {
    let mut w = Writer::new(Vec::new());
    w.write_fixed32(0xDEADBEEF).unwrap();
    w.write_fixed64(0x0123456789ABCDEF).unwrap();
    w.write_sfixed32(-7).unwrap();
    w.write_sfixed64(i64::MIN).unwrap();
    let bytes = w.into_inner();
    let mut c = ByteCursor::from_bytes(&bytes);
    assert_eq!(c.read_fixed32(&bytes).unwrap(), 0xDEADBEEF);
    assert_eq!(c.read_fixed64(&bytes).unwrap(), 0x0123456789ABCDEF);
    assert_eq!(c.read_sfixed32(&bytes).unwrap(), -7);
    assert_eq!(c.read_sfixed64(&bytes).unwrap(), i64::MIN);
    assert!(c.is_eof());
}

#[test]
fn bytes_and_string_roundtrip() {
    let mut w = Writer::new(Vec::new());
    w.write_bytes(&[9, 8, 7]).unwrap();
    w.write_string("héllo wörld").unwrap();
    let bytes = w.into_inner();
    let mut c = ByteCursor::from_bytes(&bytes);
    assert_eq!(c.read_bytes(&bytes).unwrap(), &[9, 8, 7]);
    assert_eq!(c.read_string(&bytes).unwrap(), "héllo wörld");
    assert!(c.is_eof());
}

#[test]
fn truncated_varint_errors() {
    let bytes = [0x80u8];
    let mut c = ByteCursor::from_bytes(&bytes);
    assert_eq!(c.read_varint(&bytes), Err(Error::Truncated));
}

#[test]
fn overlong_varint_is_malformed() {
    let bytes = [0x80u8; 11];
    let mut c = ByteCursor::from_bytes(&bytes);
    assert_eq!(c.read_varint(&bytes), Err(Error::Malformed));
}

#[test]
fn truncated_fixed_reads_error() {
    let bytes = [0x01u8, 0x02, 0x03];
    let mut c = ByteCursor::from_bytes(&bytes);
    assert_eq!(c.read_fixed32(&bytes), Err(Error::Truncated));
    let mut c = ByteCursor::from_bytes(&bytes);
    assert_eq!(c.read_fixed64(&bytes), Err(Error::Truncated));
}

#[test]
fn bytes_length_overrun_errors() {
    let bytes = [0x05u8, 0x01, 0x02];
    let mut c = ByteCursor::from_bytes(&bytes);
    assert_eq!(c.read_bytes(&bytes), Err(Error::Truncated));
}

#[test]
fn invalid_utf8_string_is_malformed() {
    let bytes = [0x02u8, 0xFF, 0xFE];
    let mut c = ByteCursor::from_bytes(&bytes);
    assert_eq!(c.read_string(&bytes), Err(Error::Malformed));
}

#[test]
fn group_wire_types_are_malformed() {
    let bytes = [0x00u8];
    let mut c = ByteCursor::from_bytes(&bytes);
    assert_eq!(c.skip_field(&bytes, 3), Err(Error::Malformed));
    assert_eq!(c.skip_field(&bytes, 4), Err(Error::Malformed));
    assert_eq!(c.skip_field(&bytes, 7), Err(Error::Malformed));
}

#[test]
fn skip_field_consumes_exactly_each_wire_type() {
    let mut w = Writer::new(Vec::new());
    w.write_varint(300).unwrap();
    w.write_fixed64(1).unwrap();
    w.write_bytes(&[1, 2, 3]).unwrap();
    w.write_fixed32(2).unwrap();
    w.write_uint32(77).unwrap();
    let bytes = w.into_inner();
    let mut c = ByteCursor::from_bytes(&bytes);
    c.skip_field(&bytes, 0).unwrap();
    c.skip_field(&bytes, 1).unwrap();
    c.skip_field(&bytes, 2).unwrap();
    c.skip_field(&bytes, 5).unwrap();
    assert_eq!(c.read_uint32(&bytes).unwrap(), 77);
    assert!(c.is_eof());
}

#[test]
fn unknown_field_is_skipped_without_effect() {
    let rec = Rec { id: Some(42), name: Some(String::from("abc")) };
    let plain = encode_rec(&rec);

    let mut w = Writer::new(Vec::new());
    w.write_uint32_with_tag(0x08, 42).unwrap();
    // an extra field numbered 7, varint, that Rec does not recognize
    w.write_uint64_with_tag(0x38, 999).unwrap();
    // an extra field numbered 9, fixed32
    w.write_fixed32_with_tag(0x4D, 0xABCD).unwrap();
    w.write_string_with_tag(0x12, "abc").unwrap();
    let with_extra = w.into_inner();

    let a = decode_rec(&plain).unwrap();
    let b = decode_rec(&with_extra).unwrap();
    assert_eq!(a, b);
    assert_eq!(b, rec);
}

#[test]
fn decode_is_deterministic() {
    let rec = Rec { id: Some(7), name: Some(String::from("twice")) };
    let bytes = encode_rec(&rec);
    let first = decode_rec(&bytes).unwrap();
    let second = decode_rec(&bytes).unwrap();
    assert_eq!(first, second);
}

#[test]
fn message_roundtrip_with_length_prefix() {
    let rec = Rec { id: Some(123456), name: Some(String::from("nested")) };
    let mut w = Writer::new(Vec::new());
    w.write_message(&rec).unwrap();
    let bytes = w.into_inner();
    assert_eq!(bytes[0] as usize, rec.get_size());
    let mut c = ByteCursor::from_bytes(&bytes);
    let back: Rec = c.read_message(&bytes).unwrap();
    assert!(c.is_eof());
    assert_eq!(back, rec);
}

#[test]
fn truncating_a_message_at_any_offset_is_truncated() {
    let rec = Rec { id: Some(300), name: Some(String::from("payload")) };
    let mut w = Writer::new(Vec::new());
    w.write_message(&rec).unwrap();
    let bytes = w.into_inner();
    for cut in 0..bytes.len() {
        let shorter = &bytes[..cut];
        let mut c = ByteCursor::from_bytes(shorter);
        let r: Result<Rec, Error> = c.read_message(shorter);
        assert_eq!(r, Err(Error::Truncated));
    }
}

#[test]
fn packed_varints_roundtrip() {
    let values: Vec<u64> = vec![1, 300, u64::MAX, 0];
    let mut w = Writer::new(Vec::new());
    w.write_packed_repeated_field(&values).unwrap();
    let bytes = w.into_inner();
    let mut c = ByteCursor::from_bytes(&bytes);
    assert_eq!(c.read_packed_varints(&bytes).unwrap(), values);
    assert!(c.is_eof());
}

#[test]
fn packed_fixed32_roundtrip() {
    let values: Vec<u32> = vec![0, 1, 0xDEADBEEF, u32::MAX];
    let mut w = Writer::new(Vec::new());
    w.write_packed_fixed32(&values).unwrap();
    let bytes = w.into_inner();
    let mut c = ByteCursor::from_bytes(&bytes);
    assert_eq!(c.read_packed_fixed32(&bytes).unwrap(), values);
    assert!(c.is_eof());
}

#[test]
fn packed_fixed64_roundtrip() {
    let values: Vec<u64> = vec![0, 7, u64::MAX];
    let mut w = Writer::new(Vec::new());
    w.write_packed_fixed64(&values).unwrap();
    let bytes = w.into_inner();
    let mut c = ByteCursor::from_bytes(&bytes);
    assert_eq!(c.read_packed_fixed64(&bytes).unwrap(), values);
    assert!(c.is_eof());
}

#[test]
fn packed_fixed32_ragged_payload_is_truncated() {
    let bytes = [0x03u8, 0x01, 0x02, 0x03];
    let mut c = ByteCursor::from_bytes(&bytes);
    assert_eq!(c.read_packed_fixed32(&bytes), Err(Error::Truncated));
}

#[test]
fn packed_varints_truncated_element_errors() {
    // length prefix says two bytes, second element is an unfinished varint
    let bytes = [0x02u8, 0x01, 0x80];
    let mut c = ByteCursor::from_bytes(&bytes);
    assert_eq!(c.read_packed_varints(&bytes), Err(Error::Truncated));
}

#[test]
fn get_size_matches_written_bytes() {
    for rec in [
        Rec { id: None, name: None },
        Rec { id: Some(0), name: None },
        Rec { id: Some(u32::MAX), name: Some(String::from("x")) },
    ] {
        assert_eq!(encode_rec(&rec).len(), rec.get_size());
    }
}
