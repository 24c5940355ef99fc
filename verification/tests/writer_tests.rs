use quick_protobuf::writer::Writer;

fn fresh() -> Writer {
    Writer::new(Vec::new())
}

#[test]
fn optional_int32_field_one_set_to_300() {
    let mut w = fresh();
    w.write_int32_with_tag(0x08, 300).unwrap();
    assert_eq!(w.into_inner(), vec![0x08, 0xAC, 0x02]);
}

#[test]
fn packed_repeated_int32_field_two() {
    let mut w = fresh();
    let values: Vec<u64> = vec![1i32, 2, 3].into_iter().map(|v| v as u64).collect();
    w.write_packed_repeated_field_with_tag(0x12, &values).unwrap();
    assert_eq!(w.into_inner(), vec![0x12, 0x03, 0x01, 0x02, 0x03]);
}

#[test]
fn empty_packed_repeated_field_writes_nothing() {
    let mut w = fresh();
    let values: Vec<u64> = Vec::new();
    w.write_packed_repeated_field_with_tag(0x12, &values).unwrap();
    w.write_packed_repeated_field(&values).unwrap();
    let empty32: Vec<u32> = Vec::new();
    w.write_packed_fixed32_with_tag(0x15, &empty32).unwrap();
    w.write_packed_fixed32(&empty32).unwrap();
    w.write_packed_fixed64_with_tag(0x11, &values).unwrap();
    w.write_packed_fixed64(&values).unwrap();
    assert_eq!(w.into_inner(), Vec::<u8>::new());
}

#[test]
fn packed_fixed32_with_tag_bytes() {
    let mut w = fresh();
    w.write_packed_fixed32_with_tag(0x15, &[1u32, 2]).unwrap();
    assert_eq!(
        w.into_inner(),
        vec![0x15, 0x08, 0x01, 0x00, 0x00, 0x00, 0x02, 0x00, 0x00, 0x00]
    );
}

#[test]
fn packed_fixed64_with_tag_bytes() {
    let mut w = fresh();
    w.write_packed_fixed64_with_tag(0x11, &[3u64]).unwrap();
    assert_eq!(
        w.into_inner(),
        vec![0x11, 0x08, 0x03, 0x00, 0x00, 0x00, 0x00, 0x00, 0x00, 0x00]
    );
}

#[test]
fn fixed32_little_endian() {
    let mut w = fresh();
    w.write_fixed32(0x12345678).unwrap();
    assert_eq!(w.into_inner(), vec![0x78, 0x56, 0x34, 0x12]);
}

#[test]
fn fixed64_little_endian() {
    let mut w = fresh();
    w.write_fixed64(0x0102030405060708).unwrap();
    assert_eq!(
        w.into_inner(),
        vec![0x08, 0x07, 0x06, 0x05, 0x04, 0x03, 0x02, 0x01]
    );
}

#[test]
fn sfixed32_negative_one_is_all_ones() {
    let mut w = fresh();
    w.write_sfixed32(-1).unwrap();
    assert_eq!(w.into_inner(), vec![0xFF, 0xFF, 0xFF, 0xFF]);
}

#[test]
fn sfixed64_negative_two() {
    let mut w = fresh();
    w.write_sfixed64(-2).unwrap();
    assert_eq!(
        w.into_inner(),
        vec![0xFE, 0xFF, 0xFF, 0xFF, 0xFF, 0xFF, 0xFF, 0xFF]
    );
}

#[test]
fn int32_negative_sign_extends_to_ten_bytes() {
    let mut w = fresh();
    w.write_int32(-1).unwrap();
    assert_eq!(
        w.into_inner(),
        vec![0xFF, 0xFF, 0xFF, 0xFF, 0xFF, 0xFF, 0xFF, 0xFF, 0xFF, 0x01]
    );
}

#[test]
fn sint32_small_negative_is_compact() {
    let mut w = fresh();
    w.write_sint32(-1).unwrap();
    assert_eq!(w.into_inner(), vec![0x01]);
}

#[test]
fn sint64_with_tag_bytes() {
    let mut w = fresh();
    w.write_sint64_with_tag(0x18, -2).unwrap();
    assert_eq!(w.into_inner(), vec![0x18, 0x03]);
}

#[test]
fn bool_and_enum_writers() {
    let mut w = fresh();
    w.write_bool(true).unwrap();
    w.write_bool(false).unwrap();
    w.write_enum(5).unwrap();
    assert_eq!(w.into_inner(), vec![0x01, 0x00, 0x05]);
}

#[test]
fn bytes_writer_prefixes_length() {
    let mut w = fresh();
    w.write_bytes(&[0xAA, 0xBB]).unwrap();
    assert_eq!(w.into_inner(), vec![0x02, 0xAA, 0xBB]);
}

#[test]
fn string_writer_utf8_bytes() {
    let mut w = fresh();
    w.write_string("hi").unwrap();
    assert_eq!(w.into_inner(), vec![0x02, 0x68, 0x69]);
}

#[test]
fn bytes_with_tag() {
    let mut w = fresh();
    w.write_bytes_with_tag(0x1A, &[0x01]).unwrap();
    assert_eq!(w.into_inner(), vec![0x1A, 0x01, 0x01]);
}

#[test]
fn tag_then_uint64() {
    let mut w = fresh();
    w.write_uint64_with_tag(0x20, 650).unwrap();
    assert_eq!(w.into_inner(), vec![0x20, 0x8A, 0x05]);
}

#[test]
fn writers_append_in_call_order() {
    let mut w = fresh();
    w.write_uint32(1).unwrap();
    w.write_uint32(2).unwrap();
    w.write_fixed32(3).unwrap();
    assert_eq!(w.into_inner(), vec![0x01, 0x02, 0x03, 0x00, 0x00, 0x00]);
}
