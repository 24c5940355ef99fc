use quick_protobuf::codec::{
    decode_zigzag32, decode_zigzag64, encode_zigzag32, encode_zigzag64, sizeof_varint,
};
use quick_protobuf::writer::Writer;

fn varint_of(v: u64) -> Vec<u8> {
    let mut w = Writer::new(Vec::new());
    w.write_varint(v).unwrap();
    w.into_inner()
}

#[test]
fn varint_zero_is_one_zero_byte() {
    assert_eq!(varint_of(0), vec![0x00]);
}

#[test]
fn varint_127_is_one_byte() {
    assert_eq!(varint_of(127), vec![0x7F]);
}

#[test]
fn varint_128_is_two_bytes() {
    assert_eq!(varint_of(128), vec![0x80, 0x01]);
}

#[test]
fn varint_max_u64_is_ten_bytes() {
    let enc = varint_of(u64::MAX);
    assert_eq!(enc.len(), 10);
    assert_eq!(
        enc,
        vec![0xFF, 0xFF, 0xFF, 0xFF, 0xFF, 0xFF, 0xFF, 0xFF, 0xFF, 0x01]
    );
}

#[test]
fn varint_300_encoding() {
    assert_eq!(varint_of(300), vec![0xAC, 0x02]);
}

#[test]
fn sizeof_varint_matches_encoding() {
    for v in [0u64, 1, 127, 128, 16383, 16384, 300, u64::MAX] {
        assert_eq!(sizeof_varint(v), varint_of(v).len());
    }
}

#[test]
fn zigzag_small_values() {
    assert_eq!(encode_zigzag64(0), 0);
    assert_eq!(encode_zigzag64(-1), 1);
    assert_eq!(encode_zigzag64(1), 2);
    assert_eq!(encode_zigzag64(-2), 3);
    assert_eq!(encode_zigzag32(0), 0);
    assert_eq!(encode_zigzag32(-1), 1);
    assert_eq!(encode_zigzag32(1), 2);
}

#[test]
fn zigzag_roundtrip_32() {
    for v in [0i32, 1, -1, 2, -2, 150, -150, i32::MAX, i32::MIN] {
        assert_eq!(decode_zigzag32(encode_zigzag32(v)), v);
    }
}

#[test]
fn zigzag_roundtrip_64() {
    for v in [0i64, 1, -1, 2, -2, 150, -150, i64::MAX, i64::MIN] {
        assert_eq!(decode_zigzag64(encode_zigzag64(v)), v);
    }
}

#[test]
fn zigzag_extremes() {
    assert_eq!(encode_zigzag32(i32::MAX), u32::MAX - 1);
    assert_eq!(encode_zigzag32(i32::MIN), u32::MAX);
    assert_eq!(encode_zigzag64(i64::MAX), u64::MAX - 1);
    assert_eq!(encode_zigzag64(i64::MIN), u64::MAX);
}
