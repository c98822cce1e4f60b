//! Byte codec round trips and decoder errors.

use kronkstore::bytes::{
    encode_bool, encode_i32, encode_i64, encode_u32, encode_u64, FromSlice,
    SizedTypeConversionError,
};

#[test]
fn u32_round_trip() {
    for v in [0u32, 1, 1932, u32::MAX] {
        let bytes = encode_u32(v);
        assert_eq!(bytes.len(), 4);
        assert_eq!(u32::from_slice(bytes.as_slice()).unwrap(), v);
    }
}

#[test]
fn i32_round_trip() {
    for v in [0i32, 1932, -1932, i32::MIN, i32::MAX] {
        let bytes = encode_i32(v);
        assert_eq!(bytes.len(), 4);
        assert_eq!(i32::from_slice(bytes.as_slice()).unwrap(), v);
    }
}

#[test]
fn u64_round_trip() {
    for v in [0u64, 7, u64::MAX] {
        let bytes = encode_u64(v);
        assert_eq!(bytes.len(), 8);
        assert_eq!(u64::from_slice(bytes.as_slice()).unwrap(), v);
    }
}

#[test]
fn i64_round_trip() {
    for v in [0i64, -1, i64::MIN, i64::MAX] {
        let bytes = encode_i64(v);
        assert_eq!(bytes.len(), 8);
        assert_eq!(i64::from_slice(bytes.as_slice()).unwrap(), v);
    }
}

#[test]
fn bool_encoding_is_one_byte() {
    assert_eq!(encode_bool(true), vec![1u8]);
    assert_eq!(encode_bool(false), vec![0u8]);
}

#[test]
fn integers_are_little_endian() {
    assert_eq!(encode_u32(1932), vec![0x8c, 0x07, 0x00, 0x00]);
    assert_eq!(encode_u64(2), vec![2, 0, 0, 0, 0, 0, 0, 0]);
}

#[test]
fn decoder_reads_a_prefix_of_longer_buffers() {
    let mut bytes = encode_u32(77);
    bytes.push(0xff);
    bytes.push(0xff);
    assert_eq!(u32::from_slice(bytes.as_slice()).unwrap(), 77);
}

#[test]
fn short_buffer_is_rejected_with_sizes() {
    let r = u64::from_slice(&[1, 2, 3]);
    assert_eq!(
        r.unwrap_err(),
        SizedTypeConversionError::InsufficientByteBufferSize(8, 3)
    );
    let r = i32::from_slice(&[]);
    assert_eq!(
        r.unwrap_err(),
        SizedTypeConversionError::InsufficientByteBufferSize(4, 0)
    );
}
