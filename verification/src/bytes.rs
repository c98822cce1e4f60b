//! Byte codec for the fixed-width primitive column values.
//!
//! Every integer value is stored little-endian; a boolean is stored as a
//! single byte that is `0` or `1`. Decoders read a prefix of the buffer and
//! accept buffers longer than needed.

use vstd::prelude::*;
use vstd::bytes::{
    spec_u32_from_le_bytes, spec_u32_to_le_bytes, spec_u64_from_le_bytes, spec_u64_to_le_bytes,
    u32_from_le_bytes, u32_to_le_bytes, u64_from_le_bytes, u64_to_le_bytes,
    lemma_auto_spec_u32_to_from_le_bytes, lemma_auto_spec_u64_to_from_le_bytes,
};

verus! {

/// Error returned by the decoders when the buffer holds fewer bytes than the
/// decoded type needs: `InsufficientByteBufferSize(needed, got)`.
#[derive(Debug, Clone, Copy, PartialEq, Eq, Structural)]
pub enum SizedTypeConversionError {
    InsufficientByteBufferSize(usize, usize),
}

/// A signed 32-bit value is stored as the little-endian bytes of its two's
/// complement bit pattern.
pub open spec fn spec_i32_to_le_bytes(x: i32) -> Seq<u8> {
    spec_u32_to_le_bytes(x as u32)
}

pub open spec fn spec_i32_from_le_bytes(s: Seq<u8>) -> i32 {
    spec_u32_from_le_bytes(s) as i32
}

pub open spec fn spec_i64_to_le_bytes(x: i64) -> Seq<u8> {
    spec_u64_to_le_bytes(x as u64)
}

pub open spec fn spec_i64_from_le_bytes(s: Seq<u8>) -> i64 {
    spec_u64_from_le_bytes(s) as i64
}

/// A boolean is stored as one byte: `1` for true, `0` for false.
pub open spec fn spec_bool_to_byte(b: bool) -> u8 {
    if b {
        1u8
    } else {
        0u8
    }
}

/// Any non-zero byte reads back as true.
pub open spec fn spec_bool_from_byte(x: u8) -> bool {
    x != 0
}

/// Decoding the encoding of a `u32` gives the value back.
pub proof fn lemma_u32_round_trip(x: u32)
    ensures
        spec_u32_to_le_bytes(x).len() == 4,
        spec_u32_from_le_bytes(spec_u32_to_le_bytes(x)) == x,
{
    lemma_auto_spec_u32_to_from_le_bytes();
    assert(spec_u32_to_le_bytes(x).len() == 4);
}

/// Decoding the encoding of a `u64` gives the value back.
pub proof fn lemma_u64_round_trip(x: u64)
    ensures
        spec_u64_to_le_bytes(x).len() == 8,
        spec_u64_from_le_bytes(spec_u64_to_le_bytes(x)) == x,
{
    lemma_auto_spec_u64_to_from_le_bytes();
    assert(spec_u64_to_le_bytes(x).len() == 8);
}

/// Decoding the encoding of an `i32` gives the value back.
pub proof fn lemma_i32_round_trip(x: i32)
    ensures
        spec_i32_to_le_bytes(x).len() == 4,
        spec_i32_from_le_bytes(spec_i32_to_le_bytes(x)) == x,
{
    lemma_u32_round_trip(x as u32);
    assert(((x as u32) as i32) == x) by (bit_vector);
}

/// Decoding the encoding of an `i64` gives the value back.
pub proof fn lemma_i64_round_trip(x: i64)
    ensures
        spec_i64_to_le_bytes(x).len() == 8,
        spec_i64_from_le_bytes(spec_i64_to_le_bytes(x)) == x,
{
    lemma_u64_round_trip(x as u64);
    assert(((x as u64) as i64) == x) by (bit_vector);
}

/// Decoding the encoding of a `bool` gives the value back.
pub proof fn lemma_bool_round_trip(b: bool)
    ensures
        spec_bool_from_byte(spec_bool_to_byte(b)) == b,
{
}

/// A fixed-width value that can be decoded from a prefix of a byte slice.
pub trait FromSlice: Sized {
    /// How many bytes the decoder consumes.
    spec fn spec_size() -> nat;

    /// The value held by an encoded prefix of that width.
    spec fn from_bytes_spec(b: Seq<u8>) -> Self;

    /// Decode from a prefix of `buf`; fails exactly when the buffer is too
    /// short.
    fn from_slice(buf: &[u8]) -> (r: Result<Self, SizedTypeConversionError>)
        ensures
            buf@.len() >= Self::spec_size() ==> (r matches Ok(v) && v == Self::from_bytes_spec(
                buf@.take(Self::spec_size() as int),
            )),
            buf@.len() < Self::spec_size() ==> r
                == Result::<Self, SizedTypeConversionError>::Err(
                SizedTypeConversionError::InsufficientByteBufferSize(
                    Self::spec_size() as usize,
                    buf@.len() as usize,
                ),
            ),
    ;
}

impl FromSlice for u32 {
    open spec fn spec_size() -> nat {
        4
    }

    open spec fn from_bytes_spec(b: Seq<u8>) -> u32 {
        spec_u32_from_le_bytes(b)
    }

    fn from_slice(buf: &[u8]) -> (r: Result<Self, SizedTypeConversionError>) {
        if buf.len() < 4 {
            Err(SizedTypeConversionError::InsufficientByteBufferSize(4, buf.len()))
        } else {
            let prefix: &[u8] = &buf[0..4];
            assert(prefix@ =~= buf@.take(4));
            Ok(u32_from_le_bytes(prefix))
        }
    }
}

impl FromSlice for i32 {
    open spec fn spec_size() -> nat {
        4
    }

    open spec fn from_bytes_spec(b: Seq<u8>) -> i32 {
        spec_i32_from_le_bytes(b)
    }

    fn from_slice(buf: &[u8]) -> (r: Result<Self, SizedTypeConversionError>) {
        if buf.len() < 4 {
            Err(SizedTypeConversionError::InsufficientByteBufferSize(4, buf.len()))
        } else {
            let prefix: &[u8] = &buf[0..4];
            assert(prefix@ =~= buf@.take(4));
            Ok(u32_from_le_bytes(prefix) as i32)
        }
    }
}

impl FromSlice for u64 {
    open spec fn spec_size() -> nat {
        8
    }

    open spec fn from_bytes_spec(b: Seq<u8>) -> u64 {
        spec_u64_from_le_bytes(b)
    }

    fn from_slice(buf: &[u8]) -> (r: Result<Self, SizedTypeConversionError>) {
        if buf.len() < 8 {
            Err(SizedTypeConversionError::InsufficientByteBufferSize(8, buf.len()))
        } else {
            let prefix: &[u8] = &buf[0..8];
            assert(prefix@ =~= buf@.take(8));
            Ok(u64_from_le_bytes(prefix))
        }
    }
}

impl FromSlice for i64 {
    open spec fn spec_size() -> nat {
        8
    }

    open spec fn from_bytes_spec(b: Seq<u8>) -> i64 {
        spec_i64_from_le_bytes(b)
    }

    fn from_slice(buf: &[u8]) -> (r: Result<Self, SizedTypeConversionError>) {
        if buf.len() < 8 {
            Err(SizedTypeConversionError::InsufficientByteBufferSize(8, buf.len()))
        } else {
            let prefix: &[u8] = &buf[0..8];
            assert(prefix@ =~= buf@.take(8));
            Ok(u64_from_le_bytes(prefix) as i64)
        }
    }
}

/// A byte source that can be read as a fixed-width native value.
pub trait ToNativeType<T: FromSlice> {
    /// The bytes the decoder reads from.
    spec fn native_bytes(&self) -> Seq<u8>;

    /// Decode a `T` from a prefix of these bytes; fails exactly when there
    /// are too few of them.
    fn to_native_type(&self) -> (r: Result<T, SizedTypeConversionError>)
        ensures
            self.native_bytes().len() >= T::spec_size() ==> (r matches Ok(v) && v
                == T::from_bytes_spec(self.native_bytes().take(T::spec_size() as int))),
            self.native_bytes().len() < T::spec_size() ==> r
                == Result::<T, SizedTypeConversionError>::Err(
                SizedTypeConversionError::InsufficientByteBufferSize(
                    T::spec_size() as usize,
                    self.native_bytes().len() as usize,
                ),
            ),
    ;
}

impl<T: FromSlice> ToNativeType<T> for [u8] {
    open spec fn native_bytes(&self) -> Seq<u8> {
        self@
    }

    fn to_native_type(&self) -> (r: Result<T, SizedTypeConversionError>) {
        T::from_slice(self)
    }
}

/// Little-endian bytes of a `u32`.
pub fn encode_u32(x: u32) -> (r: Vec<u8>)
    ensures
        r@ == spec_u32_to_le_bytes(x),
{
    u32_to_le_bytes(x)
}

/// Little-endian bytes of an `i32` (two's complement bit pattern).
pub fn encode_i32(x: i32) -> (r: Vec<u8>)
    ensures
        r@ == spec_i32_to_le_bytes(x),
{
    u32_to_le_bytes(x as u32)
}

/// Little-endian bytes of a `u64`.
pub fn encode_u64(x: u64) -> (r: Vec<u8>)
    ensures
        r@ == spec_u64_to_le_bytes(x),
{
    u64_to_le_bytes(x)
}

/// Little-endian bytes of an `i64` (two's complement bit pattern).
pub fn encode_i64(x: i64) -> (r: Vec<u8>)
    ensures
        r@ == spec_i64_to_le_bytes(x),
{
    u64_to_le_bytes(x as u64)
}

/// The one-byte encoding of a boolean.
pub fn encode_bool(b: bool) -> (r: Vec<u8>)
    ensures
        r@ == seq![spec_bool_to_byte(b)],
{
    let mut v: Vec<u8> = Vec::new();
    v.push(if b {
        1u8
    } else {
        0u8
    });
    assert(v@ =~= seq![spec_bool_to_byte(b)]);
    v
}

} // verus!
