use byteorder::{BigEndian, ByteOrder};
use vstd::prelude::*;
use vstd::slice::slice_subrange;

use crate::error::DecodeError;

verus! {

/// The unsigned big-endian value of the two bytes of `s` that start at `at`.
pub open spec fn be16(s: Seq<u8>, at: int) -> int
    recommends
        0 <= at,
        at + 2 <= s.len(),
{
    s[at] as int * 0x100 + s[at + 1] as int
}

/// The two's-complement big-endian value of the two bytes of `s` at `at`.
pub open spec fn be16_signed(s: Seq<u8>, at: int) -> int
    recommends
        0 <= at,
        at + 2 <= s.len(),
{
    if be16(s, at) >= 0x8000 {
        be16(s, at) - 0x1_0000
    } else {
        be16(s, at)
    }
}

/// The unsigned big-endian value of the four bytes of `s` that start at `at`.
pub open spec fn be32(s: Seq<u8>, at: int) -> int
    recommends
        0 <= at,
        at + 4 <= s.len(),
{
    be16(s, at) * 0x1_0000 + be16(s, at + 2)
}

/// The two bytes that hold `v` in big-endian order.
pub open spec fn be16_bytes(v: u16) -> Seq<u8> {
    seq![(v / 0x100) as u8, (v % 0x100) as u8]
}

/// The four bytes that hold `v` in big-endian order.
pub open spec fn be32_bytes(v: u32) -> Seq<u8> {
    be16_bytes((v / 0x1_0000) as u16) + be16_bytes((v % 0x1_0000) as u16)
}

/// `byteorder::BigEndian::read_u16`: the first two bytes of `buf` taken as an
/// unsigned big-endian number. It panics on a shorter buffer.
#[verifier::external_body]
fn read_u16_be(buf: &[u8]) -> (v: u16)
    requires
        buf@.len() >= 2,
    ensures
        v as int == be16(buf@, 0),
{
    BigEndian::read_u16(buf)
}

/// `byteorder::BigEndian::read_i16`: the first two bytes of `buf` taken as a
/// two's-complement big-endian number. It panics on a shorter buffer.
#[verifier::external_body]
fn read_i16_be(buf: &[u8]) -> (v: i16)
    requires
        buf@.len() >= 2,
    ensures
        v as int == be16_signed(buf@, 0),
{
    BigEndian::read_i16(buf)
}

/// `byteorder::BigEndian::read_u32`: the first four bytes of `buf` taken as an
/// unsigned big-endian number. It panics on a shorter buffer.
#[verifier::external_body]
fn read_u32_be(buf: &[u8]) -> (v: u32)
    requires
        buf@.len() >= 4,
    ensures
        v as int == be32(buf@, 0),
{
    BigEndian::read_u32(buf)
}

/// `byteorder::BigEndian::write_u16` on a two-byte buffer: the high byte of
/// `v` comes first, then the low byte.
#[verifier::external_body]
fn write_u16_be(v: u16) -> (bytes: [u8; 2])
    ensures
        bytes@ == be16_bytes(v),
{
    let mut bytes = [0u8; 2];
    BigEndian::write_u16(&mut bytes, v);
    bytes
}

/// `byteorder::BigEndian::write_u32` on a four-byte buffer: the bytes of `v`
/// from the most significant to the least.
#[verifier::external_body]
fn write_u32_be(v: u32) -> (bytes: [u8; 4])
    ensures
        bytes@ == be32_bytes(v),
{
    let mut bytes = [0u8; 4];
    BigEndian::write_u32(&mut bytes, v);
    bytes
}

/// Reads the byte at `at`, or reports that `buf` ends before it.
pub fn byte_at(buf: &[u8], at: usize) -> (r: Result<u8, DecodeError>)
    ensures
        at < buf@.len() ==> r == Ok::<u8, DecodeError>(buf@[at as int]),
        at >= buf@.len() ==> r == Err::<u8, DecodeError>(DecodeError::Truncated),
{
    if at < buf.len() {
        Ok(buf[at])
    } else {
        Err(DecodeError::Truncated)
    }
}

/// Reads a big-endian `u16` at `at`, or reports that `buf` ends before its
/// second byte.
pub fn u16_at(buf: &[u8], at: usize) -> (r: Result<u16, DecodeError>)
    ensures
        at + 2 <= buf@.len() ==> r == Ok::<u16, DecodeError>(be16(buf@, at as int) as u16),
        at + 2 > buf@.len() ==> r == Err::<u16, DecodeError>(DecodeError::Truncated),
{
    let len = buf.len();
    if len < 2 || at > len - 2 {
        return Err(DecodeError::Truncated);
    }
    let field = slice_subrange(buf, at, at + 2);
    Ok(read_u16_be(field))
}

/// Reads a big-endian `i16` at `at`, or reports that `buf` ends before its
/// second byte.
pub fn i16_at(buf: &[u8], at: usize) -> (r: Result<i16, DecodeError>)
    ensures
        at + 2 <= buf@.len() ==> r == Ok::<i16, DecodeError>(be16_signed(buf@, at as int) as i16),
        at + 2 > buf@.len() ==> r == Err::<i16, DecodeError>(DecodeError::Truncated),
{
    let len = buf.len();
    if len < 2 || at > len - 2 {
        return Err(DecodeError::Truncated);
    }
    let field = slice_subrange(buf, at, at + 2);
    Ok(read_i16_be(field))
}

/// Reads a big-endian `u32` at `at`, or reports that `buf` ends before its
/// fourth byte.
pub fn u32_at(buf: &[u8], at: usize) -> (r: Result<u32, DecodeError>)
    ensures
        at + 4 <= buf@.len() ==> r == Ok::<u32, DecodeError>(be32(buf@, at as int) as u32),
        at + 4 > buf@.len() ==> r == Err::<u32, DecodeError>(DecodeError::Truncated),
{
    let len = buf.len();
    if len < 4 || at > len - 4 {
        return Err(DecodeError::Truncated);
    }
    let field = slice_subrange(buf, at, at + 4);
    Ok(read_u32_be(field))
}

/// Appends `v` to `out` as two big-endian bytes.
pub fn push_u16(out: &mut Vec<u8>, v: u16)
    ensures
        final(out)@ == old(out)@ + be16_bytes(v),
{
    let bytes = write_u16_be(v);
    out.push(bytes[0]);
    out.push(bytes[1]);
}

/// Appends `v` to `out` as four big-endian bytes.
pub fn push_u32(out: &mut Vec<u8>, v: u32)
    ensures
        final(out)@ == old(out)@ + be32_bytes(v),
{
    let bytes = write_u32_be(v);
    out.push(bytes[0]);
    out.push(bytes[1]);
    out.push(bytes[2]);
    out.push(bytes[3]);
}

} // verus!
