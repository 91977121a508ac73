//! Little-endian integers: what a run of bytes stands for, and the decoders.

use vstd::prelude::*;

verus! {

/// The 16-bit integer that the two bytes of `s` from `at` on stand for.
pub open spec fn le_u16(s: Seq<u8>, at: int) -> u16 {
    (s[at] as int + 0x100 * (s[at + 1] as int)) as u16
}

/// The 32-bit integer that the four bytes of `s` from `at` on stand for.
pub open spec fn le_u32(s: Seq<u8>, at: int) -> u32 {
    (s[at] as int + 0x100 * (s[at + 1] as int) + 0x1_0000 * (s[at + 2] as int) + 0x100_0000 * (s[at
        + 3] as int)) as u32
}

/// The 64-bit integer that the eight bytes of `s` from `at` on stand for.
pub open spec fn le_u64(s: Seq<u8>, at: int) -> u64 {
    (le_u32(s, at) as int + 0x1_0000_0000 * (le_u32(s, at + 4) as int)) as u64
}

/// The 128-bit integer that the sixteen bytes of `s` from `at` on stand
/// for.
pub open spec fn le_u128(s: Seq<u8>, at: int) -> u128 {
    (le_u64(s, at) as int + 0x1_0000_0000_0000_0000 * (le_u64(s, at + 8) as int)) as u128
}

/// The signed 32-bit integer that the four bytes of `s` from `at` on stand
/// for, in two's complement.
pub open spec fn le_i32(s: Seq<u8>, at: int) -> i32 {
    if le_u32(s, at) < 0x8000_0000 {
        le_u32(s, at) as i32
    } else {
        (le_u32(s, at) as int - 0x1_0000_0000) as i32
    }
}

/// Calls `byteorder::LittleEndian::read_u16`, which takes the first two bytes
/// of `buf` as a little-endian integer and panics on a shorter slice.
#[verifier::external_body]
pub(crate) fn decode_u16(buf: &[u8]) -> (r: u16)
    requires
        buf@.len() >= 2,
    ensures
        r == le_u16(buf@, 0),
{
    <byteorder::LittleEndian as byteorder::ByteOrder>::read_u16(buf)
}

/// Calls `byteorder::LittleEndian::read_u32`, which takes the first four bytes
/// of `buf` as a little-endian integer and panics on a shorter slice.
#[verifier::external_body]
pub(crate) fn decode_u32(buf: &[u8]) -> (r: u32)
    requires
        buf@.len() >= 4,
    ensures
        r == le_u32(buf@, 0),
{
    <byteorder::LittleEndian as byteorder::ByteOrder>::read_u32(buf)
}

/// Calls `byteorder::LittleEndian::read_u64`, which takes the first eight
/// bytes of `buf` as a little-endian integer and panics on a shorter slice.
#[verifier::external_body]
pub(crate) fn decode_u64(buf: &[u8]) -> (r: u64)
    requires
        buf@.len() >= 8,
    ensures
        r == le_u64(buf@, 0),
{
    <byteorder::LittleEndian as byteorder::ByteOrder>::read_u64(buf)
}

/// Calls `byteorder::LittleEndian::read_u128`, which takes the first sixteen
/// bytes of `buf` as a little-endian integer and panics on a shorter slice.
#[verifier::external_body]
pub(crate) fn decode_u128(buf: &[u8]) -> (r: u128)
    requires
        buf@.len() >= 16,
    ensures
        r == le_u128(buf@, 0),
{
    <byteorder::LittleEndian as byteorder::ByteOrder>::read_u128(buf)
}

/// Calls `byteorder::LittleEndian::read_i32`, which takes the first four bytes
/// of `buf` as a little-endian integer in two's complement and panics on a
/// shorter slice.
#[verifier::external_body]
pub(crate) fn decode_i32(buf: &[u8]) -> (r: i32)
    requires
        buf@.len() >= 4,
    ensures
        r == le_i32(buf@, 0),
{
    <byteorder::LittleEndian as byteorder::ByteOrder>::read_i32(buf)
}

} // verus!
