//! The fixed-width fields of a frame, its checksum and its text.

use byteorder::{BigEndian, ByteOrder};
use vstd::prelude::*;
use vstd::utf8::{decode_utf8, valid_utf8};

verus! {

/// The 32-bit value that four bytes hold, most significant byte first.
pub open spec fn be32(b: Seq<u8>) -> nat
    recommends
        b.len() >= 4,
{
    (b[0] * 0x100_0000 + b[1] * 0x1_0000 + b[2] * 0x100 + b[3]) as nat
}

/// The four bytes that hold `n`, most significant byte first.
pub open spec fn be32_bytes(n: u32) -> Seq<u8> {
    seq![
        (n / 0x100_0000) as u8,
        ((n / 0x1_0000) % 0x100) as u8,
        ((n / 0x100) % 0x100) as u8,
        (n % 0x100) as u8,
    ]
}

/// The CRC-32 of `bytes` with the IEEE 802.3 polynomial, as
/// `crc32::checksum_ieee` of the crc crate computes it.
pub uninterp spec fn crc32_ieee(bytes: Seq<u8>) -> u32;

/// Four bytes written for a value hold that value, whatever bytes follow.
pub proof fn lemma_be32_round_trip(n: u32, rest: Seq<u8>)
    ensures
        be32_bytes(n).len() == 4,
        be32(be32_bytes(n) + rest) == n,
{
    let s = be32_bytes(n) + rest;
    assert(s[0] == be32_bytes(n)[0]);
    assert(s[1] == be32_bytes(n)[1]);
    assert(s[2] == be32_bytes(n)[2]);
    assert(s[3] == be32_bytes(n)[3]);
}

/// Reads with `BigEndian::read_u32` of byteorder, which interprets the first
/// four bytes of `buf` as an unsigned integer, most significant byte first,
/// and panics on a shorter `buf`.
#[verifier::external_body]
fn read_u32_be(buf: &[u8]) -> (r: u32)
    requires
        buf@.len() >= 4,
    ensures
        r as nat == be32(buf@),
{
    BigEndian::read_u32(buf)
}

/// Writes with `BigEndian::write_u32` of byteorder, which stores `n` in the
/// first four bytes of the buffer, most significant byte first.
#[verifier::external_body]
fn write_u32_be(n: u32) -> (r: Vec<u8>)
    ensures
        r@ == be32_bytes(n),
{
    let mut buf = vec![0u8; 4];
    BigEndian::write_u32(&mut buf, n);
    buf
}

/// Computes with `crc32::checksum_ieee` of the crc crate.
#[verifier::external_body]
pub(crate) fn checksum_ieee(bytes: &[u8]) -> (r: u32)
    ensures
        r == crc32_ieee(bytes@),
{
    crc::crc32::checksum_ieee(bytes)
}

/// Converts with `String::from_utf8` of std, which gives the text that
/// `bytes` spell in UTF-8 and fails on bytes that are not UTF-8.
#[verifier::external_body]
pub(crate) fn string_from_utf8(bytes: Vec<u8>) -> (r: Option<String>)
    ensures
        match r {
            Some(s) => valid_utf8(bytes@) && s@ == decode_utf8(bytes@),
            None => !valid_utf8(bytes@),
        },
{
    match String::from_utf8(bytes) {
        Ok(text) => Some(text),
        Err(_) => None,
    }
}

/// The big-endian 32-bit value of the four bytes at `pos`, if the input has
/// them.
pub fn read_be32(input: &[u8], pos: usize) -> (r: Option<u32>)
    ensures
        match r {
            Some(v) => pos + 4 <= input@.len() && v as nat == be32(input@.skip(pos as int)),
            None => pos + 4 > input@.len(),
        },
{
    if pos > input.len() || input.len() - pos < 4 {
        return None;
    }
    let tail = vstd::slice::slice_subrange(input, pos, input.len());
    assert(tail@ =~= input@.skip(pos as int));
    Some(read_u32_be(tail))
}

/// Appends `n` as four bytes, most significant byte first.
pub fn write_be32(out: &mut Vec<u8>, n: u32)
    ensures
        final(out)@ == old(out)@ + be32_bytes(n),
{
    let mut bytes = write_u32_be(n);
    out.append(&mut bytes);
}

} // verus!
