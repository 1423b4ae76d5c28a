//! Primitive codec: big-endian integer reads and writes over a byte buffer.
//! Every multi-byte integer in the protocol is network byte order.

use vstd::prelude::*;

use crate::errors::DnsError;

verus! {

/// The value of two bytes read as one big-endian 16-bit integer.
pub open spec fn be16(hi: u8, lo: u8) -> u16 {
    (hi * 256 + lo) as u16
}

/// The value of four bytes read as one big-endian 32-bit integer.
pub open spec fn be32(b0: u8, b1: u8, b2: u8, b3: u8) -> u32 {
    (b0 * 0x1000000 + b1 * 0x10000 + b2 * 0x100 + b3) as u32
}

/// The two big-endian bytes of a 16-bit integer.
pub open spec fn u16_be_bytes(v: u16) -> Seq<u8> {
    seq![(v / 256) as u8, (v % 256) as u8]
}

/// The four big-endian bytes of a 32-bit integer.
pub open spec fn u32_be_bytes(v: u32) -> Seq<u8> {
    seq![
        (v / 0x1000000) as u8,
        ((v / 0x10000) % 256) as u8,
        ((v / 0x100) % 256) as u8,
        (v % 256) as u8,
    ]
}

/// What reading one byte at `pos` yields: the byte and the new cursor.
pub open spec fn spec_read_u8(s: Seq<u8>, pos: int) -> Result<(u8, int), DnsError> {
    if 0 <= pos && pos + 1 <= s.len() {
        Ok((s[pos], pos + 1))
    } else {
        Err(DnsError::TruncatedInput)
    }
}

/// What reading a big-endian 16-bit integer at `pos` yields.
pub open spec fn spec_read_u16(s: Seq<u8>, pos: int) -> Result<(u16, int), DnsError> {
    if 0 <= pos && pos + 2 <= s.len() {
        Ok((be16(s[pos], s[pos + 1]), pos + 2))
    } else {
        Err(DnsError::TruncatedInput)
    }
}

/// What reading a big-endian 32-bit integer at `pos` yields.
pub open spec fn spec_read_u32(s: Seq<u8>, pos: int) -> Result<(u32, int), DnsError> {
    if 0 <= pos && pos + 4 <= s.len() {
        Ok((be32(s[pos], s[pos + 1], s[pos + 2], s[pos + 3]), pos + 4))
    } else {
        Err(DnsError::TruncatedInput)
    }
}

/// Append a 16-bit integer to the buffer, most significant byte first.
pub fn write_u16(buf: &mut Vec<u8>, v: u16)
    ensures
        final(buf)@ == old(buf)@ + u16_be_bytes(v),
{
    buf.push((v / 256) as u8);
    buf.push((v % 256) as u8);
    assert(buf@ =~= old(buf)@ + u16_be_bytes(v));
}

/// Append a 32-bit integer to the buffer, most significant byte first.
pub fn write_u32(buf: &mut Vec<u8>, v: u32)
    ensures
        final(buf)@ == old(buf)@ + u32_be_bytes(v),
{
    buf.push((v / 0x1000000) as u8);
    buf.push(((v / 0x10000) % 256) as u8);
    buf.push(((v / 0x100) % 256) as u8);
    buf.push((v % 256) as u8);
    assert(buf@ =~= old(buf)@ + u32_be_bytes(v));
}

/// Consume one byte at the cursor, or fail once the buffer is exhausted.
pub fn read_u8(buf: &Vec<u8>, pos: usize) -> (r: Result<(u8, usize), DnsError>)
    ensures
        match spec_read_u8(buf@, pos as int) {
            Ok((v, end)) => r matches Ok((v2, p2)) && v2 == v && p2 == end,
            Err(e) => r == Err::<(u8, usize), DnsError>(e),
        },
{
    if pos < buf.len() {
        Ok((buf[pos], pos + 1))
    } else {
        Err(DnsError::TruncatedInput)
    }
}

/// Consume two bytes at the cursor as a big-endian 16-bit integer.
pub fn read_u16(buf: &Vec<u8>, pos: usize) -> (r: Result<(u16, usize), DnsError>)
    ensures
        match spec_read_u16(buf@, pos as int) {
            Ok((v, end)) => r matches Ok((v2, p2)) && v2 == v && p2 == end,
            Err(e) => r == Err::<(u16, usize), DnsError>(e),
        },
{
    if buf.len() >= 2 && pos <= buf.len() - 2 {
        let hi = buf[pos];
        let lo = buf[pos + 1];
        Ok((hi as u16 * 256 + lo as u16, pos + 2))
    } else {
        Err(DnsError::TruncatedInput)
    }
}

/// Consume four bytes at the cursor as a big-endian 32-bit integer.
pub fn read_u32(buf: &Vec<u8>, pos: usize) -> (r: Result<(u32, usize), DnsError>)
    ensures
        match spec_read_u32(buf@, pos as int) {
            Ok((v, end)) => r matches Ok((v2, p2)) && v2 == v && p2 == end,
            Err(e) => r == Err::<(u32, usize), DnsError>(e),
        },
{
    if buf.len() >= 4 && pos <= buf.len() - 4 {
        let b0 = buf[pos];
        let b1 = buf[pos + 1];
        let b2 = buf[pos + 2];
        let b3 = buf[pos + 3];
        Ok((b0 as u32 * 0x1000000 + b1 as u32 * 0x10000 + b2 as u32 * 0x100 + b3 as u32, pos + 4))
    } else {
        Err(DnsError::TruncatedInput)
    }
}

} // verus!
