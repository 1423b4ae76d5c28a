//! Header codec: the fixed 12-byte structure that opens every message,
//! with its bit-packed flag word and the four section counts.

use vstd::prelude::*;

use crate::errors::DnsError;
use crate::wire::be16;
use crate::wire::read_u16;
use crate::wire::spec_read_u16;
use crate::wire::u16_be_bytes;
use crate::wire::write_u16;

verus! {

/// The fixed 12-byte message header. The flag word packs, from the top
/// bit down: QR, a 4-bit opcode, AA, TC, RD, RA, 3 reserved bits, and a
/// 4-bit response code.
#[derive(Clone, Copy, Debug, PartialEq, Eq, Structural)]
pub struct Header {
    pub id: u16,
    pub flags: u16,
    pub qdcount: u16,
    pub ancount: u16,
    pub nscount: u16,
    pub arcount: u16,
}

/// The 12 bytes a header serializes to, in wire order.
pub open spec fn spec_header_bytes(h: Header) -> Seq<u8> {
    u16_be_bytes(h.id) + u16_be_bytes(h.flags) + u16_be_bytes(h.qdcount) + u16_be_bytes(h.ancount)
        + u16_be_bytes(h.nscount) + u16_be_bytes(h.arcount)
}

/// What decoding a header at `pos` yields: the header and the position
/// just past it, or a truncation error.
pub open spec fn spec_parse_header(s: Seq<u8>, pos: int) -> Result<(Header, int), DnsError> {
    if pos >= 0 && pos + 12 <= s.len() {
        Ok(
            (
                Header {
                    id: be16(s[pos], s[pos + 1]),
                    flags: be16(s[pos + 2], s[pos + 3]),
                    qdcount: be16(s[pos + 4], s[pos + 5]),
                    ancount: be16(s[pos + 6], s[pos + 7]),
                    nscount: be16(s[pos + 8], s[pos + 9]),
                    arcount: be16(s[pos + 10], s[pos + 11]),
                },
                pos + 12,
            ),
        )
    } else {
        Err(DnsError::TruncatedInput)
    }
}

/// Relies on rand::random: a fresh 16-bit value from the thread-local
/// generator. Nothing is promised of it — the id only has to make an
/// unrelated in-flight response unlikely to match, not be unpredictable.
#[verifier::external_body]
fn random_u16() -> u16 {
    rand::random()
}

impl Header {
    /// The header of a fresh query: a random id, only the
    /// recursion-desired bit set, and exactly one question announced.
    pub fn create_query_header() -> (h: Header)
        ensures
            h.flags == 256,
            h.qdcount == 1,
            h.ancount == 0,
            h.nscount == 0,
            h.arcount == 0,
    {
        Header { id: random_u16(), flags: 256, qdcount: 1, ancount: 0, nscount: 0, arcount: 0 }
    }

    /// Append the 12 header bytes to the buffer.
    pub fn to_bytes(&self, buf: &mut Vec<u8>)
        ensures
            final(buf)@ == old(buf)@ + spec_header_bytes(*self),
    {
        write_u16(buf, self.id);
        write_u16(buf, self.flags);
        write_u16(buf, self.qdcount);
        write_u16(buf, self.ancount);
        write_u16(buf, self.nscount);
        write_u16(buf, self.arcount);
        proof {
            assert(buf@ =~= old(buf)@ + spec_header_bytes(*self));
        }
    }

    /// Decode the 12 header bytes at `pos`.
    pub fn from_bytes(buf: &Vec<u8>, pos: usize) -> (r: Result<(Header, usize), DnsError>)
        ensures
            match spec_parse_header(buf@, pos as int) {
                Ok((h, end)) => r matches Ok((h2, p2)) && h2 == h && p2 == end,
                Err(e) => r == Err::<(Header, usize), DnsError>(e),
            },
    {
        let (id, p) = match read_u16(buf, pos) {
            Ok(v) => v,
            Err(e) => {
                return Err(e);
            },
        };
        let (flags, p) = match read_u16(buf, p) {
            Ok(v) => v,
            Err(e) => {
                return Err(e);
            },
        };
        let (qdcount, p) = match read_u16(buf, p) {
            Ok(v) => v,
            Err(e) => {
                return Err(e);
            },
        };
        let (ancount, p) = match read_u16(buf, p) {
            Ok(v) => v,
            Err(e) => {
                return Err(e);
            },
        };
        let (nscount, p) = match read_u16(buf, p) {
            Ok(v) => v,
            Err(e) => {
                return Err(e);
            },
        };
        let (arcount, p) = match read_u16(buf, p) {
            Ok(v) => v,
            Err(e) => {
                return Err(e);
            },
        };
        Ok((Header { id, flags, qdcount, ancount, nscount, arcount }, p))
    }

    /// The query/response bit.
    pub fn qr(&self) -> (r: u16)
        ensures
            r == self.flags / 32768,
    {
        self.flags / 32768
    }

    /// The 4-bit operation code.
    pub fn opcode(&self) -> (r: u16)
        ensures
            r == (self.flags / 2048) % 16,
    {
        (self.flags / 2048) % 16
    }

    /// The authoritative-answer bit.
    pub fn aa(&self) -> (r: u16)
        ensures
            r == (self.flags / 1024) % 2,
    {
        (self.flags / 1024) % 2
    }

    /// The truncation bit.
    pub fn tc(&self) -> (r: u16)
        ensures
            r == (self.flags / 512) % 2,
    {
        (self.flags / 512) % 2
    }

    /// The recursion-desired bit.
    pub fn rd(&self) -> (r: u16)
        ensures
            r == (self.flags / 256) % 2,
    {
        (self.flags / 256) % 2
    }

    /// The recursion-available bit.
    pub fn ra(&self) -> (r: u16)
        ensures
            r == (self.flags / 128) % 2,
    {
        (self.flags / 128) % 2
    }

    /// The 3 reserved bits.
    pub fn z(&self) -> (r: u16)
        ensures
            r == (self.flags / 16) % 8,
    {
        (self.flags / 16) % 8
    }

    /// The 4-bit response code.
    pub fn rcode(&self) -> (r: u16)
        ensures
            r == self.flags % 16,
    {
        self.flags % 16
    }
}

} // verus!
