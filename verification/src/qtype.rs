//! The closed enumerations of record types and classes, with their wire
//! codes and mnemonic names. Conversion is total only for recognized
//! values: anything else is an error, never a silent default.

use vstd::prelude::*;

use crate::errors::DnsError;
use crate::wire::u16_be_bytes;
use crate::wire::write_u16;

verus! {

/// A resource-record type this codec recognizes.
#[derive(Clone, Copy, Debug, PartialEq, Eq, Structural)]
pub enum QType {
    A,
    NS,
    CNAME,
    SOA,
    PTR,
    MX,
    TXT,
    AAAA,
    SRV,
    OPT,
    CAA,
}

/// A record class this codec recognizes.
#[derive(Clone, Copy, Debug, PartialEq, Eq, Structural)]
pub enum QClass {
    IN,
    CS,
    CH,
    HS,
    ANY,
}

impl QType {
    /// The 16-bit code this type has on the wire.
    pub open spec fn wire_code(self) -> u16 {
        match self {
            QType::A => 1,
            QType::NS => 2,
            QType::CNAME => 5,
            QType::SOA => 6,
            QType::PTR => 12,
            QType::MX => 15,
            QType::TXT => 16,
            QType::AAAA => 28,
            QType::SRV => 33,
            QType::OPT => 41,
            QType::CAA => 257,
        }
    }

    /// The type a 16-bit wire code names, if it is recognized.
    pub open spec fn spec_of_code(value: u16) -> Option<QType> {
        if value == 1 {
            Some(QType::A)
        } else if value == 2 {
            Some(QType::NS)
        } else if value == 5 {
            Some(QType::CNAME)
        } else if value == 6 {
            Some(QType::SOA)
        } else if value == 12 {
            Some(QType::PTR)
        } else if value == 15 {
            Some(QType::MX)
        } else if value == 16 {
            Some(QType::TXT)
        } else if value == 28 {
            Some(QType::AAAA)
        } else if value == 33 {
            Some(QType::SRV)
        } else if value == 41 {
            Some(QType::OPT)
        } else if value == 257 {
            Some(QType::CAA)
        } else {
            None
        }
    }

    /// The type a mnemonic names, if it is recognized.
    pub open spec fn spec_of_mnemonic(s: Seq<char>) -> Option<QType> {
        if s == "A"@ {
            Some(QType::A)
        } else if s == "NS"@ {
            Some(QType::NS)
        } else if s == "CNAME"@ {
            Some(QType::CNAME)
        } else if s == "SOA"@ {
            Some(QType::SOA)
        } else if s == "PTR"@ {
            Some(QType::PTR)
        } else if s == "MX"@ {
            Some(QType::MX)
        } else if s == "TXT"@ {
            Some(QType::TXT)
        } else if s == "AAAA"@ {
            Some(QType::AAAA)
        } else if s == "SRV"@ {
            Some(QType::SRV)
        } else if s == "OPT"@ {
            Some(QType::OPT)
        } else if s == "CAA"@ {
            Some(QType::CAA)
        } else {
            None
        }
    }

    /// Wire code and code lookup invert each other.
    pub proof fn lemma_code_roundtrip(t: QType)
        ensures
            Self::spec_of_code(t.wire_code()) == Some(t),
    {
    }

    /// The wire code of `self`.
    pub fn code(self) -> (c: u16)
        ensures
            c == self.wire_code(),
    {
        match self {
            QType::A => 1,
            QType::NS => 2,
            QType::CNAME => 5,
            QType::SOA => 6,
            QType::PTR => 12,
            QType::MX => 15,
            QType::TXT => 16,
            QType::AAAA => 28,
            QType::SRV => 33,
            QType::OPT => 41,
            QType::CAA => 257,
        }
    }

    /// Parse a mnemonic such as `"A"` or `"CNAME"`.
    pub fn from_str(s: &str) -> (r: Result<QType, DnsError>)
        ensures
            match Self::spec_of_mnemonic(s@) {
                Some(t) => r == Ok::<QType, DnsError>(t),
                None => r == Err::<QType, DnsError>(DnsError::UnknownType),
            },
    {
        let v = s.to_owned();
        if v == String::from_str("A") {
            Ok(QType::A)
        } else if v == String::from_str("NS") {
            Ok(QType::NS)
        } else if v == String::from_str("CNAME") {
            Ok(QType::CNAME)
        } else if v == String::from_str("SOA") {
            Ok(QType::SOA)
        } else if v == String::from_str("PTR") {
            Ok(QType::PTR)
        } else if v == String::from_str("MX") {
            Ok(QType::MX)
        } else if v == String::from_str("TXT") {
            Ok(QType::TXT)
        } else if v == String::from_str("AAAA") {
            Ok(QType::AAAA)
        } else if v == String::from_str("SRV") {
            Ok(QType::SRV)
        } else if v == String::from_str("OPT") {
            Ok(QType::OPT)
        } else if v == String::from_str("CAA") {
            Ok(QType::CAA)
        } else {
            Err(DnsError::UnknownType)
        }
    }

    /// Parse a 16-bit wire code.
    pub fn from_u16(value: u16) -> (r: Result<QType, DnsError>)
        ensures
            match Self::spec_of_code(value) {
                Some(t) => r == Ok::<QType, DnsError>(t),
                None => r == Err::<QType, DnsError>(DnsError::UnknownType),
            },
    {
        if value == 1 {
            Ok(QType::A)
        } else if value == 2 {
            Ok(QType::NS)
        } else if value == 5 {
            Ok(QType::CNAME)
        } else if value == 6 {
            Ok(QType::SOA)
        } else if value == 12 {
            Ok(QType::PTR)
        } else if value == 15 {
            Ok(QType::MX)
        } else if value == 16 {
            Ok(QType::TXT)
        } else if value == 28 {
            Ok(QType::AAAA)
        } else if value == 33 {
            Ok(QType::SRV)
        } else if value == 41 {
            Ok(QType::OPT)
        } else if value == 257 {
            Ok(QType::CAA)
        } else {
            Err(DnsError::UnknownType)
        }
    }

    /// Append the 2-byte wire code to the buffer.
    pub fn to_bytes(self, buf: &mut Vec<u8>)
        ensures
            final(buf)@ == old(buf)@ + u16_be_bytes(self.wire_code()),
    {
        let c = self.code();
        write_u16(buf, c);
    }
}

impl QClass {
    /// The 16-bit code this class has on the wire.
    pub open spec fn wire_code(self) -> u16 {
        match self {
            QClass::IN => 1,
            QClass::CS => 2,
            QClass::CH => 3,
            QClass::HS => 4,
            QClass::ANY => 255,
        }
    }

    /// The class a 16-bit wire code names, if it is recognized.
    pub open spec fn spec_of_code(value: u16) -> Option<QClass> {
        if value == 1 {
            Some(QClass::IN)
        } else if value == 2 {
            Some(QClass::CS)
        } else if value == 3 {
            Some(QClass::CH)
        } else if value == 4 {
            Some(QClass::HS)
        } else if value == 255 {
            Some(QClass::ANY)
        } else {
            None
        }
    }

    /// The class a mnemonic names, if it is recognized.
    pub open spec fn spec_of_mnemonic(s: Seq<char>) -> Option<QClass> {
        if s == "IN"@ {
            Some(QClass::IN)
        } else if s == "CS"@ {
            Some(QClass::CS)
        } else if s == "CH"@ {
            Some(QClass::CH)
        } else if s == "HS"@ {
            Some(QClass::HS)
        } else if s == "ANY"@ {
            Some(QClass::ANY)
        } else {
            None
        }
    }

    /// Wire code and code lookup invert each other.
    pub proof fn lemma_code_roundtrip(c: QClass)
        ensures
            Self::spec_of_code(c.wire_code()) == Some(c),
    {
    }

    /// The wire code of `self`.
    pub fn code(self) -> (c: u16)
        ensures
            c == self.wire_code(),
    {
        match self {
            QClass::IN => 1,
            QClass::CS => 2,
            QClass::CH => 3,
            QClass::HS => 4,
            QClass::ANY => 255,
        }
    }

    /// Parse a mnemonic such as `"IN"`.
    pub fn from_str(s: &str) -> (r: Result<QClass, DnsError>)
        ensures
            match Self::spec_of_mnemonic(s@) {
                Some(c) => r == Ok::<QClass, DnsError>(c),
                None => r == Err::<QClass, DnsError>(DnsError::UnknownClass),
            },
    {
        let v = s.to_owned();
        if v == String::from_str("IN") {
            Ok(QClass::IN)
        } else if v == String::from_str("CS") {
            Ok(QClass::CS)
        } else if v == String::from_str("CH") {
            Ok(QClass::CH)
        } else if v == String::from_str("HS") {
            Ok(QClass::HS)
        } else if v == String::from_str("ANY") {
            Ok(QClass::ANY)
        } else {
            Err(DnsError::UnknownClass)
        }
    }

    /// Parse a 16-bit wire code.
    pub fn from_u16(value: u16) -> (r: Result<QClass, DnsError>)
        ensures
            match Self::spec_of_code(value) {
                Some(c) => r == Ok::<QClass, DnsError>(c),
                None => r == Err::<QClass, DnsError>(DnsError::UnknownClass),
            },
    {
        if value == 1 {
            Ok(QClass::IN)
        } else if value == 2 {
            Ok(QClass::CS)
        } else if value == 3 {
            Ok(QClass::CH)
        } else if value == 4 {
            Ok(QClass::HS)
        } else if value == 255 {
            Ok(QClass::ANY)
        } else {
            Err(DnsError::UnknownClass)
        }
    }

    /// Append the 2-byte wire code to the buffer.
    pub fn to_bytes(self, buf: &mut Vec<u8>)
        ensures
            final(buf)@ == old(buf)@ + u16_be_bytes(self.wire_code()),
    {
        let c = self.code();
        write_u16(buf, c);
    }
}

} // verus!
