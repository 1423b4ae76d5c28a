//! The error kinds that encoding or decoding a DNS message can report.
//! A single malformed field fails the whole operation; no error is ever
//! coerced into a default value.

use vstd::prelude::*;

verus! {

/// Everything that can go wrong while encoding or decoding a message.
#[derive(Clone, Copy, Debug, PartialEq, Eq, Structural)]
pub enum DnsError {
    /// The cursor ran out of bytes before a required field was complete.
    TruncatedInput,
    /// A label-length byte used the reserved `01` or `10` top-bit pattern.
    InvalidLabelFlag,
    /// A compression pointer referred to an offset with no registered name.
    DanglingPointer,
    /// A domain name would encode to more than 255 bytes.
    NameTooLong,
    /// A single label was longer than 63 bytes.
    LabelTooLong,
    /// A record-type mnemonic or wire code outside the closed enumeration.
    UnknownType,
    /// A class mnemonic or wire code outside the closed enumeration.
    UnknownClass,
    /// A record type whose resource data this codec does not decode.
    UnsupportedRecordType,
    /// Resource data whose byte count contradicts its declared length.
    MalformedRecord,
}

} // verus!
