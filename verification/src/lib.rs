//! A verified codec for DNS wire-format messages (RFC 1035): queries are
//! built from a domain name, record type and record class, and responses
//! are decoded from a raw byte buffer, including compression pointers and
//! per-type resource data.

pub mod answer;
pub mod errors;
pub mod header;
pub mod laws;
pub mod message;
pub mod name;
pub mod qtype;
pub mod question;
pub mod wire;
