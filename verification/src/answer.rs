//! Resource-record codec: a compression-aware domain name, the fixed
//! fields, and resource data decoded according to the record's type.

use vstd::prelude::*;

use crate::errors::DnsError;
use crate::name::NameTable;
use crate::name::chars_of_range;
use crate::name::decode_name;
use crate::name::label_chars;
use crate::name::spec_decode_name;
use crate::qtype::QClass;
use crate::qtype::QType;
use crate::wire::read_u16;
use crate::wire::read_u32;
use crate::wire::read_u8;
use crate::wire::spec_read_u16;
use crate::wire::spec_read_u32;
use crate::wire::spec_read_u8;

verus! {

/// The fields of a start-of-authority record's resource data.
#[derive(Debug, PartialEq, Eq)]
pub struct SoaData {
    pub mname: String,
    pub rname: String,
    pub serial: u32,
    pub refresh: u32,
    pub retry: u32,
    pub expire: u32,
    pub minimum: u32,
}

/// The mathematical content of a start-of-authority record's data.
pub struct SoaView {
    pub mname: Seq<char>,
    pub rname: Seq<char>,
    pub serial: u32,
    pub refresh: u32,
    pub retry: u32,
    pub expire: u32,
    pub minimum: u32,
}

impl View for SoaData {
    type V = SoaView;

    open spec fn view(&self) -> SoaView {
        SoaView {
            mname: self.mname@,
            rname: self.rname@,
            serial: self.serial,
            refresh: self.refresh,
            retry: self.retry,
            expire: self.expire,
            minimum: self.minimum,
        }
    }
}

/// Resource data, as a tagged union selected by the record's type.
#[derive(Debug, PartialEq, Eq)]
pub enum RData {
    /// A 4-byte IPv4 address, from an address record.
    Ipv4([u8; 4]),
    /// A 16-byte IPv6 address, from a quad-A record.
    Ipv6([u8; 16]),
    /// A domain name, from a canonical-name, name-server or pointer record.
    Name(String),
    /// The text of a record's first character-string.
    Txt(String),
    /// A mail exchange: a preference value and the exchange's name.
    Mx(u16, String),
    /// The fields of a start-of-authority record.
    Soa(SoaData),
}

/// The mathematical content of resource data.
pub enum RDataView {
    Ipv4(Seq<u8>),
    Ipv6(Seq<u8>),
    Name(Seq<char>),
    Txt(Seq<char>),
    Mx(u16, Seq<char>),
    Soa(SoaView),
}

impl View for RData {
    type V = RDataView;

    open spec fn view(&self) -> RDataView {
        match self {
            RData::Ipv4(a) => RDataView::Ipv4(a@),
            RData::Ipv6(a) => RDataView::Ipv6(a@),
            RData::Name(s) => RDataView::Name(s@),
            RData::Txt(s) => RDataView::Txt(s@),
            RData::Mx(pref, s) => RDataView::Mx(*pref, s@),
            RData::Soa(soa) => RDataView::Soa(soa@),
        }
    }
}

/// One resource record of an answer, authority or additional section.
#[derive(Debug, PartialEq, Eq)]
pub struct Answer {
    pub name: String,
    pub rtype: QType,
    pub class: QClass,
    pub ttl: u32,
    pub rdlength: u16,
    pub rdata: RData,
}

/// The mathematical content of a resource record.
pub struct AnswerView {
    pub name: Seq<char>,
    pub rtype: QType,
    pub class: QClass,
    pub ttl: u32,
    pub rdlength: u16,
    pub rdata: RDataView,
}

impl View for Answer {
    type V = AnswerView;

    open spec fn view(&self) -> AnswerView {
        AnswerView {
            name: self.name@,
            rtype: self.rtype,
            class: self.class,
            ttl: self.ttl,
            rdlength: self.rdlength,
            rdata: self.rdata@,
        }
    }
}

/// What decoding a start-of-authority record's data at `pos` yields: the
/// two names, then five 32-bit integers.
pub open spec fn spec_parse_soa(
    s: Seq<u8>,
    pos: int,
    table: Map<usize, Seq<char>>,
) -> Result<(RDataView, int, Map<usize, Seq<char>>), DnsError> {
    match spec_decode_name(s, pos, table) {
        Err(e) => Err(e),
        Ok((mn, p1, t1)) => match spec_decode_name(s, p1, t1) {
            Err(e) => Err(e),
            Ok((rn, p2, t2)) => match spec_read_u32(s, p2) {
                Err(e) => Err(e),
                Ok((serial, p3)) => match spec_read_u32(s, p3) {
                    Err(e) => Err(e),
                    Ok((refresh, p4)) => match spec_read_u32(s, p4) {
                        Err(e) => Err(e),
                        Ok((retry, p5)) => match spec_read_u32(s, p5) {
                            Err(e) => Err(e),
                            Ok((expire, p6)) => match spec_read_u32(s, p6) {
                                Err(e) => Err(e),
                                Ok((minimum, p7)) => Ok(
                                    (
                                        RDataView::Soa(
                                            SoaView {
                                                mname: mn,
                                                rname: rn,
                                                serial,
                                                refresh,
                                                retry,
                                                expire,
                                                minimum,
                                            },
                                        ),
                                        p7,
                                        t2,
                                    ),
                                ),
                            },
                        },
                    },
                },
            },
        },
    }
}

/// What decoding resource data of type `rt` and declared length `rdlen`
/// at `pos` yields. An address record must declare exactly its fixed
/// size; a text record is read as one length-prefixed character-string;
/// name-bearing records share the message's compression table; the
/// recognized types without a decoding here are rejected.
pub open spec fn spec_parse_rdata(
    s: Seq<u8>,
    pos: int,
    table: Map<usize, Seq<char>>,
    rt: QType,
    rdlen: u16,
) -> Result<(RDataView, int, Map<usize, Seq<char>>), DnsError> {
    match rt {
        QType::A => if rdlen != 4 {
            Err(DnsError::MalformedRecord)
        } else if pos < 0 || pos + 4 > s.len() {
            Err(DnsError::TruncatedInput)
        } else {
            Ok((RDataView::Ipv4(s.subrange(pos, pos + 4)), pos + 4, table))
        },
        QType::AAAA => if rdlen != 16 {
            Err(DnsError::MalformedRecord)
        } else if pos < 0 || pos + 16 > s.len() {
            Err(DnsError::TruncatedInput)
        } else {
            Ok((RDataView::Ipv6(s.subrange(pos, pos + 16)), pos + 16, table))
        },
        QType::TXT => match spec_read_u8(s, pos) {
            Err(e) => Err(e),
            Ok((n, p1)) => if p1 + n > s.len() {
                Err(DnsError::TruncatedInput)
            } else {
                Ok((RDataView::Txt(label_chars(s.subrange(p1, p1 + n))), p1 + n, table))
            },
        },
        QType::CNAME | QType::NS | QType::PTR => match spec_decode_name(s, pos, table) {
            Err(e) => Err(e),
            Ok((nm, p1, t1)) => Ok((RDataView::Name(nm), p1, t1)),
        },
        QType::MX => match spec_read_u16(s, pos) {
            Err(e) => Err(e),
            Ok((pref, p1)) => match spec_decode_name(s, p1, table) {
                Err(e) => Err(e),
                Ok((nm, p2, t1)) => Ok((RDataView::Mx(pref, nm), p2, t1)),
            },
        },
        QType::SOA => spec_parse_soa(s, pos, table),
        QType::SRV | QType::OPT | QType::CAA => Err(DnsError::UnsupportedRecordType),
    }
}

/// What decoding a whole resource record at `pos` yields. A type code
/// outside the closed enumeration is rejected as an unsupported record
/// type; a class code outside its enumeration as an unknown class.
pub open spec fn spec_parse_answer(
    s: Seq<u8>,
    pos: int,
    table: Map<usize, Seq<char>>,
) -> Result<(AnswerView, int, Map<usize, Seq<char>>), DnsError> {
    match spec_decode_name(s, pos, table) {
        Err(e) => Err(e),
        Ok((name, p1, t1)) => match spec_read_u16(s, p1) {
            Err(e) => Err(e),
            Ok((tv, p2)) => match QType::spec_of_code(tv) {
                None => Err(DnsError::UnsupportedRecordType),
                Some(rt) => match spec_read_u16(s, p2) {
                    Err(e) => Err(e),
                    Ok((cv, p3)) => match QClass::spec_of_code(cv) {
                        None => Err(DnsError::UnknownClass),
                        Some(cl) => match spec_read_u32(s, p3) {
                            Err(e) => Err(e),
                            Ok((ttl, p4)) => match spec_read_u16(s, p4) {
                                Err(e) => Err(e),
                                Ok((rdlen, p5)) => match spec_parse_rdata(s, p5, t1, rt, rdlen) {
                                    Err(e) => Err(e),
                                    Ok((rd, p6, t2)) => Ok(
                                        (
                                            AnswerView {
                                                name,
                                                rtype: rt,
                                                class: cl,
                                                ttl,
                                                rdlength: rdlen,
                                                rdata: rd,
                                            },
                                            p6,
                                            t2,
                                        ),
                                    ),
                                },
                            },
                        },
                    },
                },
            },
        },
    }
}

/// Decode resource data of type `rtype` with declared length `rdlength`.
#[verifier::rlimit(100)]
fn parse_rdata(
    buf: &Vec<u8>,
    pos: usize,
    table: &mut NameTable,
    rtype: QType,
    rdlength: u16,
) -> (r: Result<(RData, usize), DnsError>)
    ensures
        match spec_parse_rdata(buf@, pos as int, old(table)@, rtype, rdlength) {
            Ok((rd, end, t)) => r matches Ok((rd2, p2)) && rd2@ == rd && p2 == end && final(table)@
                == t,
            Err(e) => r == Err::<(RData, usize), DnsError>(e),
        },
{
    match rtype {
        QType::A => {
            if rdlength != 4 {
                return Err(DnsError::MalformedRecord);
            }
            if buf.len() < 4 || pos > buf.len() - 4 {
                return Err(DnsError::TruncatedInput);
            }
            let a = [buf[pos], buf[pos + 1], buf[pos + 2], buf[pos + 3]];
            proof {
                assert(a@ =~= buf@.subrange(pos as int, pos as int + 4));
            }
            Ok((RData::Ipv4(a), pos + 4))
        },
        QType::AAAA => {
            if rdlength != 16 {
                return Err(DnsError::MalformedRecord);
            }
            if buf.len() < 16 || pos > buf.len() - 16 {
                return Err(DnsError::TruncatedInput);
            }
            let a = [
                buf[pos],
                buf[pos + 1],
                buf[pos + 2],
                buf[pos + 3],
                buf[pos + 4],
                buf[pos + 5],
                buf[pos + 6],
                buf[pos + 7],
                buf[pos + 8],
                buf[pos + 9],
                buf[pos + 10],
                buf[pos + 11],
                buf[pos + 12],
                buf[pos + 13],
                buf[pos + 14],
                buf[pos + 15],
            ];
            proof {
                assert(a@ =~= buf@.subrange(pos as int, pos as int + 16));
            }
            Ok((RData::Ipv6(a), pos + 16))
        },
        QType::TXT => {
            let (n, p1) = match read_u8(buf, pos) {
                Ok(v) => v,
                Err(e) => {
                    return Err(e);
                },
            };
            let nlen = n as usize;
            if buf.len() - p1 < nlen {
                return Err(DnsError::TruncatedInput);
            }
            let text = chars_of_range(buf, p1, p1 + nlen);
            Ok((RData::Txt(text), p1 + nlen))
        },
        QType::CNAME | QType::NS | QType::PTR => {
            let (nm, p1) = match decode_name(buf, pos, table) {
                Ok(v) => v,
                Err(e) => {
                    return Err(e);
                },
            };
            Ok((RData::Name(nm), p1))
        },
        QType::MX => {
            let (pref, p1) = match read_u16(buf, pos) {
                Ok(v) => v,
                Err(e) => {
                    return Err(e);
                },
            };
            let (nm, p2) = match decode_name(buf, p1, table) {
                Ok(v) => v,
                Err(e) => {
                    return Err(e);
                },
            };
            Ok((RData::Mx(pref, nm), p2))
        },
        QType::SOA => parse_soa(buf, pos, table),
        QType::SRV | QType::OPT | QType::CAA => Err(DnsError::UnsupportedRecordType),
    }
}

/// Decode a start-of-authority record's resource data.
#[verifier::rlimit(100)]
fn parse_soa(buf: &Vec<u8>, pos: usize, table: &mut NameTable) -> (r: Result<
    (RData, usize),
    DnsError,
>)
    ensures
        match spec_parse_soa(buf@, pos as int, old(table)@) {
            Ok((rd, end, t)) => r matches Ok((rd2, p2)) && rd2@ == rd && p2 == end && final(table)@
                == t,
            Err(e) => r == Err::<(RData, usize), DnsError>(e),
        },
{
    let (mname, p1) = match decode_name(buf, pos, table) {
        Ok(v) => v,
        Err(e) => {
            return Err(e);
        },
    };
    let (rname, p2) = match decode_name(buf, p1, table) {
        Ok(v) => v,
        Err(e) => {
            return Err(e);
        },
    };
    let (serial, p3) = match read_u32(buf, p2) {
        Ok(v) => v,
        Err(e) => {
            return Err(e);
        },
    };
    let (refresh, p4) = match read_u32(buf, p3) {
        Ok(v) => v,
        Err(e) => {
            return Err(e);
        },
    };
    let (retry, p5) = match read_u32(buf, p4) {
        Ok(v) => v,
        Err(e) => {
            return Err(e);
        },
    };
    let (expire, p6) = match read_u32(buf, p5) {
        Ok(v) => v,
        Err(e) => {
            return Err(e);
        },
    };
    let (minimum, p7) = match read_u32(buf, p6) {
        Ok(v) => v,
        Err(e) => {
            return Err(e);
        },
    };
    Ok((RData::Soa(SoaData { mname, rname, serial, refresh, retry, expire, minimum }), p7))
}

impl Answer {
    /// Decode the resource record that starts at absolute position `pos`,
    /// sharing the message's name table.
    pub fn from_bytes(buf: &Vec<u8>, pos: usize, table: &mut NameTable) -> (r: Result<
        (Answer, usize),
        DnsError,
    >)
        ensures
            match spec_parse_answer(buf@, pos as int, old(table)@) {
                Ok((a, end, t)) => r matches Ok((a2, p2)) && a2@ == a && p2 == end && final(table)@
                    == t,
                Err(e) => r == Err::<(Answer, usize), DnsError>(e),
            },
    {
        let (name, p1) = match decode_name(buf, pos, table) {
            Ok(v) => v,
            Err(e) => {
                return Err(e);
            },
        };
        let (tv, p2) = match read_u16(buf, p1) {
            Ok(v) => v,
            Err(e) => {
                return Err(e);
            },
        };
        let rtype = match QType::from_u16(tv) {
            Ok(t) => t,
            Err(_) => {
                return Err(DnsError::UnsupportedRecordType);
            },
        };
        let (cv, p3) = match read_u16(buf, p2) {
            Ok(v) => v,
            Err(e) => {
                return Err(e);
            },
        };
        let class = QClass::from_u16(cv)?;
        let (ttl, p4) = match read_u32(buf, p3) {
            Ok(v) => v,
            Err(e) => {
                return Err(e);
            },
        };
        let (rdlength, p5) = match read_u16(buf, p4) {
            Ok(v) => v,
            Err(e) => {
                return Err(e);
            },
        };
        let (rdata, p6) = match parse_rdata(buf, p5, table, rtype, rdlength) {
            Ok(v) => v,
            Err(e) => {
                return Err(e);
            },
        };
        Ok((Answer { name, rtype, class, ttl, rdlength, rdata }, p6))
    }
}

} // verus!
