//! Question codec: a domain name followed by a 2-byte type code and a
//! 2-byte class code.

use vstd::prelude::*;

use crate::errors::DnsError;
use crate::name::NameTable;
use crate::name::decode_name;
use crate::name::encode_name;
use crate::name::spec_decode_name;
use crate::name::spec_encode_name;
use crate::qtype::QClass;
use crate::qtype::QType;
use crate::wire::read_u16;
use crate::wire::spec_read_u16;
use crate::wire::u16_be_bytes;

verus! {

/// One entry of a message's question section.
#[derive(Debug, PartialEq, Eq)]
pub struct Question {
    pub qname: String,
    pub qtype: QType,
    pub qclass: QClass,
}

/// The mathematical content of a question: its name's characters and the
/// two codes.
pub struct QuestionView {
    pub qname: Seq<char>,
    pub qtype: QType,
    pub qclass: QClass,
}

impl View for Question {
    type V = QuestionView;

    open spec fn view(&self) -> QuestionView {
        QuestionView { qname: self.qname@, qtype: self.qtype, qclass: self.qclass }
    }
}

/// Whether a character has Unicode's White_Space property — the set the
/// query builder strips from the ends of a domain.
pub open spec fn is_wsp(c: char) -> bool {
    c == '\u{0009}' || c == '\u{000A}' || c == '\u{000B}' || c == '\u{000C}' || c == '\u{000D}'
        || c == '\u{0020}' || c == '\u{0085}' || c == '\u{00A0}' || c == '\u{1680}' || c
        == '\u{2000}' || c == '\u{2001}' || c == '\u{2002}' || c == '\u{2003}' || c == '\u{2004}'
        || c == '\u{2005}' || c == '\u{2006}' || c == '\u{2007}' || c == '\u{2008}' || c
        == '\u{2009}' || c == '\u{200A}' || c == '\u{2028}' || c == '\u{2029}' || c == '\u{202F}'
        || c == '\u{205F}' || c == '\u{3000}'
}

/// `s` without its leading whitespace.
pub open spec fn spec_trim_front(s: Seq<char>) -> Seq<char>
    decreases s.len(),
{
    if s.len() > 0 && is_wsp(s[0]) {
        spec_trim_front(s.drop_first())
    } else {
        s
    }
}

/// `s` without its trailing whitespace.
pub open spec fn spec_trim_back(s: Seq<char>) -> Seq<char>
    decreases s.len(),
{
    if s.len() > 0 && is_wsp(s.last()) {
        spec_trim_back(s.drop_last())
    } else {
        s
    }
}

/// `s` without its leading and trailing whitespace.
pub open spec fn spec_trim(s: Seq<char>) -> Seq<char> {
    spec_trim_back(spec_trim_front(s))
}

/// Whether `c` has the White_Space property.
fn is_wsp_char(c: char) -> (r: bool)
    ensures
        r == is_wsp(c),
{
    c == '\u{0009}' || c == '\u{000A}' || c == '\u{000B}' || c == '\u{000C}' || c == '\u{000D}'
        || c == '\u{0020}' || c == '\u{0085}' || c == '\u{00A0}' || c == '\u{1680}' || c
        == '\u{2000}' || c == '\u{2001}' || c == '\u{2002}' || c == '\u{2003}' || c == '\u{2004}'
        || c == '\u{2005}' || c == '\u{2006}' || c == '\u{2007}' || c == '\u{2008}' || c
        == '\u{2009}' || c == '\u{200A}' || c == '\u{2028}' || c == '\u{2029}' || c == '\u{202F}'
        || c == '\u{205F}' || c == '\u{3000}'
}

/// `s` with surrounding whitespace removed.
fn trim_str(s: &str) -> (r: String)
    ensures
        r@ == spec_trim(s@),
{
    let n = s.unicode_len();
    let mut i: usize = 0;
    proof {
        assert(s@.skip(0) =~= s@);
    }
    while i < n && is_wsp_char(s.get_char(i))
        invariant
            i <= n,
            n == s@.len(),
            spec_trim_front(s@) == spec_trim_front(s@.skip(i as int)),
        decreases n - i,
    {
        proof {
            assert(s@.skip(i as int)[0] == s@[i as int]);
            assert(s@.skip(i as int).drop_first() =~= s@.skip(i as int + 1));
        }
        i = i + 1;
    }
    proof {
        if i < n {
            assert(s@.skip(i as int)[0] == s@[i as int]);
        }
        assert(spec_trim_front(s@) == s@.skip(i as int));
    }
    let mut j: usize = n;
    proof {
        assert(s@.subrange(i as int, n as int) =~= s@.skip(i as int));
    }
    while j > i && is_wsp_char(s.get_char(j - 1))
        invariant
            i <= j <= n,
            n == s@.len(),
            spec_trim_back(s@.skip(i as int)) == spec_trim_back(s@.subrange(i as int, j as int)),
        decreases j,
    {
        proof {
            assert(s@.subrange(i as int, j as int).last() == s@[j - 1]);
            assert(s@.subrange(i as int, j as int).drop_last() =~= s@.subrange(
                i as int,
                j as int - 1,
            ));
        }
        j = j - 1;
    }
    proof {
        if j > i {
            assert(s@.subrange(i as int, j as int).last() == s@[j - 1]);
        }
        assert(spec_trim_back(s@.subrange(i as int, j as int)) == s@.subrange(i as int, j as int));
        assert(spec_trim(s@) == s@.subrange(i as int, j as int));
    }
    s.substring_char(i, j).to_owned()
}

/// The bytes a question serializes to: the encoded name, then the type
/// and class codes.
pub open spec fn spec_encode_question(q: QuestionView) -> Result<Seq<u8>, DnsError> {
    match spec_encode_name(q.qname) {
        Err(e) => Err(e),
        Ok(nb) => Ok(nb + u16_be_bytes(q.qtype.wire_code()) + u16_be_bytes(q.qclass.wire_code())),
    }
}

/// What decoding a question at `pos` yields: the question, the position
/// just past it, and the name table with the question's name registered.
/// A type or class code outside the closed enumerations fails the decode.
pub open spec fn spec_parse_question(
    s: Seq<u8>,
    pos: int,
    table: Map<usize, Seq<char>>,
) -> Result<(QuestionView, int, Map<usize, Seq<char>>), DnsError> {
    match spec_decode_name(s, pos, table) {
        Err(e) => Err(e),
        Ok((name, p1, t1)) => match spec_read_u16(s, p1) {
            Err(e) => Err(e),
            Ok((tv, p2)) => match QType::spec_of_code(tv) {
                None => Err(DnsError::UnknownType),
                Some(qt) => match spec_read_u16(s, p2) {
                    Err(e) => Err(e),
                    Ok((cv, p3)) => match QClass::spec_of_code(cv) {
                        None => Err(DnsError::UnknownClass),
                        Some(qc) => Ok(
                            (QuestionView { qname: name, qtype: qt, qclass: qc }, p3, t1),
                        ),
                    },
                },
            },
        },
    }
}

impl Question {
    /// Build the single question of a fresh query from a domain and the
    /// two mnemonics, rejecting unrecognized mnemonics. Whitespace around
    /// the domain is stripped.
    pub fn create_query_question(domain: &str, typ: &str, class: &str) -> (r: Result<
        Question,
        DnsError,
    >)
        ensures
            match (QType::spec_of_mnemonic(typ@), QClass::spec_of_mnemonic(class@)) {
                (Some(t), Some(c)) => r matches Ok(q) && q@.qname == spec_trim(domain@) && q@.qtype
                    == t && q@.qclass == c,
                (None, _) => r == Err::<Question, DnsError>(DnsError::UnknownType),
                (Some(_), None) => r == Err::<Question, DnsError>(DnsError::UnknownClass),
            },
    {
        let qtype = QType::from_str(typ)?;
        let qclass = QClass::from_str(class)?;
        Ok(Question { qname: trim_str(domain), qtype, qclass })
    }

    /// Append the question's wire bytes to the buffer; on an encoding
    /// error the buffer is left exactly as it was.
    pub fn to_bytes(&self, buf: &mut Vec<u8>) -> (r: Result<(), DnsError>)
        ensures
            match spec_encode_question(self@) {
                Ok(bytes) => r == Ok::<(), DnsError>(()) && final(buf)@ == old(buf)@ + bytes,
                Err(e) => r == Err::<(), DnsError>(e) && final(buf)@ == old(buf)@,
            },
    {
        match encode_name(self.qname.as_str(), buf) {
            Err(e) => Err(e),
            Ok(()) => {
                self.qtype.to_bytes(buf);
                self.qclass.to_bytes(buf);
                proof {
                    assert(buf@ =~= old(buf)@ + spec_encode_question(self@)->Ok_0);
                }
                Ok(())
            },
        }
    }

    /// Decode the question that starts at absolute position `pos`,
    /// sharing the message's name table.
    pub fn from_bytes(buf: &Vec<u8>, pos: usize, table: &mut NameTable) -> (r: Result<
        (Question, usize),
        DnsError,
    >)
        ensures
            match spec_parse_question(buf@, pos as int, old(table)@) {
                Ok((q, end, t)) => r matches Ok((q2, p2)) && q2@ == q && p2 == end && final(table)@
                    == t,
                Err(e) => r == Err::<(Question, usize), DnsError>(e),
            },
    {
        let (qname, p1) = match decode_name(buf, pos, table) {
            Ok(v) => v,
            Err(e) => {
                return Err(e);
            },
        };
        let (tv, p2) = match read_u16(buf, p1) {
            Ok(v) => v,
            Err(e) => {
                return Err(e);
            },
        };
        let qtype = QType::from_u16(tv)?;
        let (cv, p3) = match read_u16(buf, p2) {
            Ok(v) => v,
            Err(e) => {
                return Err(e);
            },
        };
        let qclass = QClass::from_u16(cv)?;
        Ok((Question { qname, qtype, qclass }, p3))
    }
}

} // verus!
