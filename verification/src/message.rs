//! Message orchestration: a header and the four sections, serialized and
//! decoded in fixed wire order. One name table is scoped to each decode,
//! with offsets measured from the start of the whole message, so that
//! pointers in later sections can reach names from earlier ones.

use vstd::prelude::*;

use crate::answer::Answer;
use crate::answer::AnswerView;
use crate::answer::spec_parse_answer;
use crate::errors::DnsError;
use crate::header::Header;
use crate::header::spec_header_bytes;
use crate::header::spec_parse_header;
use crate::name::NameTable;
use crate::qtype::QClass;
use crate::qtype::QType;
use crate::question::Question;
use crate::question::QuestionView;
use crate::question::spec_trim;
use crate::question::spec_encode_question;
use crate::question::spec_parse_question;

verus! {

/// A whole DNS message. A query is built fresh with a single question and
/// serialized at once; a response is constructed entirely by one decode.
#[derive(Debug, PartialEq, Eq)]
pub struct Message {
    pub header: Header,
    pub question: Vec<Question>,
    pub answer: Vec<Answer>,
    pub authority: Vec<Answer>,
    pub additional: Vec<Answer>,
}

/// The mathematical content of a message.
pub struct MessageView {
    pub header: Header,
    pub question: Seq<QuestionView>,
    pub answer: Seq<AnswerView>,
    pub authority: Seq<AnswerView>,
    pub additional: Seq<AnswerView>,
}

/// The views of a sequence of questions.
pub open spec fn question_views(s: Seq<Question>) -> Seq<QuestionView> {
    s.map_values(|q: Question| q@)
}

/// The views of a sequence of resource records.
pub open spec fn answer_views(s: Seq<Answer>) -> Seq<AnswerView> {
    s.map_values(|a: Answer| a@)
}

impl View for Message {
    type V = MessageView;

    open spec fn view(&self) -> MessageView {
        MessageView {
            header: self.header,
            question: question_views(self.question@),
            answer: answer_views(self.answer@),
            authority: answer_views(self.authority@),
            additional: answer_views(self.additional@),
        }
    }
}

/// What decoding `n` consecutive questions at `pos` yields, threading the
/// name table through in order.
pub open spec fn spec_parse_questions(
    s: Seq<u8>,
    pos: int,
    table: Map<usize, Seq<char>>,
    n: nat,
) -> Result<(Seq<QuestionView>, int, Map<usize, Seq<char>>), DnsError>
    decreases n,
{
    if n == 0 {
        Ok((Seq::empty(), pos, table))
    } else {
        match spec_parse_question(s, pos, table) {
            Err(e) => Err(e),
            Ok((q, p1, t1)) => match spec_parse_questions(s, p1, t1, (n - 1) as nat) {
                Err(e) => Err(e),
                Ok((qs, p2, t2)) => Ok((seq![q] + qs, p2, t2)),
            },
        }
    }
}

/// What decoding `n` consecutive resource records at `pos` yields,
/// threading the name table through in order.
pub open spec fn spec_parse_records(
    s: Seq<u8>,
    pos: int,
    table: Map<usize, Seq<char>>,
    n: nat,
) -> Result<(Seq<AnswerView>, int, Map<usize, Seq<char>>), DnsError>
    decreases n,
{
    if n == 0 {
        Ok((Seq::empty(), pos, table))
    } else {
        match spec_parse_answer(s, pos, table) {
            Err(e) => Err(e),
            Ok((a, p1, t1)) => match spec_parse_records(s, p1, t1, (n - 1) as nat) {
                Err(e) => Err(e),
                Ok((rs, p2, t2)) => Ok((seq![a] + rs, p2, t2)),
            },
        }
    }
}

/// What decoding a whole message yields: the header, then exactly as many
/// questions and records as the header's counts claim, in wire order,
/// sharing one name table keyed by absolute offsets. Any failure fails
/// the whole decode; there is no partial message.
pub open spec fn spec_parse_message(s: Seq<u8>) -> Result<MessageView, DnsError> {
    match spec_parse_header(s, 0) {
        Err(e) => Err(e),
        Ok((h, p0)) => match spec_parse_questions(s, p0, Map::empty(), h.qdcount as nat) {
            Err(e) => Err(e),
            Ok((qs, p1, t1)) => match spec_parse_records(s, p1, t1, h.ancount as nat) {
                Err(e) => Err(e),
                Ok((ans, p2, t2)) => match spec_parse_records(s, p2, t2, h.nscount as nat) {
                    Err(e) => Err(e),
                    Ok((auth, p3, t3)) => match spec_parse_records(s, p3, t3, h.arcount as nat) {
                        Err(e) => Err(e),
                        Ok((add, p4, t4)) => Ok(
                            MessageView {
                                header: h,
                                question: qs,
                                answer: ans,
                                authority: auth,
                                additional: add,
                            },
                        ),
                    },
                },
            },
        },
    }
}

/// The bytes a question section serializes to, in declared order.
pub open spec fn spec_encode_questions(qs: Seq<QuestionView>) -> Result<Seq<u8>, DnsError>
    decreases qs.len(),
{
    if qs.len() == 0 {
        Ok(Seq::empty())
    } else {
        match spec_encode_question(qs[0]) {
            Err(e) => Err(e),
            Ok(b) => match spec_encode_questions(qs.drop_first()) {
                Err(e) => Err(e),
                Ok(rest) => Ok(b + rest),
            },
        }
    }
}

/// The bytes a message serializes to: the header, then each question in
/// declared order. Only queries are serialized, and a query's record
/// sections are empty by construction, so records are never written.
pub open spec fn spec_encode_message(m: MessageView) -> Result<Seq<u8>, DnsError> {
    match spec_encode_questions(m.question) {
        Err(e) => Err(e),
        Ok(qb) => Ok(spec_header_bytes(m.header) + qb),
    }
}

/// Decode `n` consecutive questions starting at `pos`.
fn parse_questions(buf: &Vec<u8>, pos: usize, table: &mut NameTable, n: u16) -> (r: Result<
    (Vec<Question>, usize),
    DnsError,
>)
    ensures
        match spec_parse_questions(buf@, pos as int, old(table)@, n as nat) {
            Ok((qs, end, t)) => r matches Ok((v, p)) && question_views(v@) == qs && p == end
                && final(table)@ == t,
            Err(e) => r == Err::<(Vec<Question>, usize), DnsError>(e),
        },
{
    let mut acc: Vec<Question> = Vec::new();
    let mut cur: usize = pos;
    let mut i: u16 = 0;
    proof {
        assert(question_views(acc@) =~= Seq::<QuestionView>::empty());
    }
    while i < n
        invariant
            i <= n,
            spec_parse_questions(buf@, pos as int, old(table)@, n as nat) == (
            match spec_parse_questions(buf@, cur as int, table@, (n - i) as nat) {
                Ok((qs, end, t)) => Ok::<(Seq<QuestionView>, int, Map<usize, Seq<char>>), DnsError>(
                    (question_views(acc@) + qs, end, t),
                ),
                Err(e) => Err::<(Seq<QuestionView>, int, Map<usize, Seq<char>>), DnsError>(e),
            }),
        decreases n - i,
    {
        let ghost prev_views = question_views(acc@);
        match Question::from_bytes(buf, cur, table) {
            Err(e) => {
                return Err(e);
            },
            Ok((q, p)) => {
                acc.push(q);
                cur = p;
                i = i + 1;
                proof {
                    assert(question_views(acc@) =~= prev_views.push(q@));
                    match spec_parse_questions(buf@, cur as int, table@, (n - i) as nat) {
                        Ok((qs, end, t)) => {
                            assert(prev_views + (seq![q@] + qs) =~= question_views(acc@) + qs);
                        },
                        Err(e) => {},
                    }
                }
            },
        }
    }
    proof {
        assert(question_views(acc@) + Seq::<QuestionView>::empty() =~= question_views(acc@));
    }
    Ok((acc, cur))
}

/// Decode `n` consecutive resource records starting at `pos`.
fn parse_records(buf: &Vec<u8>, pos: usize, table: &mut NameTable, n: u16) -> (r: Result<
    (Vec<Answer>, usize),
    DnsError,
>)
    ensures
        match spec_parse_records(buf@, pos as int, old(table)@, n as nat) {
            Ok((rs, end, t)) => r matches Ok((v, p)) && answer_views(v@) == rs && p == end
                && final(table)@ == t,
            Err(e) => r == Err::<(Vec<Answer>, usize), DnsError>(e),
        },
{
    let mut acc: Vec<Answer> = Vec::new();
    let mut cur: usize = pos;
    let mut i: u16 = 0;
    proof {
        assert(answer_views(acc@) =~= Seq::<AnswerView>::empty());
    }
    while i < n
        invariant
            i <= n,
            spec_parse_records(buf@, pos as int, old(table)@, n as nat) == (
            match spec_parse_records(buf@, cur as int, table@, (n - i) as nat) {
                Ok((rs, end, t)) => Ok::<(Seq<AnswerView>, int, Map<usize, Seq<char>>), DnsError>(
                    (answer_views(acc@) + rs, end, t),
                ),
                Err(e) => Err::<(Seq<AnswerView>, int, Map<usize, Seq<char>>), DnsError>(e),
            }),
        decreases n - i,
    {
        let ghost prev_views = answer_views(acc@);
        match Answer::from_bytes(buf, cur, table) {
            Err(e) => {
                return Err(e);
            },
            Ok((a, p)) => {
                acc.push(a);
                cur = p;
                i = i + 1;
                proof {
                    assert(answer_views(acc@) =~= prev_views.push(a@));
                    match spec_parse_records(buf@, cur as int, table@, (n - i) as nat) {
                        Ok((rs, end, t)) => {
                            assert(prev_views + (seq![a@] + rs) =~= answer_views(acc@) + rs);
                        },
                        Err(e) => {},
                    }
                }
            },
        }
    }
    proof {
        assert(answer_views(acc@) + Seq::<AnswerView>::empty() =~= answer_views(acc@));
    }
    Ok((acc, cur))
}

impl Message {
    /// Build a fresh query: a random-id header announcing one question,
    /// the question itself (its domain stripped of surrounding
    /// whitespace), and empty record sections. An unrecognized type or
    /// class mnemonic is rejected.
    pub fn create_query(domain: &str, qtype: &str, qclass: &str) -> (r: Result<Message, DnsError>)
        ensures
            match (QType::spec_of_mnemonic(qtype@), QClass::spec_of_mnemonic(qclass@)) {
                (Some(t), Some(c)) => r matches Ok(m) && m@.header.flags == 256
                    && m@.header.qdcount == 1 && m@.header.ancount == 0 && m@.header.nscount == 0
                    && m@.header.arcount == 0 && m@.question.len() == 1 && m@.question[0].qname
                    == spec_trim(domain@) && m@.question[0].qtype == t && m@.question[0].qclass
                    == c
                    && m@.answer.len() == 0 && m@.authority.len() == 0 && m@.additional.len() == 0,
                (None, _) => r == Err::<Message, DnsError>(DnsError::UnknownType),
                (Some(_), None) => r == Err::<Message, DnsError>(DnsError::UnknownClass),
            },
    {
        let q = Question::create_query_question(domain, qtype, qclass)?;
        let header = Header::create_query_header();
        let mut question: Vec<Question> = Vec::new();
        question.push(q);
        let m = Message {
            header,
            question,
            answer: Vec::new(),
            authority: Vec::new(),
            additional: Vec::new(),
        };
        proof {
            assert(question_views(m.question@) =~= seq![m.question@[0]@]);
            assert(answer_views(m.answer@) =~= Seq::<AnswerView>::empty());
            assert(answer_views(m.authority@) =~= Seq::<AnswerView>::empty());
            assert(answer_views(m.additional@) =~= Seq::<AnswerView>::empty());
        }
        Ok(m)
    }

    /// Serialize the message: header bytes, then each question in order.
    pub fn to_bytes(&self) -> (r: Result<Vec<u8>, DnsError>)
        ensures
            match spec_encode_message(self@) {
                Ok(bytes) => r matches Ok(v) && v@ == bytes,
                Err(e) => r == Err::<Vec<u8>, DnsError>(e),
            },
    {
        let mut buf: Vec<u8> = Vec::new();
        self.header.to_bytes(&mut buf);
        let ghost all = question_views(self.question@);
        let ghost mut qacc: Seq<u8> = Seq::empty();
        let mut i: usize = 0;
        proof {
            assert(buf@ =~= spec_header_bytes(self.header) + qacc);
            assert(all.skip(0) =~= all);
        }
        let n = self.question.len();
        while i < n
            invariant
                i <= n,
                n == self.question@.len(),
                all == question_views(self.question@),
                buf@ == spec_header_bytes(self.header) + qacc,
                spec_encode_questions(all) == (match spec_encode_questions(all.skip(i as int)) {
                    Ok(t) => Ok::<Seq<u8>, DnsError>(qacc + t),
                    Err(e) => Err::<Seq<u8>, DnsError>(e),
                }),
            decreases n - i,
        {
            let ghost prev_qacc = qacc;
            match self.question[i].to_bytes(&mut buf) {
                Err(e) => {
                    return Err(e);
                },
                Ok(()) => {
                    proof {
                        let qb = spec_encode_question(all[i as int]);
                        qacc = qacc + qb->Ok_0;
                        assert(all.skip(i as int)[0] == all[i as int]);
                        assert(all.skip(i as int).drop_first() =~= all.skip(i as int + 1));
                        assert(buf@ =~= spec_header_bytes(self.header) + qacc);
                        match spec_encode_questions(all.skip(i as int + 1)) {
                            Ok(t) => {
                                assert(prev_qacc + (qb->Ok_0 + t) =~= qacc + t);
                            },
                            Err(e) => {},
                        }
                    }
                    i = i + 1;
                },
            }
        }
        proof {
            assert(all.skip(n as int) =~= Seq::<QuestionView>::empty());
            assert(qacc + Seq::<u8>::empty() =~= qacc);
        }
        Ok(buf)
    }

    /// Decode a whole message from a received buffer. The decode either
    /// fully succeeds or fails with the first error, exactly as the
    /// message specification describes.
    pub fn from_bytes(buf: &Vec<u8>) -> (r: Result<Message, DnsError>)
        ensures
            match spec_parse_message(buf@) {
                Ok(m) => r matches Ok(m2) && m2@ == m,
                Err(e) => r == Err::<Message, DnsError>(e),
            },
    {
        let (header, p0) = match Header::from_bytes(buf, 0) {
            Ok(v) => v,
            Err(e) => {
                return Err(e);
            },
        };
        let mut table = NameTable::new();
        let (question, p1) = match parse_questions(buf, p0, &mut table, header.qdcount) {
            Ok(v) => v,
            Err(e) => {
                return Err(e);
            },
        };
        let (answer, p2) = match parse_records(buf, p1, &mut table, header.ancount) {
            Ok(v) => v,
            Err(e) => {
                return Err(e);
            },
        };
        let (authority, p3) = match parse_records(buf, p2, &mut table, header.nscount) {
            Ok(v) => v,
            Err(e) => {
                return Err(e);
            },
        };
        let (additional, _p4) = match parse_records(buf, p3, &mut table, header.arcount) {
            Ok(v) => v,
            Err(e) => {
                return Err(e);
            },
        };
        Ok(Message { header, question, answer, authority, additional })
    }
}

} // verus!
