//! Laws the codec obeys, stated and proved once over the specification
//! functions that the executable functions' contracts are written in.

use vstd::prelude::*;

use crate::errors::DnsError;
use crate::header::Header;
use crate::header::spec_header_bytes;
use crate::header::spec_parse_header;
use crate::message::MessageView;
use crate::message::spec_encode_message;
use crate::message::spec_encode_questions;
use crate::message::spec_parse_message;
use crate::message::spec_parse_questions;
use crate::message::spec_parse_records;
use crate::name::first_dot;
use crate::name::label_bytes;
use crate::name::label_chars;
use crate::name::label_fits;
use crate::name::lemma_char_byte_roundtrip;
use crate::name::lemma_first_dot;
use crate::name::spec_canon_name;
use crate::name::spec_decode_labels;
use crate::name::spec_decode_name;
use crate::name::spec_encode_labels;
use crate::name::spec_encode_name;
use crate::qtype::QClass;
use crate::qtype::QType;
use crate::question::QuestionView;
use crate::question::spec_encode_question;
use crate::question::spec_parse_question;
use crate::wire::be16;
use crate::wire::u16_be_bytes;

verus! {

/// Law: decoding is a function of the buffer alone, so decoding the same
/// buffer twice yields identical messages — dotted names included.
pub proof fn lemma_decode_idempotent(
    buf: Seq<u8>,
    r1: Result<MessageView, DnsError>,
    r2: Result<MessageView, DnsError>,
)
    requires
        r1 == spec_parse_message(buf),
        r2 == spec_parse_message(buf),
    ensures
        r1 == r2,
{
}

/// Law: a name decoded from offset `k` is registered at `k` — the
/// resulting table maps `k` to the whole decoded name.
pub proof fn lemma_decode_registers_start(buf: Seq<u8>, k: int, table: Map<usize, Seq<char>>)
    requires
        0 <= k,
        spec_decode_name(buf, k, table) is Ok,
    ensures
        ({
            let (name, end, t) = spec_decode_name(buf, k, table)->Ok_0;
            t.contains_key(k as usize) && t[k as usize] == name
        }),
{
}

/// Law: compression correctness — a name field that is exactly a pointer
/// to offset `k` decodes, under the table produced by decoding the name
/// at `k`, to a name identical to that earlier name.
pub proof fn lemma_compression_correct(buf: Seq<u8>, k: int, table: Map<usize, Seq<char>>, p: int)
    requires
        0 <= k,
        spec_decode_name(buf, k, table) is Ok,
        0 <= p,
        p + 1 < buf.len(),
        buf[p] >= 192,
        (buf[p] - 192) * 256 + buf[p + 1] == k,
    ensures
        ({
            let (name, end, t) = spec_decode_name(buf, k, table)->Ok_0;
            spec_decode_name(buf, p, t) matches Ok((name2, end2, t2)) && name2 == name && end2 == p
                + 2
        }),
{
    lemma_decode_registers_start(buf, k, table);
}

/// Law: dangling-pointer rejection — a pointer to an offset with no
/// registered name fails with exactly that error; it never produces an
/// empty or fabricated name.
pub proof fn lemma_dangling_pointer_rejected(buf: Seq<u8>, pos: int, table: Map<usize, Seq<char>>)
    requires
        0 <= pos,
        pos + 1 < buf.len(),
        buf[pos] >= 192,
        !table.contains_key((((buf[pos] - 192) * 256 + buf[pos + 1])) as usize),
    ensures
        spec_decode_name(buf, pos, table) == Err::<(Seq<char>, int, Map<usize, Seq<char>>), DnsError>(
            DnsError::DanglingPointer,
        ),
{
}

/// Whether every label of a dotted name can be written to the wire: at
/// most 63 characters, each below code point 256.
pub open spec fn labels_fit(s: Seq<char>) -> bool
    decreases s.len(),
{
    if s.len() == 0 {
        true
    } else {
        let d = first_dot(s);
        if d == 0 {
            labels_fit(s.skip(1))
        } else if d > 63 {
            false
        } else if d >= s.len() {
            label_fits(s)
        } else {
            label_fits(s.take(d as int)) && labels_fit(s.skip(d + 1 as int))
        }
    }
}

/// Law: label boundary — a name's labels encode exactly when each label
/// is at most 63 bytes long and every character fits in one byte; any
/// other label fails with exactly `LabelTooLong`.
pub proof fn lemma_encode_labels_ok_iff(s: Seq<char>)
    ensures
        spec_encode_labels(s) is Ok <==> labels_fit(s),
        !labels_fit(s) ==> spec_encode_labels(s) == Err::<Seq<u8>, DnsError>(
            DnsError::LabelTooLong,
        ),
    decreases s.len(),
{
    if s.len() == 0 {
    } else {
        let d = first_dot(s);
        if d == 0 {
            lemma_encode_labels_ok_iff(s.skip(1));
        } else if d > 63 {
        } else if d >= s.len() {
        } else {
            lemma_encode_labels_ok_iff(s.skip(d + 1 as int));
        }
    }
}

/// A label the encoder accepts survives the byte round trip unchanged.
pub proof fn lemma_label_roundtrip(s: Seq<char>)
    requires
        label_fits(s),
    ensures
        label_chars(label_bytes(s)) == s,
{
    assert forall|i: int| 0 <= i < s.len() implies label_chars(label_bytes(s))[i] == s[i] by {
        assert((s[i] as int) < 256);
        lemma_char_byte_roundtrip(s[i]);
    }
    assert(label_chars(label_bytes(s)) =~= s);
}

/// Decoding an encoded name from any buffer that embeds it, under any
/// table, yields the name's canonical dotted form and ends right after
/// the terminator.
pub proof fn lemma_decode_of_encoded_name(
    buf: Seq<u8>,
    pos: int,
    s: Seq<char>,
    body: Seq<u8>,
    table: Map<usize, Seq<char>>,
)
    requires
        spec_encode_labels(s) == Ok::<Seq<u8>, DnsError>(body),
        0 <= pos,
        pos + body.len() + 1 <= buf.len(),
        buf.subrange(pos, pos + body.len() + 1) == body.push(0),
    ensures
        spec_decode_labels(buf, pos, table) matches Ok((name, end, t)) && name == spec_canon_name(
            s,
        ) && end == pos + body.len() + 1,
    decreases s.len(),
{
    let whole = buf.subrange(pos, pos + body.len() + 1);
    assert(forall|j: int|
        0 <= j < body.len() + 1 ==> buf[pos + j] == #[trigger] body.push(0)[j]) by {
        assert(forall|j: int| 0 <= j < body.len() + 1 ==> #[trigger] whole[j] == buf[pos + j]);
    }
    if s.len() == 0 {
        assert(body.len() == 0);
        assert(buf[pos] == body.push(0)[0]);
        assert(buf[pos] == 0);
    } else {
        lemma_first_dot(s);
        let d = first_dot(s);
        if d == 0 {
            assert(spec_canon_name(s) == spec_canon_name(s.skip(1)));
            lemma_decode_of_encoded_name(buf, pos, s.skip(1), body, table);
        } else if d >= s.len() {
            // a single label with no tail
            let lb = label_bytes(s);
            assert(label_fits(s));
            assert(body == seq![s.len() as u8] + lb);
            assert(body.len() == 1 + s.len());
            assert(d <= s.len());
            assert(1 <= s.len() <= 63);
            assert(buf[pos] == body.push(0)[0]);
            assert(body.push(0)[0] == s.len() as u8);
            let b = buf[pos];
            assert(b == s.len() as u8);
            assert(1 <= b < 64);
            assert(pos + 1 + b <= buf.len());
            assert forall|j: int| 0 <= j < b implies buf.subrange(pos + 1, pos + 1 + b)[j]
                == lb[j] by {
                assert(buf.subrange(pos + 1, pos + 1 + b)[j] == buf[pos + (1 + j)]);
                assert(buf[pos + (1 + j)] == body.push(0)[1 + j]);
                assert(body.push(0)[1 + j] == body[1 + j]);
                assert(body[1 + j] == lb[j]);
            }
            assert(buf.subrange(pos + 1, pos + 1 + b) =~= lb);
            // the byte after the label is the terminator
            assert(buf[pos + 1 + b] == body.push(0)[body.len() as int]);
            assert(buf[pos + 1 + b] == 0);
            assert(spec_decode_labels(buf, pos + 1 + b, table) == Ok::<
                (Seq<char>, int, Map<usize, Seq<char>>),
                DnsError,
            >((Seq::empty(), pos + 2 + b, table)));
            lemma_label_roundtrip(s);
            let name = label_chars(buf.subrange(pos + 1, pos + 1 + b)) + seq!['.']
                + Seq::<char>::empty();
            assert(name =~= s + seq!['.']);
            assert(spec_canon_name(s) == s + seq!['.']);
        } else {
            // a label followed by more of the name
            let label = s.take(d as int);
            let rest = s.skip(d + 1 as int);
            let lb = label_bytes(label);
            let tail = spec_encode_labels(rest)->Ok_0;
            assert(label_fits(label));
            assert(spec_encode_labels(rest) is Ok);
            assert(body == seq![d as u8] + lb + tail);
            assert(body.len() == 1 + d + tail.len());
            assert(buf[pos] == body.push(0)[0]);
            let b = buf[pos];
            assert(b == d as u8);
            assert(1 <= b < 64);
            assert(b == d);
            assert(pos + 1 + b <= buf.len());
            assert forall|j: int| 0 <= j < b implies buf.subrange(pos + 1, pos + 1 + b)[j]
                == lb[j] by {
                assert(buf.subrange(pos + 1, pos + 1 + b)[j] == buf[pos + (1 + j)]);
                assert(buf[pos + (1 + j)] == body.push(0)[1 + j]);
                assert(body.push(0)[1 + j] == body[1 + j]);
                assert(body[1 + j] == (seq![d as u8] + lb)[1 + j]);
                assert((seq![d as u8] + lb)[1 + j] == lb[j]);
            }
            assert(buf.subrange(pos + 1, pos + 1 + b) =~= lb);
            assert(lb.len() == d);
            assert((seq![d as u8] + lb).len() == 1 + d);
            assert forall|j: int| 0 <= j < tail.len() + 1 implies buf.subrange(
                pos + 1 + d,
                pos + 1 + d + tail.len() + 1,
            )[j] == tail.push(0)[j] by {
                assert(buf.subrange(pos + 1 + d, pos + 1 + d + tail.len() + 1)[j] == buf[pos + (1
                    + d + j)]);
                assert(buf[pos + (1 + d + j)] == body.push(0)[1 + d + j]);
                if j < tail.len() {
                    assert(body.push(0)[1 + d + j] == body[1 + d + j]);
                    assert(body[1 + d + j] == ((seq![d as u8] + lb) + tail)[1 + d + j]);
                    assert(((seq![d as u8] + lb) + tail)[1 + d + j] == tail[j]);
                    assert(tail.push(0)[j] == tail[j]);
                } else {
                    assert(1 + d + j == body.len());
                    assert(body.push(0)[body.len() as int] == 0);
                    assert(tail.push(0)[tail.len() as int] == 0);
                }
            }
            assert(buf.subrange(pos + 1 + d, pos + 1 + d + tail.len() + 1) =~= tail.push(0));
            lemma_decode_of_encoded_name(buf, pos + 1 + d, rest, tail, table);
            lemma_label_roundtrip(label);
            let inner = spec_decode_labels(buf, pos + 1 + b, table);
            assert(inner is Ok);
            let (rname, rend, rt) = inner->Ok_0;
            assert(rname == spec_canon_name(rest));
            let name = label_chars(buf.subrange(pos + 1, pos + 1 + b)) + seq!['.'] + rname;
            assert(name =~= label + seq!['.'] + spec_canon_name(rest));
            assert(spec_canon_name(s) == label + seq!['.'] + spec_canon_name(rest));
            assert(rend == pos + body.len() + 1);
        }
    }
}

/// A header's own twelve bytes, whatever follows them, decode back to
/// the header.
pub proof fn lemma_parse_header_roundtrip(h: Header, rest: Seq<u8>)
    ensures
        spec_parse_header(spec_header_bytes(h) + rest, 0) == Ok::<(Header, int), DnsError>((h, 12)),
{
    let hb = spec_header_bytes(h);
    let s = hb + rest;
    assert(hb =~= seq![
        (h.id / 256) as u8,
        (h.id % 256) as u8,
        (h.flags / 256) as u8,
        (h.flags % 256) as u8,
        (h.qdcount / 256) as u8,
        (h.qdcount % 256) as u8,
        (h.ancount / 256) as u8,
        (h.ancount % 256) as u8,
        (h.nscount / 256) as u8,
        (h.nscount % 256) as u8,
        (h.arcount / 256) as u8,
        (h.arcount % 256) as u8,
    ]);
    assert(forall|j: int| 0 <= j < 12 ==> #[trigger] s[j] == hb[j]);
    assert(be16(s[0], s[1]) == h.id);
    assert(be16(s[2], s[3]) == h.flags);
    assert(be16(s[4], s[5]) == h.qdcount);
    assert(be16(s[6], s[7]) == h.ancount);
    assert(be16(s[8], s[9]) == h.nscount);
    assert(be16(s[10], s[11]) == h.arcount);
}

/// Decoding an encoded question from any buffer that embeds it, under
/// any table, yields the question back, its name in canonical form.
pub proof fn lemma_parse_question_of_encoded(
    buf: Seq<u8>,
    pos: int,
    q: QuestionView,
    qb: Seq<u8>,
    table: Map<usize, Seq<char>>,
)
    requires
        spec_encode_question(q) == Ok::<Seq<u8>, DnsError>(qb),
        0 <= pos,
        pos + qb.len() <= buf.len(),
        buf.subrange(pos, pos + qb.len() as int) == qb,
    ensures
        spec_parse_question(buf, pos, table) is Ok,
        spec_parse_question(buf, pos, table)->Ok_0.0.qname == spec_canon_name(q.qname),
        spec_parse_question(buf, pos, table)->Ok_0.0.qtype == q.qtype,
        spec_parse_question(buf, pos, table)->Ok_0.0.qclass == q.qclass,
        spec_parse_question(buf, pos, table)->Ok_0.1 == pos + qb.len(),
{
    let nb = spec_encode_name(q.qname)->Ok_0;
    let body = spec_encode_labels(q.qname)->Ok_0;
    assert(spec_encode_name(q.qname) is Ok);
    assert(nb == body.push(0));
    assert(nb.len() == body.len() + 1);
    let tb = u16_be_bytes(q.qtype.wire_code());
    let cb = u16_be_bytes(q.qclass.wire_code());
    assert(qb == nb + tb + cb);
    assert(qb.len() == nb.len() + 4);
    assert(forall|j: int| 0 <= j < qb.len() ==> buf[pos + j] == #[trigger] qb[j]) by {
        let whole = buf.subrange(pos, pos + qb.len() as int);
        assert(forall|j: int| 0 <= j < qb.len() ==> #[trigger] whole[j] == buf[pos + j]);
    }
    assert(buf.subrange(pos, pos + body.len() + 1) =~= body.push(0)) by {
        assert(forall|j: int| 0 <= j < nb.len() ==> #[trigger] qb[j] == nb[j]);
    }
    lemma_decode_of_encoded_name(buf, pos, q.qname, body, table);
    assert(spec_decode_name(buf, pos, table) matches Ok((name, end, t)) && name
        == spec_canon_name(q.qname) && end == pos + body.len() + 1);
    let p1 = pos + body.len() + 1;
    assert(buf[p1] == qb[nb.len() as int]);
    assert(buf[p1 + 1] == qb[nb.len() + 1 as int]);
    assert(qb[nb.len() as int] == tb[0]);
    assert(qb[nb.len() + 1 as int] == tb[1]);
    assert(be16(buf[p1], buf[p1 + 1]) == q.qtype.wire_code());
    QType::lemma_code_roundtrip(q.qtype);
    let p2 = p1 + 2;
    assert(buf[p2] == qb[nb.len() + 2 as int]);
    assert(buf[p2 + 1] == qb[nb.len() + 3 as int]);
    assert(qb[nb.len() + 2 as int] == cb[0]);
    assert(qb[nb.len() + 3 as int] == cb[1]);
    assert(be16(buf[p2], buf[p2 + 1]) == q.qclass.wire_code());
    QClass::lemma_code_roundtrip(q.qclass);
}

/// A question section of exactly one question serializes to that
/// question's own encoding, and fails exactly when it fails.
proof fn lemma_encode_questions_single(qs: Seq<QuestionView>)
    requires
        qs.len() == 1,
    ensures
        spec_encode_questions(qs) == (match spec_encode_question(qs[0]) {
            Ok(b) => Ok::<Seq<u8>, DnsError>(b),
            Err(e) => Err::<Seq<u8>, DnsError>(e),
        }),
{
    assert(qs.drop_first() =~= Seq::<QuestionView>::empty());
    assert(spec_encode_questions(Seq::<QuestionView>::empty()) == Ok::<Seq<u8>, DnsError>(
        Seq::empty(),
    ));
    match spec_encode_question(qs[0]) {
        Ok(b) => {
            assert(b + Seq::<u8>::empty() =~= b);
        },
        Err(e) => {},
    }
}

/// A buffer whose header announces one question and no records, and
/// whose question decodes at offset 12, decodes as a whole message with
/// exactly that question and empty record sections.
proof fn lemma_parse_message_shape(
    bytes: Seq<u8>,
    h: Header,
    q2: QuestionView,
    end: int,
    t1: Map<usize, Seq<char>>,
)
    requires
        h.qdcount == 1,
        h.ancount == 0,
        h.nscount == 0,
        h.arcount == 0,
        spec_parse_header(bytes, 0) == Ok::<(Header, int), DnsError>((h, 12)),
        spec_parse_question(bytes, 12, Map::<usize, Seq<char>>::empty()) == Ok::<
            (QuestionView, int, Map<usize, Seq<char>>),
            DnsError,
        >((q2, end, t1)),
    ensures
        spec_parse_message(bytes) matches Ok(m2) && m2.header == h && m2.question == seq![q2]
            && m2.answer.len() == 0 && m2.authority.len() == 0 && m2.additional.len() == 0,
{
    let t0 = Map::<usize, Seq<char>>::empty();
    assert(spec_parse_questions(bytes, end, t1, 0) == Ok::<
        (Seq<QuestionView>, int, Map<usize, Seq<char>>),
        DnsError,
    >((Seq::empty(), end, t1)));
    assert(seq![q2] + Seq::<QuestionView>::empty() =~= seq![q2]);
    assert(spec_parse_questions(bytes, 12, t0, 1) == Ok::<
        (Seq<QuestionView>, int, Map<usize, Seq<char>>),
        DnsError,
    >((seq![q2], end, t1)));
    assert(spec_parse_records(bytes, end, t1, 0) == Ok::<
        (Seq<crate::answer::AnswerView>, int, Map<usize, Seq<char>>),
        DnsError,
    >((Seq::empty(), end, t1)));
}

/// The part of a concatenation after the first operand is the second.
proof fn lemma_subrange_of_concat_tail(a: Seq<u8>, b: Seq<u8>)
    ensures
        (a + b).subrange(a.len() as int, a.len() + b.len() as int) == b,
{
    assert forall|j: int| 0 <= j < b.len() implies (a + b).subrange(
        a.len() as int,
        a.len() + b.len() as int,
    )[j] == b[j] by {
        assert((a + b).subrange(a.len() as int, a.len() + b.len() as int)[j] == (a + b)[a.len() + j]);
    }
    assert((a + b).subrange(a.len() as int, a.len() + b.len() as int) =~= b);
}

/// A buffer made of a one-question header and one encoded question
/// decodes to that header and that question, the name canonical.
#[verifier::rlimit(100)]
#[verifier::spinoff_prover]
proof fn lemma_query_round_trip_inner(
    bytes: Seq<u8>,
    h: Header,
    q: QuestionView,
    qb: Seq<u8>,
    hb: Seq<u8>,
)
    requires
        h.qdcount == 1,
        h.ancount == 0,
        h.nscount == 0,
        h.arcount == 0,
        spec_encode_question(q) == Ok::<Seq<u8>, DnsError>(qb),
        hb.len() == 12,
        spec_parse_header(bytes, 0) == Ok::<(Header, int), DnsError>((h, 12)),
        bytes == hb + qb,
    ensures
        spec_parse_message(bytes) is Ok,
        spec_parse_message(bytes)->Ok_0.header == h,
        spec_parse_message(bytes)->Ok_0.question.len() == 1,
        spec_parse_message(bytes)->Ok_0.question[0].qname == spec_canon_name(q.qname),
        spec_parse_message(bytes)->Ok_0.question[0].qtype == q.qtype,
        spec_parse_message(bytes)->Ok_0.question[0].qclass == q.qclass,
        spec_parse_message(bytes)->Ok_0.answer.len() == 0,
        spec_parse_message(bytes)->Ok_0.authority.len() == 0,
        spec_parse_message(bytes)->Ok_0.additional.len() == 0,
{
    lemma_subrange_of_concat_tail(hb, qb);
    assert(bytes.subrange(12, 12 + qb.len() as int) == qb);
    let t0 = Map::<usize, Seq<char>>::empty();
    lemma_parse_question_of_encoded(bytes, 12, q, qb, t0);
    let (q2, end, t1) = spec_parse_question(bytes, 12, t0)->Ok_0;
    lemma_parse_message_shape(bytes, h, q2, end, t1);
    let m2 = spec_parse_message(bytes)->Ok_0;
    assert(m2.question[0] == q2);
    assert(spec_parse_message(bytes) is Ok);
    assert(m2.header == h);
    assert(m2.question.len() == 1);
    assert(m2.question[0].qname == spec_canon_name(q.qname));
    assert(m2.question[0].qtype == q.qtype);
    assert(m2.question[0].qclass == q.qclass);
    assert(m2.answer.len() == 0);
    assert(m2.authority.len() == 0);
    assert(m2.additional.len() == 0);
}

/// The serialized bytes of a one-question message are its header's twelve
/// bytes followed by the question's encoding, and the header decodes back
/// from them.
proof fn lemma_query_bytes_shape(m: MessageView)
    requires
        m.question.len() == 1,
        spec_encode_message(m) is Ok,
    ensures
        spec_encode_question(m.question[0]) is Ok,
        spec_encode_message(m)->Ok_0 == spec_header_bytes(m.header) + spec_encode_question(
            m.question[0],
        )->Ok_0,
        spec_header_bytes(m.header).len() == 12,
        spec_parse_header(spec_encode_message(m)->Ok_0, 0) == Ok::<(Header, int), DnsError>(
            (m.header, 12),
        ),
{
    lemma_encode_questions_single(m.question);
    lemma_parse_header_roundtrip(m.header, spec_encode_question(m.question[0])->Ok_0);
}

#[verifier::rlimit(100)]
#[verifier::spinoff_prover]
pub proof fn lemma_query_round_trip(m: MessageView)
    requires
        m.header.qdcount == 1,
        m.header.ancount == 0,
        m.header.nscount == 0,
        m.header.arcount == 0,
        m.question.len() == 1,
        spec_encode_message(m) is Ok,
    ensures
        ({
            let decoded = spec_parse_message(spec_encode_message(m)->Ok_0);
            &&& decoded is Ok
            &&& decoded->Ok_0.header == m.header
            &&& decoded->Ok_0.question.len() == 1
            &&& decoded->Ok_0.question[0].qname == spec_canon_name(m.question[0].qname)
            &&& decoded->Ok_0.question[0].qtype == m.question[0].qtype
            &&& decoded->Ok_0.question[0].qclass == m.question[0].qclass
            &&& decoded->Ok_0.answer.len() == 0
            &&& decoded->Ok_0.authority.len() == 0
            &&& decoded->Ok_0.additional.len() == 0
        }),
{
    lemma_query_bytes_shape(m);
    lemma_query_round_trip_inner(
        spec_encode_message(m)->Ok_0,
        m.header,
        m.question[0],
        spec_encode_question(m.question[0])->Ok_0,
        spec_header_bytes(m.header),
    );
}

} // verus!
