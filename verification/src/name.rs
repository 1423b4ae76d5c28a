//! Domain-name codec: encodes a dotted name into length-prefixed labels
//! terminated by a zero byte, and decodes labels — following compression
//! pointers — into a dotted name, registering each newly seen label's
//! absolute offset in a table so that later pointers can refer to it.
//!
//! Labels are opaque byte strings; each byte is rendered as the character
//! with the same code point, and a character is written back as its code
//! point, so the encoder rejects any label with a character above 255.

use vstd::prelude::*;

use crate::errors::DnsError;

verus! {

/// The characters a run of label bytes decodes to, one per byte.
pub open spec fn label_chars(bytes: Seq<u8>) -> Seq<char> {
    bytes.map_values(|b: u8| b as char)
}

/// The byte a single name character encodes to: its code point. The
/// encoder rejects any label whose characters do not all lie below 256,
/// so the reduction only keeps this function total.
pub open spec fn char_byte(c: char) -> u8 {
    ((c as int) % 256) as u8
}

/// Whether every character of a label fits in one byte, so that the
/// label can be written to the wire.
pub open spec fn label_fits(label: Seq<char>) -> bool {
    forall|i: int| 0 <= i < label.len() ==> (#[trigger] label[i] as int) < 256
}

/// The bytes a label's characters encode to.
pub open spec fn label_bytes(label: Seq<char>) -> Seq<u8> {
    label.map_values(|c: char| char_byte(c))
}

/// A byte below 256 survives the round trip through a character.
pub proof fn lemma_char_byte_roundtrip(c: char)
    requires
        (c as int) < 256,
    ensures
        char_byte(c) as char == c,
{
}

/// The table of names already decoded from the current message, keyed by
/// the absolute offset (from the start of the message) at which each name
/// begins. It is scoped to one decode of one message and discarded after.
pub struct NameTable {
    entries: Vec<(usize, String)>,
}

/// The mapping that a list of table entries stands for; a later entry for
/// the same offset wins.
pub open spec fn entries_map(s: Seq<(usize, String)>) -> Map<usize, Seq<char>>
    decreases s.len(),
{
    if s.len() == 0 {
        Map::empty()
    } else {
        entries_map(s.drop_last()).insert(s.last().0, s.last().1@)
    }
}

impl View for NameTable {
    type V = Map<usize, Seq<char>>;

    closed spec fn view(&self) -> Map<usize, Seq<char>> {
        entries_map(self.entries@)
    }
}

/// Entries from position `i` on that never mention `off` do not affect
/// what the table says about `off`.
proof fn lemma_entries_map_agree(s: Seq<(usize, String)>, i: int, off: usize)
    requires
        0 <= i <= s.len(),
        forall|j: int| i <= j < s.len() ==> (#[trigger] s[j]).0 != off,
    ensures
        entries_map(s).contains_key(off) == entries_map(s.take(i)).contains_key(off),
        entries_map(s).contains_key(off) ==> entries_map(s)[off] == entries_map(s.take(i))[off],
    decreases s.len() - i,
{
    if i == s.len() {
        assert(s.take(i) =~= s);
    } else {
        lemma_entries_map_agree(s, i + 1, off);
        assert(s.take(i + 1).drop_last() =~= s.take(i));
        assert(s.take(i + 1).last() == s[i]);
    }
}

impl NameTable {
    /// An empty table, for the start of one message decode.
    pub fn new() -> (t: NameTable)
        ensures
            t@ == Map::<usize, Seq<char>>::empty(),
    {
        let t = NameTable { entries: Vec::new() };
        proof {
            assert(t@ =~= Map::<usize, Seq<char>>::empty());
        }
        t
    }

    /// Register `name` as starting at absolute offset `off`.
    pub fn insert(&mut self, off: usize, name: String)
        ensures
            final(self)@ == old(self)@.insert(off, name@),
    {
        proof {
            assert(self.entries@.push((off, name)).drop_last() =~= self.entries@);
        }
        self.entries.push((off, name));
    }

    /// The name registered at offset `off`, if any.
    pub fn get(&self, off: usize) -> (r: Option<String>)
        ensures
            match r {
                Some(name) => self@.contains_key(off) && name@ == self@[off],
                None => !self@.contains_key(off),
            },
    {
        let n = self.entries.len();
        let mut i: usize = n;
        while i > 0
            invariant
                i <= n,
                n == self.entries@.len(),
                forall|j: int| i <= j < n ==> (#[trigger] self.entries@[j]).0 != off,
            decreases i,
        {
            i = i - 1;
            if self.entries[i].0 == off {
                proof {
                    lemma_entries_map_agree(self.entries@, i + 1, off);
                    assert(self.entries@.take(i + 1).drop_last() =~= self.entries@.take(i as int));
                    assert(self.entries@.take(i + 1).last() == self.entries@[i as int]);
                }
                return Some(self.entries[i].1.clone());
            }
        }
        proof {
            lemma_entries_map_agree(self.entries@, 0, off);
            assert(self.entries@.take(0) =~= Seq::<(usize, String)>::empty());
        }
        None
    }
}

/// What reading the run of labels at `pos` yields: the dotted name read
/// from there (every label is followed by a dot), the cursor position
/// after the run, and the table extended with one entry per literal
/// label, mapping the label's offset to the name read from that label
/// onward.
///
/// A length byte with both top bits set is a compression pointer: the next
/// byte completes a 14-bit offset, which must already be registered —
/// pointers only ever lead strictly backward, to a name decoded earlier —
/// and the registered name ends the decode. A zero byte ends the name; the
/// reserved top-bit patterns are rejected.
pub open spec fn spec_decode_labels(
    buf: Seq<u8>,
    pos: int,
    table: Map<usize, Seq<char>>,
) -> Result<(Seq<char>, int, Map<usize, Seq<char>>), DnsError>
    decreases buf.len() - pos,
{
    if pos < 0 || pos >= buf.len() {
        Err(DnsError::TruncatedInput)
    } else {
        let b = buf[pos];
        if b >= 192 {
            if pos + 1 >= buf.len() {
                Err(DnsError::TruncatedInput)
            } else {
                let off = ((b - 192) * 256 + buf[pos + 1]) as usize;
                if table.contains_key(off) {
                    Ok((table[off], pos + 2, table))
                } else {
                    Err(DnsError::DanglingPointer)
                }
            }
        } else if b == 0 {
            Ok((Seq::empty(), pos + 1, table))
        } else if b >= 64 {
            Err(DnsError::InvalidLabelFlag)
        } else {
            if pos + 1 + b > buf.len() {
                Err(DnsError::TruncatedInput)
            } else {
                match spec_decode_labels(buf, pos + 1 + b, table) {
                    Err(e) => Err(e),
                    Ok((rest, end, t)) => {
                        let name = label_chars(buf.subrange(pos + 1, pos + 1 + b)) + seq!['.']
                            + rest;
                        Ok((name, end, t.insert(pos as usize, name)))
                    },
                }
            }
        }
    }
}

/// What decoding the whole name that starts at `pos` yields. On top of
/// the per-label registrations, the complete name is registered at the
/// name's own starting offset, so that a later pointer to this name's
/// start resolves transitively even when the name itself ends in a
/// pointer.
pub open spec fn spec_decode_name(
    buf: Seq<u8>,
    pos: int,
    table: Map<usize, Seq<char>>,
) -> Result<(Seq<char>, int, Map<usize, Seq<char>>), DnsError> {
    match spec_decode_labels(buf, pos, table) {
        Err(e) => Err(e),
        Ok((name, end, t)) => Ok((name, end, t.insert(pos as usize, name))),
    }
}

/// Relies on std's String::push: appends one character at the end.
#[verifier::external_body]
fn push_char(s: &mut String, c: char)
    ensures
        final(s)@ == old(s)@.push(c),
{
    s.push(c);
}

/// The characters of the byte range `[from, to)`, one per byte.
pub(crate) fn chars_of_range(buf: &Vec<u8>, from: usize, to: usize) -> (s: String)
    requires
        from <= to <= buf@.len(),
    ensures
        s@ == label_chars(buf@.subrange(from as int, to as int)),
{
    let mut s = String::new();
    let mut i: usize = from;
    while i < to
        invariant
            from <= i <= to <= buf@.len(),
            s@ == label_chars(buf@.subrange(from as int, i as int)),
        decreases to - i,
    {
        let c = buf[i] as char;
        push_char(&mut s, c);
        i = i + 1;
        proof {
            assert(s@ =~= label_chars(buf@.subrange(from as int, i as int)));
        }
    }
    proof {
        assert(s@ =~= label_chars(buf@.subrange(from as int, to as int)));
    }
    s
}

/// Read the run of labels at absolute position `pos`, registering every
/// literal label's offset in the table.
fn decode_labels(buf: &Vec<u8>, pos: usize, table: &mut NameTable) -> (r: Result<
    (String, usize),
    DnsError,
>)
    ensures
        match spec_decode_labels(buf@, pos as int, old(table)@) {
            Ok((name, end, t)) => r matches Ok((s, p)) && s@ == name && p == end && final(table)@
                == t,
            Err(e) => r == Err::<(String, usize), DnsError>(e) && final(table)@ == old(table)@,
        },
    decreases buf@.len() - pos,
{
    if pos >= buf.len() {
        return Err(DnsError::TruncatedInput);
    }
    let b = buf[pos];
    if b >= 192 {
        if pos + 1 >= buf.len() {
            return Err(DnsError::TruncatedInput);
        }
        let off = (b - 192) as usize * 256 + buf[pos + 1] as usize;
        match table.get(off) {
            Some(name) => Ok((name, pos + 2)),
            None => Err(DnsError::DanglingPointer),
        }
    } else if b == 0 {
        Ok((String::new(), pos + 1))
    } else if b >= 64 {
        Err(DnsError::InvalidLabelFlag)
    } else {
        let blen = b as usize;
        if buf.len() - pos - 1 < blen {
            return Err(DnsError::TruncatedInput);
        }
        let mut name = chars_of_range(buf, pos + 1, pos + 1 + blen);
        match decode_labels(buf, pos + 1 + blen, table) {
            Err(e) => Err(e),
            Ok((rest, end)) => {
                name.append(".");
                name.append(rest.as_str());
                proof {
                    reveal_strlit(".");
                    assert(name@ =~= label_chars(buf@.subrange(pos as int + 1, pos + 1 + blen))
                        + seq!['.'] + rest@);
                }
                table.insert(pos, name.clone());
                Ok((name, end))
            },
        }
    }
}

/// Decode the domain name that starts at absolute position `pos`. Every
/// literal label's offset is registered in the table, and so is the whole
/// name at its starting offset, so that a later pointer to this name
/// resolves even when the name itself ended in a pointer.
pub fn decode_name(buf: &Vec<u8>, pos: usize, table: &mut NameTable) -> (r: Result<
    (String, usize),
    DnsError,
>)
    ensures
        match spec_decode_name(buf@, pos as int, old(table)@) {
            Ok((name, end, t)) => r matches Ok((s, p)) && s@ == name && p == end && final(table)@
                == t,
            Err(e) => r == Err::<(String, usize), DnsError>(e) && final(table)@ == old(table)@,
        },
{
    match decode_labels(buf, pos, table) {
        Err(e) => Err(e),
        Ok((name, end)) => {
            table.insert(pos, name.clone());
            Ok((name, end))
        },
    }
}

/// Index of the first dot in `s`, or `s.len()` when there is none.
pub open spec fn first_dot(s: Seq<char>) -> nat
    decreases s.len(),
{
    if s.len() == 0 {
        0
    } else if s[0] == '.' {
        0
    } else {
        1 + first_dot(s.drop_first())
    }
}

/// `first_dot` names the first dot: nothing before it is a dot, and the
/// character there — if any — is one.
pub proof fn lemma_first_dot(s: Seq<char>)
    ensures
        first_dot(s) <= s.len(),
        forall|j: int| 0 <= j < first_dot(s) ==> s[j] != '.',
        first_dot(s) < s.len() ==> s[first_dot(s) as int] == '.',
    decreases s.len(),
{
    if s.len() == 0 {
    } else if s[0] == '.' {
    } else {
        lemma_first_dot(s.drop_first());
        assert forall|j: int| 0 <= j < first_dot(s) implies s[j] != '.' by {
            if j > 0 {
                assert(s.drop_first()[j - 1] != '.');
            }
        }
    }
}

/// Any position with no dot before it and a dot (or the end) at it is
/// `first_dot`.
pub proof fn lemma_first_dot_unique(s: Seq<char>, k: int)
    requires
        0 <= k <= s.len(),
        forall|j: int| 0 <= j < k ==> s[j] != '.',
        k < s.len() ==> s[k] == '.',
    ensures
        first_dot(s) == k,
    decreases s.len(),
{
    if s.len() == 0 {
    } else if s[0] == '.' {
        assert(k == 0);
    } else {
        assert(s[0] != '.');
        assert(k >= 1);
        lemma_first_dot_unique(s.drop_first(), k - 1);
    }
}

/// The wire encoding of a dotted name's labels: each non-empty label
/// becomes one length byte followed by its bytes; empty labels are
/// skipped. A label longer than 63 bytes, or one with a character that
/// does not fit in one byte, cannot be encoded.
pub open spec fn spec_encode_labels(s: Seq<char>) -> Result<Seq<u8>, DnsError>
    decreases s.len(),
{
    if s.len() == 0 {
        Ok(Seq::empty())
    } else {
        let d = first_dot(s);
        if d == 0 {
            spec_encode_labels(s.skip(1))
        } else if d > 63 {
            Err(DnsError::LabelTooLong)
        } else if d >= s.len() {
            if label_fits(s) {
                Ok(seq![s.len() as u8] + label_bytes(s))
            } else {
                Err(DnsError::LabelTooLong)
            }
        } else {
            if label_fits(s.take(d as int)) {
                match spec_encode_labels(s.skip(d + 1 as int)) {
                    Err(e) => Err(e),
                    Ok(tail) => Ok(seq![d as u8] + label_bytes(s.take(d as int)) + tail),
                }
            } else {
                Err(DnsError::LabelTooLong)
            }
        }
    }
}

/// The full wire encoding of a name: its labels followed by the zero
/// terminator, rejected when the whole exceeds 255 bytes.
pub open spec fn spec_encode_name(s: Seq<char>) -> Result<Seq<u8>, DnsError> {
    match spec_encode_labels(s) {
        Err(e) => Err(e),
        Ok(body) => if body.len() + 1 > 255 {
            Err(DnsError::NameTooLong)
        } else {
            Ok(body.push(0))
        },
    }
}

/// The canonical dotted form of a name: its non-empty labels, each
/// followed by one dot. Decoding an encoded name yields this form.
pub open spec fn spec_canon_name(s: Seq<char>) -> Seq<char>
    decreases s.len(),
{
    if s.len() == 0 {
        Seq::empty()
    } else {
        let d = first_dot(s);
        if d == 0 {
            spec_canon_name(s.skip(1))
        } else if d >= s.len() {
            s + seq!['.']
        } else {
            s.take(d as int) + seq!['.'] + spec_canon_name(s.skip(d + 1 as int))
        }
    }
}

/// Append the wire encoding of `name` to `out`; on an encoding error the
/// buffer is left exactly as it was.
pub fn encode_name(name: &str, out: &mut Vec<u8>) -> (r: Result<(), DnsError>)
    ensures
        match spec_encode_name(name@) {
            Ok(bytes) => r == Ok::<(), DnsError>(()) && final(out)@ == old(out)@ + bytes,
            Err(e) => r == Err::<(), DnsError>(e) && final(out)@ == old(out)@,
        },
{
    let n = name.unicode_len();
    let mut body: Vec<u8> = Vec::new();
    let mut i: usize = 0;
    proof {
        assert(name@.skip(0) =~= name@);
    }
    while i < n
        invariant
            i <= n,
            n == name@.len(),
            spec_encode_labels(name@) == (match spec_encode_labels(name@.skip(i as int)) {
                Ok(tail) => Ok::<Seq<u8>, DnsError>(body@ + tail),
                Err(e) => Err::<Seq<u8>, DnsError>(e),
            }),
        decreases n - i,
    {
        // find the end of the current label
        let mut j: usize = i;
        while j < n && name.get_char(j) != '.'
            invariant
                i <= j <= n,
                n == name@.len(),
                forall|k: int| i <= k < j ==> name@[k] != '.',
            decreases n - j,
        {
            j = j + 1;
        }
        proof {
            assert(forall|k: int| 0 <= k < j - i ==> name@.skip(i as int)[k] != '.');
            lemma_first_dot_unique(name@.skip(i as int), j - i);
        }
        if j == i {
            // empty label: skip the dot
            proof {
                assert(name@.skip(i as int).skip(1) =~= name@.skip(i as int + 1));
            }
            i = i + 1;
        } else if j - i > 63 {
            proof {
                assert(spec_encode_labels(name@.skip(i as int)) == Err::<Seq<u8>, DnsError>(
                    DnsError::LabelTooLong,
                ));
            }
            return Err(DnsError::LabelTooLong);
        } else {
            let ghost prev_body = body@;
            body.push((j - i) as u8);
            let mut k: usize = i;
            while k < j
                invariant
                    i <= k <= j <= n,
                    i < j,
                    j - i <= 63,
                    n == name@.len(),
                    first_dot(name@.skip(i as int)) == j - i,
                    forall|t: int| i <= t < k ==> (#[trigger] name@[t] as int) < 256,
                    body@ == prev_body + seq![(j - i) as u8] + label_bytes(
                        name@.subrange(i as int, k as int),
                    ),
                    spec_encode_labels(name@) == (match spec_encode_labels(name@.skip(i as int)) {
                        Ok(tail) => Ok::<Seq<u8>, DnsError>(prev_body + tail),
                        Err(e) => Err::<Seq<u8>, DnsError>(e),
                    }),
                decreases j - k,
            {
                let c = name.get_char(k);
                let code = c as u32;
                if code > 255 {
                    proof {
                        let rem = name@.skip(i as int);
                        let d = first_dot(rem);
                        assert(d == j - i);
                        let label = if d >= rem.len() {
                            rem
                        } else {
                            rem.take(d as int)
                        };
                        assert(label[k - i] == name@[k as int]);
                        assert(!label_fits(label));
                        assert(spec_encode_labels(rem) == Err::<Seq<u8>, DnsError>(
                            DnsError::LabelTooLong,
                        ));
                    }
                    return Err(DnsError::LabelTooLong);
                }
                body.push(code as u8);
                k = k + 1;
                proof {
                    assert(body@ =~= prev_body + seq![(j - i) as u8] + label_bytes(
                        name@.subrange(i as int, k as int),
                    ));
                }
            }
            let next_i = if j < n {
                j + 1
            } else {
                n
            };
            proof {
                let rem = name@.skip(i as int);
                let d = first_dot(rem);
                assert(d == j - i);
                assert(rem.take(d as int) =~= name@.subrange(i as int, j as int));
                assert(label_fits(rem.take(d as int))) by {
                    assert(forall|t: int|
                        0 <= t < d ==> #[trigger] rem.take(d as int)[t] == name@[i + t]);
                }
                if j < n {
                    assert(rem.skip(d + 1 as int) =~= name@.skip(j as int + 1));
                } else {
                    assert(rem.len() == d);
                    assert(rem.take(d as int) =~= rem);
                    assert(label_fits(rem));
                    assert(name@.skip(n as int) =~= Seq::<char>::empty());
                }
                match spec_encode_labels(name@.skip(next_i as int)) {
                    Ok(tail) => {
                        assert(spec_encode_labels(rem) == Ok::<Seq<u8>, DnsError>(
                            seq![d as u8] + label_bytes(rem.take(d as int)) + tail,
                        ));
                        assert(prev_body + (seq![d as u8] + label_bytes(rem.take(d as int)) + tail)
                            =~= body@ + tail);
                    },
                    Err(e) => {
                        assert(spec_encode_labels(rem) == Err::<Seq<u8>, DnsError>(e));
                    },
                }
            }
            i = next_i;
        }
    }
    proof {
        assert(name@.skip(n as int) =~= Seq::<char>::empty());
        assert(body@ + Seq::<u8>::empty() =~= body@);
    }
    if body.len() >= 255 {
        return Err(DnsError::NameTooLong);
    }
    body.push(0);
    let ghost full = body@;
    proof {
        assert(full == spec_encode_name(name@)->Ok_0);
    }
    out.append(&mut body);
    Ok(())
}

} // verus!
