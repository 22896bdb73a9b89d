//! Framing of the event stream: a growing text buffer is cut into records
//! at blank lines (two consecutive line feeds), and each record is read as
//! `name:value`. Only the `data` field is recognized; its value is either
//! the end-of-content sentinel or a chat stream event payload.
use crate::event::{event_content, is_valid_event};
use crate::json::{spec_parse_document, parse_document};
use crate::text::{
    chars_eq_str, is_word_char, subrange_vec, trim_chars, trimmed, word_char,
};
use vstd::prelude::*;

verus! {

broadcast use vstd::seq::group_seq_axioms;

/// Why a record is fatal to the stream.
#[derive(Clone, Copy, Debug, PartialEq, Eq, Structural)]
pub enum ErrorKind {
    /// The record does not have the form `name:value` on a single line.
    EventFormat,
    /// The field name is not `data`.
    UnknownField,
    /// The data value is not a well-formed chat stream event payload.
    Payload,
}

/// Position of the first blank-line terminator at or after `i`.
pub open spec fn spec_find_term(s: Seq<char>, i: int) -> Option<int>
    decreases s.len() - i,
{
    if i < 0 || i + 2 > s.len() {
        None
    } else if s[i] == '\n' && s[i + 1] == '\n' {
        Some(i)
    } else {
        spec_find_term(s, i + 1)
    }
}

pub proof fn lemma_find_term_some(s: Seq<char>, i: int, j: int)
    requires
        0 <= i,
        spec_find_term(s, i) == Some(j),
    ensures
        i <= j,
        j + 2 <= s.len(),
        s[j] == '\n' && s[j + 1] == '\n',
    decreases s.len() - i,
{
    if !(i + 2 > s.len()) && !(s[i] == '\n' && s[i + 1] == '\n') {
        lemma_find_term_some(s, i + 1, j);
    }
}

#[via_fn]
proof fn spec_records_dec(s: Seq<char>) {
    match spec_find_term(s, 0) {
        Some(i) => lemma_find_term_some(s, 0, i),
        None => (),
    }
}

/// Cuts the buffer into complete records and the retained remainder: each
/// record is the text before the next blank-line terminator; what follows
/// the last terminator is carried forward.
pub open spec fn spec_records(s: Seq<char>) -> (Seq<Seq<char>>, Seq<char>)
    decreases s.len(),
        via spec_records_dec
{
    match spec_find_term(s, 0) {
        Some(i) => {
            let (rs, rem) = spec_records(s.skip(i + 2));
            (seq![s.take(i)] + rs, rem)
        },
        None => (Seq::empty(), s),
    }
}

/// Position of the first non-word character at or after `i`.
pub open spec fn spec_word_end(s: Seq<char>, i: int) -> int
    decreases s.len() - i,
{
    if 0 <= i < s.len() && is_word_char(s[i]) {
        spec_word_end(s, i + 1)
    } else {
        i
    }
}

pub open spec fn contains_newline(s: Seq<char>) -> bool {
    exists|i: int| 0 <= i < s.len() && s[i] == '\n'
}

/// What one record means: a token to emit, nothing, or a fatal error.
pub enum RecordOutcome {
    Token(Seq<char>),
    NoToken,
    Fail(ErrorKind),
}

/// The outcome of one record. An empty record is skipped. The record must
/// be one `name:value` line; only the name `data` is recognized. A value
/// whose trimmed text is the sentinel `[DONE]` yields nothing; any other
/// value must parse as a well-formed chat stream event payload, whose first
/// choice may carry a content fragment.
pub open spec fn spec_record_outcome(rec: Seq<char>) -> RecordOutcome {
    if rec.len() == 0 {
        RecordOutcome::NoToken
    } else {
        let p = spec_word_end(rec, 0);
        if p == 0 || !(p < rec.len() && rec[p] == ':') || contains_newline(rec.skip(p + 1)) {
            RecordOutcome::Fail(ErrorKind::EventFormat)
        } else if rec.take(p) != "data"@ {
            RecordOutcome::Fail(ErrorKind::UnknownField)
        } else {
            let val = trimmed(rec.skip(p + 1));
            if val == "[DONE]"@ {
                RecordOutcome::NoToken
            } else {
                match spec_parse_document(val) {
                    None => RecordOutcome::Fail(ErrorKind::Payload),
                    Some(v) => if !is_valid_event(v) {
                        RecordOutcome::Fail(ErrorKind::Payload)
                    } else {
                        match event_content(v) {
                            Some(c) => RecordOutcome::Token(c),
                            None => RecordOutcome::NoToken,
                        }
                    },
                }
            }
        }
    }
}

/// Finds the first blank-line terminator in the buffer.
pub fn find_term(s: &[char]) -> (r: Option<usize>)
    ensures
        match r {
            Some(i) => spec_find_term(s@, 0) == Some(i as int) && i + 2 <= s@.len(),
            None => spec_find_term(s@, 0) is None,
        },
{
    if s.len() < 2 {
        return None;
    }
    let mut i: usize = 0;
    while i <= s.len() - 2
        invariant
            s@.len() >= 2,
            0 <= i <= s@.len() - 1,
            spec_find_term(s@, 0) == spec_find_term(s@, i as int),
        decreases s@.len() - i,
    {
        if s[i] == '\n' && s[i + 1] == '\n' {
            return Some(i);
        }
        i = i + 1;
    }
    None
}

fn word_end(s: &[char], i: usize) -> (r: usize)
    requires
        i <= s@.len(),
    ensures
        r as int == spec_word_end(s@, i as int),
        i <= r <= s@.len(),
{
    let mut k = i;
    while k < s.len() && word_char(s[k])
        invariant
            i <= k <= s@.len(),
            spec_word_end(s@, i as int) == spec_word_end(s@, k as int),
        decreases s@.len() - k,
    {
        k = k + 1;
    }
    k
}

fn contains_nl(s: &[char], lo: usize) -> (r: bool)
    requires
        lo <= s@.len(),
    ensures
        r == contains_newline(s@.skip(lo as int)),
{
    let mut i = lo;
    while i < s.len()
        invariant
            lo <= i <= s@.len(),
            forall|m: int| lo <= m < i ==> s@[m] != '\n',
        decreases s@.len() - i,
    {
        if s[i] == '\n' {
            proof {
                assert(s@.skip(lo as int)[i - lo] == '\n');
            }
            return true;
        }
        i = i + 1;
    }
    proof {
        assert forall|m: int| 0 <= m < s@.skip(lo as int).len() implies s@.skip(lo as int)[m]
            != '\n' by {
            assert(s@.skip(lo as int)[m] == s@[m + lo]);
        }
    }
    false
}

/// Reads one record, returning exactly what `spec_record_outcome` says.
pub fn record_outcome(rec: &[char]) -> (r: (Option<Vec<char>>, Option<ErrorKind>))
    ensures
        match spec_record_outcome(rec@) {
            RecordOutcome::Token(t) => r.1 is None && (r.0 matches Some(v) && v@ == t),
            RecordOutcome::NoToken => r.1 is None && r.0 is None,
            RecordOutcome::Fail(k) => r.0 is None && r.1 == Some(k),
        },
{
    if rec.len() == 0 {
        return (None, None);
    }
    let p = word_end(rec, 0);
    if p == 0 || p >= rec.len() || rec[p] != ':' {
        return (None, Some(ErrorKind::EventFormat));
    }
    if contains_nl(rec, p + 1) {
        return (None, Some(ErrorKind::EventFormat));
    }
    let name = subrange_vec(rec, 0, p);
    proof {
        assert(name@ == rec@.take(p as int));
    }
    if !chars_eq_str(name.as_slice(), "data") {
        return (None, Some(ErrorKind::UnknownField));
    }
    let rawval = subrange_vec(rec, p + 1, rec.len());
    proof {
        assert(rawval@ =~= rec@.skip(p as int + 1));
    }
    let val = trim_chars(rawval.as_slice());
    if chars_eq_str(val.as_slice(), "[DONE]") {
        return (None, None);
    }
    match parse_document(val.as_slice()) {
        None => (None, Some(ErrorKind::Payload)),
        Some(node) => match crate::event::event_fragment(&node) {
            None => (None, Some(ErrorKind::Payload)),
            Some(c) => match c {
                Some(cv) => (Some(cv), None),
                None => (None, None),
            },
        },
    }
}

} // verus!
