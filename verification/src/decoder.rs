//! The stream decoder: it owns the rolling text buffer that reassembles
//! arbitrarily cut byte chunks into complete records, and turns each push
//! of a chunk into the content fragments those records carry, in order.
//! Any malformed record is fatal: the decoder reports a typed error with
//! the offending text and accepts nothing further.
use crate::sse::{
    contains_newline, lemma_find_term_some, spec_find_term, spec_record_outcome, spec_records,
    spec_word_end, ErrorKind, RecordOutcome, find_term, record_outcome,
};
use crate::text::trimmed;
use crate::text::{chars_to_string, subrange_vec, utf8_to_chars};
use vstd::prelude::*;

verus! {

broadcast use vstd::seq::group_seq_axioms;

/// Why the stream was aborted; the text of the offending record rides
/// along.
#[derive(Debug)]
pub enum StreamError {
    /// A chunk is not valid UTF-8.
    Encoding,
    /// A record is not one `name:value` line.
    EventFormat(String),
    /// A record names a field other than `data`.
    UnknownField(String),
    /// A data value is neither the sentinel nor a well-formed event
    /// payload.
    Payload(String),
    /// The source ended inside an unterminated record.
    Truncated(String),
}

/// The error that a failing record with kind `k` and text `ctx` produces.
pub open spec fn matches_error(e: StreamError, k: ErrorKind, ctx: Seq<char>) -> bool {
    match e {
        StreamError::EventFormat(s) => k == ErrorKind::EventFormat && s@ == ctx,
        StreamError::UnknownField(s) => k == ErrorKind::UnknownField && s@ == ctx,
        StreamError::Payload(s) => k == ErrorKind::Payload && s@ == ctx,
        _ => false,
    }
}

/// Decodes a record list: the fragments of its records in order, or the
/// first fatal record's kind and text.
pub open spec fn spec_decode_records(recs: Seq<Seq<char>>) -> Result<
    Seq<Seq<char>>,
    (ErrorKind, Seq<char>),
>
    decreases recs.len(),
{
    if recs.len() == 0 {
        Ok(Seq::empty())
    } else {
        match spec_record_outcome(recs[0]) {
            RecordOutcome::Fail(k) => Err((k, recs[0])),
            RecordOutcome::Token(t) => match spec_decode_records(recs.drop_first()) {
                Ok(ts) => Ok(seq![t] + ts),
                Err(e) => Err(e),
            },
            RecordOutcome::NoToken => spec_decode_records(recs.drop_first()),
        }
    }
}

/// One push of decoded text: the carried remainder with the text appended
/// is cut into records; the new remainder and the decoded outcome.
pub open spec fn spec_push(residual: Seq<char>, text: Seq<char>) -> (
    Seq<char>,
    Result<Seq<Seq<char>>, (ErrorKind, Seq<char>)>,
) {
    let r = spec_records(residual + text);
    (r.1, spec_decode_records(r.0))
}

/// The decoder: a rolling buffer of text not yet ended by a blank line,
/// and whether a fatal record has been seen.
pub struct Decoder {
    buf: Vec<char>,
    failed: bool,
}

impl Decoder {
    /// The text carried forward, waiting for its terminator.
    pub closed spec fn residual(&self) -> Seq<char> {
        self.buf@
    }

    /// Whether a fatal condition has ended the stream.
    pub closed spec fn is_failed(&self) -> bool {
        self.failed
    }

    pub fn new() -> (r: Decoder)
        ensures
            r.residual() == Seq::<char>::empty(),
            !r.is_failed(),
    {
        Decoder { buf: Vec::new(), failed: false }
    }

    /// Feeds one chunk of bytes. The chunk must be valid UTF-8, or the
    /// stream fails; its text joins the carried remainder, every complete
    /// record is decoded, and the fragments they carry come back in order.
    /// The first malformed record fails the stream with its text, and no
    /// fragment of this push is delivered.
    #[verifier::loop_isolation(false)]
    pub fn push_chunk(&mut self, chunk: &[u8]) -> (r: Result<Vec<String>, StreamError>)
        requires
            !old(self).is_failed(),
        ensures
            ({
                if !vstd::utf8::valid_utf8(chunk@) {
                    &&& r matches Err(e) && e is Encoding
                    &&& final(self).is_failed()
                } else {
                    let text = vstd::utf8::decode_utf8(chunk@);
                    let pr = spec_push(old(self).residual(), text);
                    match pr.1 {
                        Ok(toks) => {
                            &&& r matches Ok(v) && v.deep_view() == toks
                            &&& final(self).residual() == pr.0
                            &&& !final(self).is_failed()
                        },
                        Err(e2) => {
                            &&& r matches Err(e) && matches_error(e, e2.0, e2.1)
                            &&& final(self).is_failed()
                        },
                    }
                }
            }),
    {
        let mut text = match utf8_to_chars(chunk) {
            None => {
                self.failed = true;
                return Err(StreamError::Encoding);
            },
            Some(t) => t,
        };
        self.buf.append(&mut text);
        let ghost all = self.buf@;
        let ghost recs_all = spec_records(all).0;
        let ghost rem_all = spec_records(all).1;
        proof {
            assert(all.skip(0) =~= all);
            assert(recs_all.skip(0) =~= recs_all);
        }
        let mut tokens: Vec<String> = Vec::new();
        let ghost mut ridx: int = 0;
        let mut done = false;
        while !done
            invariant
                self.failed == false,
                0 <= ridx <= recs_all.len(),
                spec_records(self.buf@) == (recs_all.skip(ridx), rem_all),
                done ==> spec_find_term(self.buf@, 0) is None,
                spec_decode_records(recs_all) == (match spec_decode_records(
                    recs_all.skip(ridx),
                ) {
                    Ok(ts) => Ok(tokens.deep_view() + ts),
                    Err(e) => Err(e),
                }),
            decreases (if done {
                0int
            } else {
                self.buf@.len() + 1int
            }),
        {
            match find_term(self.buf.as_slice()) {
                None => {
                    done = true;
                },
                Some(i) => {
                    proof {
                        assert(i + 2 <= self.buf@.len());
                        vstd::std_specs::vec::axiom_spec_len(&self.buf);
                    }
                    let rec = subrange_vec(self.buf.as_slice(), 0, i);
                    let rest = subrange_vec(self.buf.as_slice(), i + 2, self.buf.len());
                    proof {
                        assert(rec@ =~= self.buf@.take(i as int));
                        assert(rest@ =~= self.buf@.skip(i as int + 2));
                        assert(recs_all.skip(ridx).len() > 0);
                        assert(recs_all.skip(ridx)[0] == rec@);
                        assert(spec_records(rest@) == (
                            recs_all.skip(ridx).drop_first(),
                            rem_all,
                        ));
                        assert(recs_all.skip(ridx).drop_first() =~= recs_all.skip(ridx + 1));
                    }
                    self.buf = rest;
                    let out = record_outcome(rec.as_slice());
                    match out.1 {
                        Some(k) => {
                            self.failed = true;
                            let ctx = chars_to_string(rec.as_slice());
                            let e = match k {
                                ErrorKind::EventFormat => StreamError::EventFormat(ctx),
                                ErrorKind::UnknownField => StreamError::UnknownField(ctx),
                                ErrorKind::Payload => StreamError::Payload(ctx),
                            };
                            return Err(e);
                        },
                        None => {
                            match out.0 {
                                Some(tv) => {
                                    let ghost old_dv = tokens.deep_view();
                                    tokens.push(chars_to_string(tv.as_slice()));
                                    proof {
                                        assert(tokens.deep_view() =~= old_dv.push(tv@));
                                        ridx = ridx + 1;
                                        assert(match spec_decode_records(recs_all.skip(ridx)) {
                                            Ok(ts) => old_dv.push(tv@) + ts =~= old_dv + (
                                            seq![tv@] + ts),
                                            Err(_) => true,
                                        });
                                    }
                                },
                                None => {
                                    proof {
                                        ridx = ridx + 1;
                                    }
                                },
                            }
                        },
                    }
                },
            }
        }
        proof {
            assert(recs_all.skip(ridx) =~= Seq::<Seq<char>>::empty());
            assert(tokens.deep_view() + Seq::<Seq<char>>::empty() =~= tokens.deep_view());
        }
        Ok(tokens)
    }

    /// Ends the stream: the source is exhausted. Text still waiting for a
    /// terminator means the stream was cut inside a record.
    pub fn finish(&self) -> (r: Result<(), StreamError>)
        ensures
            self.residual().len() == 0 ==> r is Ok,
            self.residual().len() > 0 ==> (r matches Err(e) && (e matches StreamError::Truncated(
                s,
            ) && s@ == self.residual())),
    {
        if self.buf.len() == 0 {
            Ok(())
        } else {
            Err(StreamError::Truncated(chars_to_string(self.buf.as_slice())))
        }
    }
}

proof fn lemma_find_term_append(s: Seq<char>, t: Seq<char>, j: int, i: int)
    requires
        0 <= j,
        spec_find_term(s, j) == Some(i),
    ensures
        spec_find_term(s + t, j) == Some(i),
    decreases s.len() - j,
{
    assert((s + t)[j] == s[j]);
    assert((s + t)[j + 1] == s[j + 1]);
    if !(s[j] == '\n' && s[j + 1] == '\n') {
        lemma_find_term_append(s, t, j + 1, i);
    }
}

/// Appending more text does not disturb the records already cut: cutting
/// `s + t` yields the records of `s` followed by those of `s`'s remainder
/// joined with `t`, and that joint remainder.
pub proof fn lemma_records_append(s: Seq<char>, t: Seq<char>)
    ensures
        ({
            let r1 = spec_records(s);
            let r2 = spec_records(r1.1 + t);
            spec_records(s + t) == (r1.0 + r2.0, r2.1)
        }),
    decreases s.len(),
{
    let r1 = spec_records(s);
    match spec_find_term(s, 0) {
        Some(i) => {
            lemma_find_term_some(s, 0, i);
            lemma_find_term_append(s, t, 0, i);
            assert((s + t).skip(i + 2) =~= s.skip(i + 2) + t);
            assert((s + t).take(i) =~= s.take(i));
            lemma_records_append(s.skip(i + 2), t);
            let a = spec_records(s.skip(i + 2));
            let b = spec_records(a.1 + t);
            assert(seq![s.take(i)] + (a.0 + b.0) =~= (seq![s.take(i)] + a.0) + b.0);
        },
        None => {
            assert(r1.1 + t == s + t);
            assert(Seq::<Seq<char>>::empty() + spec_records(s + t).0 =~= spec_records(s + t).0);
        },
    }
}

/// Decoding a joined record list: an error in the first part wins; else
/// the first part's fragments come before the second's.
pub proof fn lemma_decode_append(r1: Seq<Seq<char>>, r2: Seq<Seq<char>>)
    ensures
        ({
            match spec_decode_records(r1) {
                Err(e) => spec_decode_records(r1 + r2) == Err::<Seq<Seq<char>>, _>(e),
                Ok(t1) => match spec_decode_records(r2) {
                    Ok(t2) => spec_decode_records(r1 + r2) == Ok::<_, (ErrorKind, Seq<char>)>(
                        t1 + t2,
                    ),
                    Err(e) => spec_decode_records(r1 + r2) == Err::<Seq<Seq<char>>, _>(e),
                },
            }
        }),
    decreases r1.len(),
{
    if r1.len() == 0 {
        assert(r1 + r2 =~= r2);
        match spec_decode_records(r2) {
            Ok(t2) => {
                assert(Seq::<Seq<char>>::empty() + t2 =~= t2);
            },
            Err(_) => (),
        }
    } else {
        assert((r1 + r2)[0] == r1[0]);
        assert((r1 + r2).drop_first() =~= r1.drop_first() + r2);
        lemma_decode_append(r1.drop_first(), r2);
        match spec_record_outcome(r1[0]) {
            RecordOutcome::Token(tk) => {
                match spec_decode_records(r1.drop_first()) {
                    Ok(t1r) => {
                        match spec_decode_records(r2) {
                            Ok(t2) => {
                                assert(seq![tk] + (t1r + t2) =~= (seq![tk] + t1r) + t2);
                            },
                            Err(_) => (),
                        }
                    },
                    Err(_) => (),
                }
            },
            _ => (),
        }
    }
}

/// Chunk boundaries are immaterial: pushing text `a` and then text `b`
/// leaves the same remainder as pushing `a + b` at once, and the
/// fragments of the two pushes, concatenated, are those of the one push;
/// a failure seen either way is the same failure.
pub proof fn lemma_chunk_split(res: Seq<char>, a: Seq<char>, b: Seq<char>)
    ensures
        ({
            let first = spec_push(res, a);
            let second = spec_push(first.0, b);
            let joined = spec_push(res, a + b);
            &&& joined.0 == second.0
            &&& (match first.1 {
                Err(e1) => joined.1 == Err::<Seq<Seq<char>>, _>(e1),
                Ok(t1) => match second.1 {
                    Ok(t2) => joined.1 == Ok::<_, (ErrorKind, Seq<char>)>(t1 + t2),
                    Err(e2) => joined.1 == Err::<Seq<Seq<char>>, _>(e2),
                },
            })
        }),
{
    assert((res + a) + b =~= res + (a + b));
    lemma_records_append(res + a, b);
    lemma_decode_append(spec_records(res + a).0, spec_records(spec_records(res + a).1 + b).0);
}

/// The fragments the records of a list carry, in order: one for each
/// record whose outcome is a token.
pub open spec fn spec_fragments(recs: Seq<Seq<char>>) -> Seq<Seq<char>>
    decreases recs.len(),
{
    if recs.len() == 0 {
        Seq::empty()
    } else {
        match spec_record_outcome(recs[0]) {
            RecordOutcome::Token(t) => seq![t] + spec_fragments(recs.drop_first()),
            _ => spec_fragments(recs.drop_first()),
        }
    }
}

/// A well-formed stream delivers exactly its fragments: when no record is
/// fatal, decoding succeeds with the records' fragments, in order.
pub proof fn lemma_decode_well_formed(recs: Seq<Seq<char>>)
    requires
        forall|i: int| 0 <= i < recs.len() ==> !(#[trigger] spec_record_outcome(recs[i]) is Fail),
    ensures
        spec_decode_records(recs) == Ok::<_, (ErrorKind, Seq<char>)>(spec_fragments(recs)),
    decreases recs.len(),
{
    if recs.len() > 0 {
        assert forall|i: int| 0 <= i < recs.drop_first().len() implies !(
        #[trigger] spec_record_outcome(recs.drop_first()[i]) is Fail) by {
            assert(recs.drop_first()[i] == recs[i + 1]);
        }
        lemma_decode_well_formed(recs.drop_first());
    }
}

/// The end-of-content sentinel yields no token and ends nothing: a `data`
/// record whose trimmed value is `[DONE]` has outcome `NoToken`, and
/// appending it to any record list decodes exactly as without it.
pub proof fn lemma_done_sentinel(rec: Seq<char>, recs: Seq<Seq<char>>)
    requires
        rec.len() > 0,
        ({
            let p = spec_word_end(rec, 0);
            &&& p > 0
            &&& p < rec.len() && rec[p] == ':'
            &&& !contains_newline(rec.skip(p + 1))
            &&& rec.take(p) == "data"@
            &&& trimmed(rec.skip(p + 1)) == "[DONE]"@
        }),
    ensures
        spec_record_outcome(rec) == RecordOutcome::NoToken,
        spec_decode_records(recs.push(rec)) == spec_decode_records(recs),
{
    lemma_decode_append(recs, seq![rec]);
    assert(spec_record_outcome(rec) == RecordOutcome::NoToken);
    assert(seq![rec].drop_first() =~= Seq::<Seq<char>>::empty());
    assert(seq![rec][0] == rec);
    assert(spec_decode_records(Seq::<Seq<char>>::empty()) == Ok::<_, (ErrorKind, Seq<char>)>(
        Seq::<Seq<char>>::empty(),
    ));
    assert(spec_decode_records(seq![rec]) == Ok::<_, (ErrorKind, Seq<char>)>(
        Seq::<Seq<char>>::empty(),
    ));
    assert(recs + seq![rec] =~= recs.push(rec));
    match spec_decode_records(recs) {
        Ok(t1) => {
            assert(t1 + Seq::<Seq<char>>::empty() =~= t1);
        },
        Err(_) => (),
    }
}

} // verus!
