//! The generic combinators the grammar is built from.  All of them are
//! pure functions over a `(remaining input, cursor)` pair: failure never
//! touches shared state, so backtracking is simply calling the next
//! parser on the original arguments.
//!
//! Alternation and repetition are specialised to the element parsers
//! they are used with, so that each carries an exact contract: `one_of`
//! ranges over the token matchers, the digit repetition lives here, and
//! the repetition over types lives beside the type grammar.  Negative
//! lookahead is the plain predicate `matches_token` (callers fail when
//! it answers `true`), not a result with success and failure swapped.

use vstd::prelude::*;

use crate::parse_error::ParseError;
use crate::pointer::{
    consumed_ok, lemma_consumed_bounds, lemma_consumed_trans, Pointer,
};
use crate::tokens::{match_token, spec_match, Tok};
use crate::whitespace::lemma_ws_len_le;
use crate::{digit, spec_digit, Digit};

verus! {

/// True exactly when the token `t` stands, after leading whitespace, at
/// the front of `i`.  This is the negative lookahead: a caller that must
/// *not* see `t` fails when this answers `true`.  It consumes nothing.
pub fn matches_token(i: &[u8], ptr: Pointer, t: Tok) -> (b: bool)
    requires
        ptr.row + i@.len() <= usize::MAX,
        ptr.col + i@.len() <= usize::MAX,
    ensures
        b == (spec_match(t, i@) is Ok),
{
    match match_token(i, ptr, t) {
        Ok(_) => true,
        Err(_) => false,
    }
}

/// What trying a list of tokens in order returns: the first that
/// matches wins; when all fail the failure is generic, not a composite
/// of the individual errors.
pub open spec fn spec_one_of(ts: Seq<Tok>, s: Seq<u8>) -> Result<(Seq<u8>, Tok), ParseError>
    decreases ts.len(),
{
    if ts.len() == 0 {
        Err(ParseError::NoMatch)
    } else {
        match spec_match(ts[0], s) {
            Ok(rest) => Ok((rest, ts[0])),
            Err(_) => spec_one_of(ts.skip(1), s),
        }
    }
}

/// Tries each token matcher in order and returns the first success.
/// Order matters for ambiguous grammars: first match wins, there is no
/// longest-match rule.
pub fn one_of<'a>(i: &'a [u8], ptr: Pointer, toks: &[Tok]) -> (r: Result<
    (&'a [u8], Pointer, Tok),
    ParseError,
>)
    requires
        ptr.row + i@.len() <= usize::MAX,
        ptr.col + i@.len() <= usize::MAX,
    ensures
        match r {
            Ok((rest, p2, v)) => {
                &&& spec_one_of(toks@, i@) == Ok::<(Seq<u8>, Tok), ParseError>((rest@, v))
                &&& consumed_ok(i@, ptr, rest@, p2)
            },
            Err(e) => spec_one_of(toks@, i@) == Err::<(Seq<u8>, Tok), ParseError>(e),
        },
{
    let mut j: usize = 0;
    proof {
        assert(toks@.skip(0) =~= toks@);
    }
    while j < toks.len()
        invariant
            j <= toks@.len(),
            ptr.row + i@.len() <= usize::MAX,
            ptr.col + i@.len() <= usize::MAX,
            spec_one_of(toks@.skip(j as int), i@) == spec_one_of(toks@, i@),
        decreases toks@.len() - j,
    {
        let t = toks[j];
        match match_token(i, ptr, t) {
            Ok(res) => {
                proof {
                    assert(toks@.skip(j as int)[0] == toks@[j as int]);
                }
                return Ok(res);
            },
            Err(_) => {
                proof {
                    assert(toks@.skip(j as int)[0] == toks@[j as int]);
                    assert(toks@.skip(j as int).skip(1) =~= toks@.skip(j + 1 as int));
                }
                j = j + 1;
            },
        }
    }
    Err(ParseError::NoMatch)
}

/// Leading whitespace is insignificant to an alternation over tokens.
pub proof fn lemma_spec_one_of_ws_prefix(ts: Seq<Tok>, w: Seq<u8>, s: Seq<u8>)
    requires
        forall|j: int| 0 <= j < w.len() ==> crate::whitespace::is_ws_byte(w[j]),
    ensures
        spec_one_of(ts, w + s) == spec_one_of(ts, s),
    decreases ts.len(),
{
    if ts.len() > 0 {
        crate::tokens::lemma_spec_match_ws_prefix(ts[0], w, s);
        lemma_spec_one_of_ws_prefix(ts.skip(1), w, s);
    }
}

/// Trailing whitespace is insignificant to an alternation over tokens.
pub proof fn lemma_spec_one_of_app(ts: Seq<Tok>, s: Seq<u8>, w: Seq<u8>)
    requires
        forall|j: int| 0 <= j < w.len() ==> crate::whitespace::is_ws_byte(w[j]),
    ensures
        spec_one_of(ts, s + w) == match spec_one_of(ts, s) {
            Ok((r, t)) => Ok::<(Seq<u8>, Tok), ParseError>((r + w, t)),
            Err(e) => Err::<(Seq<u8>, Tok), ParseError>(e),
        },
    decreases ts.len(),
{
    if ts.len() > 0 {
        crate::tokens::lemma_spec_match_app(ts[0], s, w);
        lemma_spec_one_of_app(ts.skip(1), s, w);
    }
}

/// Runs `f`; on failure, hands back the original input and cursor with
/// no value rather than propagating the error.  Total: it never fails.
pub fn optionally<'a, T, F: Fn(&'a [u8], Pointer) -> Result<(&'a [u8], Pointer, T), ParseError>>(
    i: &'a [u8],
    ptr: Pointer,
    f: &F,
) -> (r: (&'a [u8], Pointer, Option<T>))
    requires
        f.requires((i, ptr)),
    ensures
        match r.2 {
            Some(_) => f.ensures((i, ptr), Ok((r.0, r.1, r.2->Some_0))),
            None => {
                &&& r.0@ == i@
                &&& r.1 == ptr
                &&& exists|e: ParseError| f.ensures((i, ptr), Err(e))
            },
        },
{
    match f(i, ptr) {
        Ok(res) => (res.0, res.1, Some(res.2)),
        Err(_) => (i, ptr, None),
    }
}

/// What a run of digit parses collects: digits one after the other,
/// stopping at the first failure.  Total; the run may be empty.  Each
/// parse consumes input, which is recorded in the guard so that the
/// recursion is well-founded.
pub open spec fn spec_digit_run(s: Seq<u8>) -> (Seq<u8>, Seq<Digit>)
    decreases s.len(),
{
    match spec_digit(s) {
        Err(_) => (s, Seq::empty()),
        Ok((r, d)) => {
            if r.len() < s.len() {
                let (r2, ds) = spec_digit_run(r);
                (r2, seq![d] + ds)
            } else {
                (r, seq![d])
            }
        },
    }
}

/// What one-or-more digit parses return: the digit run, or the error of
/// the first attempt when the run is empty.
pub open spec fn spec_digits(s: Seq<u8>) -> Result<(Seq<u8>, Seq<Digit>), ParseError> {
    match spec_digit(s) {
        Err(e) => Err(e),
        Ok(_) => Ok(spec_digit_run(s)),
    }
}

/// A successful digit parse consumes at least one byte.
proof fn lemma_spec_digit_consumes(s: Seq<u8>)
    ensures
        spec_digit(s) is Ok ==> (spec_digit(s)->Ok_0).0.len() < s.len(),
{
    lemma_ws_len_le(s);
}

/// Parses one or more digits, without separators; fails with the first
/// attempt's error when no digit is found at all.
pub fn one_or_more_digits<'a>(i: &'a [u8], ptr: Pointer) -> (r: Result<
    (&'a [u8], Pointer, Vec<Digit>),
    ParseError,
>)
    requires
        ptr.row + i@.len() <= usize::MAX,
        ptr.col + i@.len() <= usize::MAX,
    ensures
        match r {
            Ok((rest, p2, ds)) => {
                &&& spec_digits(i@) == Ok::<(Seq<u8>, Seq<Digit>), ParseError>((rest@, ds@))
                &&& consumed_ok(i@, ptr, rest@, p2)
            },
            Err(e) => spec_digits(i@) == Err::<(Seq<u8>, Seq<Digit>), ParseError>(e),
        },
{
    let mut found: Vec<Digit> = Vec::new();
    let mut cur: &[u8] = i;
    let mut p: Pointer = ptr;
    match digit(i, ptr) {
        Err(e) => {
            return Err(e);
        },
        Ok((r1, p1, d)) => {
            proof {
                lemma_spec_digit_consumes(i@);
            }
            found.push(d);
            cur = r1;
            p = p1;
        },
    }
    proof {
        assert(spec_digit_run(i@).0 == spec_digit_run(cur@).0 && spec_digit_run(i@).1 =~= found@
            + spec_digit_run(cur@).1);
    }
    loop
        invariant
            consumed_ok(i@, ptr, cur@, p),
            ptr.row + i@.len() <= usize::MAX,
            ptr.col + i@.len() <= usize::MAX,
            spec_digits(i@) is Ok,
            spec_digit_run(i@).0 == spec_digit_run(cur@).0,
            spec_digit_run(i@).1 == found@ + spec_digit_run(cur@).1,
        decreases cur@.len(),
    {
        proof {
            lemma_consumed_bounds(i@, ptr, cur@, p);
        }
        match digit(cur, p) {
            Err(_) => {
                proof {
                    assert(spec_digit_run(cur@) == (cur@, Seq::<Digit>::empty()));
                    assert(spec_digit_run(i@).1 =~= found@);
                }
                return Ok((cur, p, found));
            },
            Ok((r1, p1, d)) => {
                proof {
                    lemma_spec_digit_consumes(cur@);
                    assert(seq![d] + spec_digit_run(r1@).1 == spec_digit_run(cur@).1);
                    assert(found@ + spec_digit_run(cur@).1 =~= found@.push(d) + spec_digit_run(
                        r1@,
                    ).1);
                    lemma_consumed_trans(i@, ptr, cur@, p, r1@, p1);
                }
                found.push(d);
                cur = r1;
                p = p1;
            },
        }
    }
}

} // verus!
