//! The literal parsers: numeric literals (digit sequences with an
//! optional sign and fractional part), boolean keywords, the empty
//! literal, and single-line string literals.

use vstd::prelude::*;
use vstd::slice::{slice_subrange, slice_to_vec};

use crate::combinators::{one_or_more_digits, optionally, spec_digits};
use crate::parse_error::ParseError;
use crate::pointer::{
    consumed_ok, is_line_break, lemma_consumed_bounds, lemma_consumed_refl, lemma_consumed_trans,
    lemma_cursor_after_no_breaks, Pointer,
};
use crate::tokens::{
    binary_operator_sub, decimal, keyword_emp, keyword_false, keyword_true, spec_match, Tok,
};
use crate::Digit;

verus! {

/// A literal expression.
#[derive(Debug, PartialEq, Eq)]
pub enum Literal {
    Bln(Bln),
    Str(Str),
    Num(Num),
    Emp(Emp),
}

/// A boolean literal.
#[derive(Debug, PartialEq, Eq)]
pub struct Bln(pub bool);

/// A string literal: the text between the quotes.
#[derive(Debug, PartialEq, Eq)]
pub struct Str(pub Vec<u8>);

/// A numeric literal: the sign and the digit sequences of the integral
/// and fractional parts, kept as digits rather than a computed value.
#[derive(Debug, PartialEq, Eq)]
pub struct Num {
    /// True when the literal carried a leading minus sign.
    pub negative: bool,
    pub integer: Vec<Digit>,
    pub decimal: Vec<Digit>,
}

/// The empty literal.
#[derive(Debug, PartialEq, Eq)]
pub struct Emp(pub ());

/// What parsing a numeric literal returns: an optional leading minus
/// sign, one or more digits, and optionally a decimal point followed by
/// one or more digits; the value is the sign and the two digit runs.
pub open spec fn spec_numeric(s: Seq<u8>) -> Result<
    (Seq<u8>, (bool, Seq<Digit>, Seq<Digit>)),
    ParseError,
> {
    let (neg, r1) = match spec_match(Tok::BinaryOperatorSub, s) {
        Ok(r) => (true, r),
        Err(_) => (false, s),
    };
    match spec_digits(r1) {
        Err(e) => Err(e),
        Ok((r2, int_ds)) => match spec_match(Tok::Decimal, r2) {
            Err(_) => Ok((r2, (neg, int_ds, Seq::empty()))),
            Ok(r3) => match spec_digits(r3) {
                Err(e) => Err(e),
                Ok((r4, frac_ds)) => Ok((r4, (neg, int_ds, frac_ds))),
            },
        },
    }
}

/// Parses a numeric literal.
pub fn numeric<'a>(i: &'a [u8], ptr: Pointer) -> (r: Result<(&'a [u8], Pointer, Num), ParseError>)
    requires
        ptr.row + i@.len() <= usize::MAX,
        ptr.col + i@.len() <= usize::MAX,
    ensures
        match r {
            Ok((rest, p2, n)) => {
                &&& spec_numeric(i@) == Ok::<(Seq<u8>, (bool, Seq<Digit>, Seq<Digit>)), ParseError>(
                    (rest@, (n.negative, n.integer@, n.decimal@)),
                )
                &&& consumed_ok(i@, ptr, rest@, p2)
            },
            Err(e) => spec_numeric(i@) == Err::<
                (Seq<u8>, (bool, Seq<Digit>, Seq<Digit>)),
                ParseError,
            >(e),
        },
{
    let (i1, p1, sign) = optionally(i, ptr, &binary_operator_sub);
    proof {
        if sign is None {
            let e = choose|e: ParseError|
                binary_operator_sub.ensures((i, ptr), Err::<(&[u8], Pointer, Tok), ParseError>(e));
            assert(spec_match(Tok::BinaryOperatorSub, i@) == Err::<Seq<u8>, ParseError>(e));
            lemma_consumed_refl(i@, ptr);
        }
        lemma_consumed_bounds(i@, ptr, i1@, p1);
    }
    let neg = sign.is_some();
    match one_or_more_digits(i1, p1) {
        Err(e) => Err(e),
        Ok((i2, p2, int_part)) => {
            proof {
                lemma_consumed_trans(i@, ptr, i1@, p1, i2@, p2);
                lemma_consumed_bounds(i@, ptr, i2@, p2);
            }
            match decimal(i2, p2) {
                Err(_) => Ok(
                    (
                        i2,
                        p2,
                        Num { negative: neg, integer: int_part, decimal: Vec::new() },
                    ),
                ),
                Ok((i3, p3, _dot)) => {
                    proof {
                        lemma_consumed_trans(i@, ptr, i2@, p2, i3@, p3);
                        lemma_consumed_bounds(i@, ptr, i3@, p3);
                    }
                    match one_or_more_digits(i3, p3) {
                        Err(e) => Err(e),
                        Ok((i4, p4, frac)) => {
                            proof {
                                lemma_consumed_trans(i@, ptr, i3@, p3, i4@, p4);
                            }
                            Ok((i4, p4, Num { negative: neg, integer: int_part, decimal: frac }))
                        },
                    }
                },
            }
        },
    }
}

/// What parsing a boolean literal returns: the `true` keyword, else the
/// `false` keyword, else the failure of the `false` attempt.
pub open spec fn spec_boolean(s: Seq<u8>) -> Result<(Seq<u8>, bool), ParseError> {
    match spec_match(Tok::KeywordTrue, s) {
        Ok(r) => Ok((r, true)),
        Err(_) => match spec_match(Tok::KeywordFalse, s) {
            Ok(r) => Ok((r, false)),
            Err(e) => Err(e),
        },
    }
}

/// Parses a boolean literal.
pub fn boolean<'a>(i: &'a [u8], ptr: Pointer) -> (r: Result<(&'a [u8], Pointer, Bln), ParseError>)
    requires
        ptr.row + i@.len() <= usize::MAX,
        ptr.col + i@.len() <= usize::MAX,
    ensures
        match r {
            Ok((rest, p2, b)) => {
                &&& spec_boolean(i@) == Ok::<(Seq<u8>, bool), ParseError>((rest@, b.0))
                &&& consumed_ok(i@, ptr, rest@, p2)
            },
            Err(e) => spec_boolean(i@) == Err::<(Seq<u8>, bool), ParseError>(e),
        },
{
    match keyword_true(i, ptr) {
        Ok((rest, p2, _t)) => Ok((rest, p2, Bln(true))),
        Err(_) => match keyword_false(i, ptr) {
            Ok((rest, p2, _t)) => Ok((rest, p2, Bln(false))),
            Err(e) => Err(e),
        },
    }
}

/// What parsing the empty literal returns: the rest after the `___`
/// keyword.
pub open spec fn spec_empty(s: Seq<u8>) -> Result<Seq<u8>, ParseError> {
    spec_match(Tok::KeywordEmp, s)
}

/// Parses the empty literal.
pub fn empty<'a>(i: &'a [u8], ptr: Pointer) -> (r: Result<(&'a [u8], Pointer, Emp), ParseError>)
    requires
        ptr.row + i@.len() <= usize::MAX,
        ptr.col + i@.len() <= usize::MAX,
    ensures
        match r {
            Ok((rest, p2, _v)) => {
                &&& spec_empty(i@) == Ok::<Seq<u8>, ParseError>(rest@)
                &&& consumed_ok(i@, ptr, rest@, p2)
            },
            Err(e) => spec_empty(i@) == Err::<Seq<u8>, ParseError>(e),
        },
{
    match keyword_emp(i, ptr) {
        Ok((rest, p2, _t)) => Ok((rest, p2, Emp(()))),
        Err(e) => Err(e),
    }
}

/// What scanning a string body returns: the bytes up to the closing
/// quote and the rest after it.  A line break, or the end of the input,
/// before the closing quote leaves the literal unterminated: strings
/// cannot span lines.
pub open spec fn spec_str_scan(s: Seq<u8>) -> Result<(Seq<u8>, Seq<u8>), ParseError>
    decreases s.len(),
{
    if s.len() == 0 {
        Err(ParseError::UnterminatedStringLiteral)
    } else if s[0] == '"' as u8 {
        Ok((s.skip(1), Seq::empty()))
    } else if is_line_break(s[0]) {
        Err(ParseError::UnterminatedStringLiteral)
    } else {
        match spec_str_scan(s.skip(1)) {
            Ok((rest, c)) => Ok((rest, seq![s[0]] + c)),
            Err(e) => Err(e),
        }
    }
}

/// Scanning after a clean prefix: when the first `k` bytes are neither
/// quotes nor line breaks, the scan keeps them as content and goes on
/// behind them.
proof fn lemma_str_scan_prefix(s: Seq<u8>, k: int)
    requires
        0 <= k <= s.len(),
        forall|j: int| 0 <= j < k ==> s[j] != '"' as u8 && !is_line_break(s[j]),
    ensures
        spec_str_scan(s) == match spec_str_scan(s.skip(k)) {
            Ok((rest, c)) => Ok::<(Seq<u8>, Seq<u8>), ParseError>((rest, s.take(k) + c)),
            Err(e) => Err::<(Seq<u8>, Seq<u8>), ParseError>(e),
        },
    decreases k,
{
    if k == 0 {
        assert(s.skip(0) =~= s);
        match spec_str_scan(s) {
            Ok((rest, c)) => {
                assert(s.take(0) + c =~= c);
            },
            Err(_) => {},
        }
    } else {
        assert(s.len() > 0 && s[0] != '"' as u8 && !is_line_break(s[0]));
        assert forall|j: int| 0 <= j < k - 1 implies s.skip(1)[j] != '"' as u8 && !is_line_break(
            s.skip(1)[j],
        ) by {
            assert(s.skip(1)[j] == s[j + 1]);
        }
        lemma_str_scan_prefix(s.skip(1), k - 1);
        assert(s.skip(1).skip(k - 1) =~= s.skip(k));
        match spec_str_scan(s.skip(k)) {
            Ok((rest, c)) => {
                assert(s.take(k) + c =~= seq![s[0]] + (s.skip(1).take(k - 1) + c));
            },
            Err(_) => {},
        }
    }
}

/// What parsing a string literal returns: a leading quote, the body up
/// to the closing quote, and the rest after it.
pub open spec fn spec_string(s: Seq<u8>) -> Result<(Seq<u8>, Seq<u8>), ParseError> {
    match spec_match(Tok::Quote, s) {
        Err(e) => Err(e),
        Ok(r) => spec_str_scan(r),
    }
}

/// Parses a string literal.
pub fn string<'a>(i: &'a [u8], ptr: Pointer) -> (r: Result<(&'a [u8], Pointer, Str), ParseError>)
    requires
        ptr.row + i@.len() <= usize::MAX,
        ptr.col + i@.len() <= usize::MAX,
    ensures
        match r {
            Ok((rest, p2, v)) => {
                &&& spec_string(i@) == Ok::<(Seq<u8>, Seq<u8>), ParseError>((rest@, v.0@))
                &&& consumed_ok(i@, ptr, rest@, p2)
            },
            Err(e) => spec_string(i@) == Err::<(Seq<u8>, Seq<u8>), ParseError>(e),
        },
{
    let (r1, p1, _quote) = match crate::tokens::quote(i, ptr) {
        Ok(x) => x,
        Err(e) => {
            return Err(e);
        },
    };
    proof {
        lemma_consumed_bounds(i@, ptr, r1@, p1);
    }
    let mut k: usize = 0;
    loop
        invariant
            k <= r1@.len(),
            forall|j: int| 0 <= j < k ==> r1@[j] != '"' as u8 && !is_line_break(r1@[j]),
            spec_string(i@) == spec_str_scan(r1@),
            consumed_ok(i@, ptr, r1@, p1),
            ptr.row + i@.len() <= usize::MAX,
            ptr.col + i@.len() <= usize::MAX,
            p1.row + r1@.len() <= usize::MAX,
            p1.col + r1@.len() <= usize::MAX,
        decreases r1@.len() - k,
    {
        if k >= r1.len() {
            proof {
                lemma_str_scan_prefix(r1@, r1@.len() as int);
                assert(r1@.skip(r1@.len() as int).len() == 0);
            }
            return Err(ParseError::UnterminatedStringLiteral);
        }
        let b = r1[k];
        if b == '"' as u8 {
            proof {
                lemma_str_scan_prefix(r1@, k as int);
                assert(r1@.skip(k as int)[0] == r1@[k as int]);
            }
            let content = slice_subrange(r1, 0, k);
            let rest = slice_subrange(r1, k + 1, r1.len());
            proof {
                assert(rest@ =~= r1@.skip(k as int).skip(1));
                assert(r1@.take(k as int) + Seq::<u8>::empty() =~= r1@.take(k as int));
                // the consumed body and closing quote hold no line break
                assert(forall|j: int|
                    0 <= j < k + 1 ==> !is_line_break(#[trigger] r1@.take(k + 1 as int)[j]));
                lemma_cursor_after_no_breaks(p1.row as int, p1.col as int, r1@.take(k + 1 as int));
            }
            let p2 = p1.add_col(k + 1);
            proof {
                assert(consumed_ok(r1@, p1, rest@, p2));
                lemma_consumed_trans(i@, ptr, r1@, p1, rest@, p2);
            }
            return Ok((rest, p2, Str(slice_to_vec(content))));
        }
        if b == '\n' as u8 || b == '\r' as u8 {
            proof {
                lemma_str_scan_prefix(r1@, k as int);
                assert(r1@.skip(k as int)[0] == r1@[k as int]);
            }
            return Err(ParseError::UnterminatedStringLiteral);
        }
        k = k + 1;
    }
}

} // verus!
