//! A backtracking recursive-descent parser for the type expressions of a
//! small experimental language, built from small reusable pieces: a
//! row/column cursor, whitespace-skipping literal token matchers, literal
//! parsers (identifiers, digit runs, booleans, strings), and the recursive
//! type grammar (primitives, tuples, functions, records, and a postfix
//! group modifier).
//!
//! Every parser is a pure function over a `(remaining input, cursor)`
//! pair: failure never consumes input, so retrying an alternative is
//! simply calling the next parser on the original arguments.  Each
//! executable parser is verified against a specification-level parser
//! over byte sequences, and the cursor a parser returns is proved to
//! reflect exactly the text it consumed.

use vstd::prelude::*;
use vstd::slice::{slice_subrange, slice_to_vec};
use vstd::string::StringSliceAdditionalSpecFns;

pub mod combinators;
pub mod literal;
pub mod number;
pub mod parse_error;
pub mod pointer;
pub mod tokens;
pub mod types;
pub mod utils;
pub mod whitespace;

use crate::combinators::matches_token;
use crate::parse_error::ParseError;
use crate::pointer::{
    consumed_ok, lemma_consumed_bounds, lemma_consumed_trans, lemma_cursor_after_no_breaks,
    Pointer,
};
use crate::tokens::{spec_match, Tok};
use crate::whitespace::{whitespace, ws_len};

verus! {

/// One decimal digit.  Numeric literals are stored as ordered sequences
/// of digits, not as parsed numbers: interpretation is deferred so that
/// no precision is lost at parse time.
#[derive(Debug, Ord, PartialOrd, Eq, PartialEq, Copy, Clone)]
pub enum Digit {
    Zero,
    One,
    Two,
    Three,
    Four,
    Five,
    Six,
    Seven,
    Eight,
    Nine,
}

impl Default for Digit {
    fn default() -> (r: Self)
        ensures
            r == Digit::Zero,
    {
        Digit::Zero
    }
}

/// A byte holding one of the ten decimal digit characters.
pub open spec fn is_digit_byte(b: u8) -> bool {
    '0' as u8 <= b <= '9' as u8
}

/// The digit a digit byte stands for.
pub open spec fn digit_of_byte(b: u8) -> Digit {
    if b == '0' as u8 {
        Digit::Zero
    } else if b == '1' as u8 {
        Digit::One
    } else if b == '2' as u8 {
        Digit::Two
    } else if b == '3' as u8 {
        Digit::Three
    } else if b == '4' as u8 {
        Digit::Four
    } else if b == '5' as u8 {
        Digit::Five
    } else if b == '6' as u8 {
        Digit::Six
    } else if b == '7' as u8 {
        Digit::Seven
    } else if b == '8' as u8 {
        Digit::Eight
    } else {
        Digit::Nine
    }
}

/// The character a digit prints as.
pub open spec fn digit_char(d: Digit) -> char {
    match d {
        Digit::Zero => '0',
        Digit::One => '1',
        Digit::Two => '2',
        Digit::Three => '3',
        Digit::Four => '4',
        Digit::Five => '5',
        Digit::Six => '6',
        Digit::Seven => '7',
        Digit::Eight => '8',
        Digit::Nine => '9',
    }
}

impl Digit {
    /// The canonical text of this digit.
    pub fn token(&self) -> (r: &'static str)
        ensures
            r@ == seq![digit_char(*self)],
    {
        match self {
            Digit::Zero => {
                proof {
                    reveal_strlit("0");
                }
                "0"
            },
            Digit::One => {
                proof {
                    reveal_strlit("1");
                }
                "1"
            },
            Digit::Two => {
                proof {
                    reveal_strlit("2");
                }
                "2"
            },
            Digit::Three => {
                proof {
                    reveal_strlit("3");
                }
                "3"
            },
            Digit::Four => {
                proof {
                    reveal_strlit("4");
                }
                "4"
            },
            Digit::Five => {
                proof {
                    reveal_strlit("5");
                }
                "5"
            },
            Digit::Six => {
                proof {
                    reveal_strlit("6");
                }
                "6"
            },
            Digit::Seven => {
                proof {
                    reveal_strlit("7");
                }
                "7"
            },
            Digit::Eight => {
                proof {
                    reveal_strlit("8");
                }
                "8"
            },
            Digit::Nine => {
                proof {
                    reveal_strlit("9");
                }
                "9"
            },
        }
    }

    /// The digit a digit byte stands for.
    pub fn from_byte(b: u8) -> (d: Digit)
        requires
            is_digit_byte(b),
        ensures
            d == digit_of_byte(b),
    {
        if b == '0' as u8 {
            Digit::Zero
        } else if b == '1' as u8 {
            Digit::One
        } else if b == '2' as u8 {
            Digit::Two
        } else if b == '3' as u8 {
            Digit::Three
        } else if b == '4' as u8 {
            Digit::Four
        } else if b == '5' as u8 {
            Digit::Five
        } else if b == '6' as u8 {
            Digit::Six
        } else if b == '7' as u8 {
            Digit::Seven
        } else if b == '8' as u8 {
            Digit::Eight
        } else {
            Digit::Nine
        }
    }
}

/// What parsing one digit returns: after the leading whitespace there
/// must stand a digit byte; an empty input is a generic failure, any
/// other byte reports that a digit was expected.
pub open spec fn spec_digit(s: Seq<u8>) -> Result<(Seq<u8>, Digit), ParseError> {
    let rest = s.skip(ws_len(s) as int);
    if rest.len() == 0 {
        Err(ParseError::NoMatch)
    } else if is_digit_byte(rest[0]) {
        Ok((rest.skip(1), digit_of_byte(rest[0])))
    } else {
        Err(ParseError::ExpectedDigit)
    }
}

/// Parses one decimal digit after skipping whitespace.
pub fn digit<'a>(i: &'a [u8], ptr: Pointer) -> (r: Result<(&'a [u8], Pointer, Digit), ParseError>)
    requires
        ptr.row + i@.len() <= usize::MAX,
        ptr.col + i@.len() <= usize::MAX,
    ensures
        match r {
            Ok((rest, p2, d)) => {
                &&& spec_digit(i@) == Ok::<(Seq<u8>, Digit), ParseError>((rest@, d))
                &&& consumed_ok(i@, ptr, rest@, p2)
            },
            Err(e) => spec_digit(i@) == Err::<(Seq<u8>, Digit), ParseError>(e),
        },
{
    let (rest0, p1) = whitespace(i, ptr);
    if rest0.len() == 0 {
        return Err(ParseError::NoMatch);
    }
    let b = rest0[0];
    if b >= '0' as u8 && b <= '9' as u8 {
        proof {
            lemma_consumed_bounds(i@, ptr, rest0@, p1);
        }
        let p2 = p1.add_col(1);
        let out = slice_subrange(rest0, 1, rest0.len());
        proof {
            assert(out@ =~= rest0@.skip(1));
            assert(rest0@.take(1) =~= seq![rest0@[0]]);
            lemma_cursor_after_no_breaks(p1.row as int, p1.col as int, rest0@.take(1));
            assert(consumed_ok(rest0@, p1, out@, p2));
            lemma_consumed_trans(i@, ptr, rest0@, p1, out@, p2);
        }
        Ok((out, p2, Digit::from_byte(b)))
    } else {
        Err(ParseError::ExpectedDigit)
    }
}

/// An identifier: owned text made of ASCII letters and underscores that
/// neither starts with a reserved keyword nor runs into an infinity
/// sigil.
#[derive(Debug, Ord, PartialOrd, Eq, PartialEq, Clone)]
pub struct Identifier(pub Vec<u8>);

/// A byte that may appear in an identifier.
pub open spec fn is_ident_byte(b: u8) -> bool {
    ||| 'a' as u8 <= b <= 'z' as u8
    ||| 'A' as u8 <= b <= 'Z' as u8
    ||| b == '_' as u8
}

/// The length of the identifier run at the front of `s`.
pub open spec fn ident_len(s: Seq<u8>) -> nat
    decreases s.len(),
{
    if s.len() > 0 && is_ident_byte(s[0]) {
        (1 + ident_len(s.skip(1))) as nat
    } else {
        0
    }
}

/// The identifier run never runs past the end of the input.
pub proof fn lemma_ident_len_le(s: Seq<u8>)
    ensures
        ident_len(s) <= s.len(),
    decreases s.len(),
{
    if s.len() > 0 && is_ident_byte(s[0]) {
        lemma_ident_len_le(s.skip(1));
    }
}

/// Every byte of the identifier run is an identifier byte.
pub proof fn lemma_ident_len_bytes(s: Seq<u8>)
    ensures
        forall|j: int| 0 <= j < ident_len(s) ==> is_ident_byte(s[j]),
    decreases s.len(),
{
    if s.len() > 0 && is_ident_byte(s[0]) {
        lemma_ident_len_le(s);
        lemma_ident_len_le(s.skip(1));
        lemma_ident_len_bytes(s.skip(1));
        assert forall|j: int| 0 <= j < ident_len(s) implies is_ident_byte(s[j]) by {
            if j > 0 {
                assert(s.skip(1)[j - 1] == s[j]);
            }
        }
    }
}

/// The identifier run ends at the end of the input or just before a
/// byte that cannot appear in an identifier.
pub proof fn lemma_ident_len_stop(s: Seq<u8>)
    ensures
        ident_len(s) < s.len() ==> !is_ident_byte(s[ident_len(s) as int]),
    decreases s.len(),
{
    if s.len() > 0 && is_ident_byte(s[0]) {
        lemma_ident_len_le(s.skip(1));
        lemma_ident_len_stop(s.skip(1));
        if ident_len(s) < s.len() {
            assert(s.skip(1)[ident_len(s.skip(1)) as int] == s[ident_len(s) as int]);
        }
    }
}

/// `ident_len` is the unique cut `k` with identifier bytes before it
/// and, unless the input ends there, another byte at it.
pub proof fn lemma_ident_len_is(s: Seq<u8>, k: int)
    requires
        0 <= k <= s.len(),
        forall|j: int| 0 <= j < k ==> is_ident_byte(s[j]),
        k == s.len() || !is_ident_byte(s[k]),
    ensures
        ident_len(s) == k,
    decreases s.len(),
{
    if k == 0 {
        if s.len() > 0 {
            assert(!is_ident_byte(s[0]));
        }
    } else {
        assert(is_ident_byte(s[0]));
        assert forall|j: int| 0 <= j < k - 1 implies is_ident_byte(s.skip(1)[j]) by {
            assert(s.skip(1)[j] == s[j + 1]);
        }
        if k < s.len() {
            assert(s.skip(1)[k - 1] == s[k]);
        }
        lemma_ident_len_is(s.skip(1), k - 1);
    }
}

/// The candidate identifier text, or the text just after it, matches a
/// reserved keyword or sigil: the candidate is not an identifier.
pub open spec fn spec_keyword_hit(cand: Seq<u8>, after: Seq<u8>) -> bool {
    ||| spec_match(Tok::Infinity, after) is Ok
    ||| spec_match(Tok::NegativeInfinity, after) is Ok
    ||| spec_match(Tok::KeywordTrue, cand) is Ok
    ||| spec_match(Tok::KeywordFalse, cand) is Ok
    ||| spec_match(Tok::KeywordExport, cand) is Ok
    ||| spec_match(Tok::KeywordReturn, cand) is Ok
    ||| spec_match(Tok::KeywordWith, cand) is Ok
    ||| spec_match(Tok::KeywordAs, cand) is Ok
    ||| spec_match(Tok::KeywordStr, cand) is Ok
    ||| spec_match(Tok::KeywordNum, cand) is Ok
    ||| spec_match(Tok::KeywordBln, cand) is Ok
    ||| spec_match(Tok::KeywordEmp, cand) is Ok
}

/// What parsing an identifier returns: the longest run of letters and
/// underscores after the leading whitespace.  An empty run, or one that
/// the reserved-word checks reject, is a generic failure, so keyword
/// text is never captured as an identifier.
pub open spec fn spec_ident(s: Seq<u8>) -> Result<(Seq<u8>, Seq<u8>), ParseError> {
    let rest = s.skip(ws_len(s) as int);
    let n = ident_len(rest) as int;
    if n == 0 {
        Err(ParseError::NoMatch)
    } else if spec_keyword_hit(rest.take(n), rest.skip(n)) {
        Err(ParseError::NoMatch)
    } else {
        Ok((rest.skip(n), rest.take(n)))
    }
}

/// Parses an identifier after skipping whitespace.
pub fn ident<'a>(i: &'a [u8], ptr: Pointer) -> (r: Result<
    (&'a [u8], Pointer, Identifier),
    ParseError,
>)
    requires
        ptr.row + i@.len() <= usize::MAX,
        ptr.col + i@.len() <= usize::MAX,
    ensures
        match r {
            Ok((rest, p2, id)) => {
                &&& spec_ident(i@) == Ok::<(Seq<u8>, Seq<u8>), ParseError>((rest@, id.0@))
                &&& consumed_ok(i@, ptr, rest@, p2)
            },
            Err(e) => spec_ident(i@) == Err::<(Seq<u8>, Seq<u8>), ParseError>(e),
        },
{
    let (rest0, p1) = whitespace(i, ptr);
    let mut n: usize = 0;
    while n < rest0.len() && (rest0[n] == '_' as u8 || (rest0[n] >= 'a' as u8 && rest0[n]
        <= 'z' as u8) || (rest0[n] >= 'A' as u8 && rest0[n] <= 'Z' as u8))
        invariant
            n <= rest0@.len(),
            forall|j: int| 0 <= j < n ==> is_ident_byte(rest0@[j]),
        decreases rest0@.len() - n,
    {
        n = n + 1;
    }
    proof {
        lemma_ident_len_is(rest0@, n as int);
    }
    if n == 0 {
        return Err(ParseError::NoMatch);
    }
    let cand = slice_subrange(rest0, 0, n);
    let after = slice_subrange(rest0, n, rest0.len());
    proof {
        assert(cand@ =~= rest0@.take(n as int));
        assert(after@ =~= rest0@.skip(n as int));
    }
    if matches_token(after, Pointer::new(0, 0), Tok::Infinity) {
        return Err(ParseError::NoMatch);
    }
    // this one's not technically possible, but it's here for posterity
    if matches_token(after, Pointer::new(0, 0), Tok::NegativeInfinity) {
        return Err(ParseError::NoMatch);
    }
    if matches_token(cand, Pointer::new(0, 0), Tok::KeywordTrue) {
        return Err(ParseError::NoMatch);
    }
    if matches_token(cand, Pointer::new(0, 0), Tok::KeywordFalse) {
        return Err(ParseError::NoMatch);
    }
    if matches_token(cand, Pointer::new(0, 0), Tok::KeywordExport) {
        return Err(ParseError::NoMatch);
    }
    if matches_token(cand, Pointer::new(0, 0), Tok::KeywordReturn) {
        return Err(ParseError::NoMatch);
    }
    if matches_token(cand, Pointer::new(0, 0), Tok::KeywordWith) {
        return Err(ParseError::NoMatch);
    }
    if matches_token(cand, Pointer::new(0, 0), Tok::KeywordAs) {
        return Err(ParseError::NoMatch);
    }
    if matches_token(cand, Pointer::new(0, 0), Tok::KeywordStr) {
        return Err(ParseError::NoMatch);
    }
    if matches_token(cand, Pointer::new(0, 0), Tok::KeywordNum) {
        return Err(ParseError::NoMatch);
    }
    if matches_token(cand, Pointer::new(0, 0), Tok::KeywordBln) {
        return Err(ParseError::NoMatch);
    }
    if matches_token(cand, Pointer::new(0, 0), Tok::KeywordEmp) {
        return Err(ParseError::NoMatch);
    }
    proof {
        lemma_consumed_bounds(i@, ptr, rest0@, p1);
    }
    let p2 = p1.add_col(n);
    proof {
        assert(forall|j: int| 0 <= j < n ==> is_ident_byte(#[trigger] cand@[j]));
        lemma_cursor_after_no_breaks(p1.row as int, p1.col as int, rest0@.take(n as int));
        assert(consumed_ok(rest0@, p1, after@, p2));
        lemma_consumed_trans(i@, ptr, rest0@, p1, after@, p2);
    }
    Ok((after, p2, Identifier(slice_to_vec(cand))))
}

/// Trailing whitespace is insignificant to an identifier parse: it can
/// neither lengthen the identifier nor change the reserved-word checks,
/// and simply stays in the rest.
pub proof fn lemma_spec_ident_app(s: Seq<u8>, w: Seq<u8>)
    requires
        forall|j: int| 0 <= j < w.len() ==> crate::whitespace::is_ws_byte(w[j]),
    ensures
        spec_ident(s + w) == match spec_ident(s) {
            Ok((r, id)) => Ok::<(Seq<u8>, Seq<u8>), ParseError>((r + w, id)),
            Err(e) => Err::<(Seq<u8>, Seq<u8>), ParseError>(e),
        },
{
    crate::whitespace::lemma_ws_len_le(s);
    crate::whitespace::lemma_ws_len_append(s, w);
    let k = ws_len(s) as int;
    if k == s.len() {
        assert(s.skip(k).len() == 0);
        assert((s + w).skip((s.len() + w.len()) as int).len() == 0);
    } else {
        let rest0 = s.skip(k);
        assert((s + w).skip(k) =~= rest0 + w);
        lemma_ident_len_le(rest0);
        lemma_ident_len_bytes(rest0);
        lemma_ident_len_stop(rest0);
        let n = ident_len(rest0) as int;
        assert forall|j: int| 0 <= j < n implies is_ident_byte((rest0 + w)[j]) by {
            assert((rest0 + w)[j] == rest0[j]);
        }
        if n < rest0.len() {
            assert((rest0 + w)[n] == rest0[n]);
        } else {
            if n < (rest0 + w).len() {
                assert((rest0 + w)[n] == w[n - rest0.len()]);
            }
        }
        lemma_ident_len_is(rest0 + w, n);
        if n > 0 {
            assert((rest0 + w).take(n) =~= rest0.take(n));
            assert((rest0 + w).skip(n) =~= rest0.skip(n) + w);
            crate::tokens::lemma_spec_match_app(Tok::Infinity, rest0.skip(n), w);
            crate::tokens::lemma_spec_match_app(Tok::NegativeInfinity, rest0.skip(n), w);
        }
    }
}

/// Parses the entire source text as one type expression.  The text is
/// handed over as its UTF-8 bytes; what remains after the parsed type
/// comes back as bytes too, with the cursor where the parse ended.
pub fn parse<'a>(i: &'a str) -> (r: Result<(&'a [u8], Pointer, crate::types::Type), ParseError>)
    ensures
        match r {
            Ok((rest, p2, t)) => {
                &&& crate::types::spec_yaupl_type(i.spec_bytes()) == Ok::<
                    (Seq<u8>, crate::types::TypeV),
                    ParseError,
                >((rest@, t@))
                &&& consumed_ok(i.spec_bytes(), Pointer { row: 0, col: 0 }, rest@, p2)
            },
            Err(e) => crate::types::spec_yaupl_type(i.spec_bytes()) == Err::<
                (Seq<u8>, crate::types::TypeV),
                ParseError,
            >(e),
        },
{
    let bytes = i.as_bytes();
    let n = bytes.len();
    proof {
        assert(bytes@.len() == n);
    }
    crate::types::yaupl_type(bytes, Pointer::new(0, 0))
}

} // verus!
