//! The closed set of literal lexical units (keywords, punctuation,
//! operators).  Each unit exposes its canonical text, used both for
//! matching and for diagnostics, and has a matcher function: a
//! case-sensitive literal prefix comparison against whitespace-skipped
//! input that, on success, advances the cursor column by the literal's
//! length.

use vstd::prelude::*;
use vstd::slice::slice_subrange;

use crate::parse_error::ParseError;
use crate::pointer::{
    consumed_ok, cursor_after, lemma_consumed_trans, lemma_cursor_after_bounds,
    lemma_cursor_after_no_breaks, is_line_break, Pointer,
};
use crate::types::PrimitiveType;
use crate::whitespace::{is_ws_byte, lemma_ws_len_le, whitespace, ws_len};

verus! {

/// The closed set of literal lexical units.
#[derive(Debug, Copy, Clone, PartialEq, Eq, Structural)]
pub enum Tok {
    /// `+`
    BinaryOperatorAdd,
    /// `-`
    BinaryOperatorSub,
    /// `*`
    BinaryOperatorMul,
    /// `/`
    BinaryOperatorDiv,
    /// `>`
    BinaryOperatorGt,
    /// `<`
    BinaryOperatorLt,
    /// `>=`
    BinaryOperatorGte,
    /// `<=`
    BinaryOperatorLte,
    /// `==`
    BinaryOperatorEq,
    /// `!=`
    BinaryOperatorNeq,
    /// `oo`
    Infinity,
    /// `-oo`
    NegativeInfinity,
    /// `true`
    KeywordTrue,
    /// `false`
    KeywordFalse,
    /// `[`
    BraceSquareOpen,
    /// `]`
    BraceSquareClose,
    /// `{`
    BraceCurlyOpen,
    /// `}`
    BraceCurlyClose,
    /// `(|`
    BraceGroupOpen,
    /// `|)`
    BraceGroupClose,
    /// `|-`
    TeslaOpen,
    /// `-|`
    TeslaClose,
    /// `[|`
    TupleOpen,
    /// `|]`
    TupleClose,
    /// `<-`
    ArrowLeft,
    /// `->`
    ArrowRight,
    /// `=>`
    ArrowRightThick,
    /// `~>`
    ArrowRightCurly,
    /// `#[`
    CommentOpen,
    /// `!!#[`
    DocCommentOpen,
    /// `]#`
    CommentClose,
    /// `export`
    KeywordExport,
    /// `return`
    KeywordReturn,
    /// `with`
    KeywordWith,
    /// `as`
    KeywordAs,
    /// `str`
    KeywordStr,
    /// `bln`
    KeywordBln,
    /// `num`
    KeywordNum,
    /// `___`
    KeywordEmp,
    /// `:`
    Colon,
    /// `@`
    Group,
    /// `,`
    Comma,
    /// `.`
    Decimal,
    /// `;`
    Semicolon,
    /// `"`
    Quote,
}

/// The canonical text of a lexical unit, as bytes.
pub open spec fn tok_text(t: Tok) -> Seq<u8> {
    match t {
        Tok::BinaryOperatorAdd => seq!['+' as u8],
        Tok::BinaryOperatorSub => seq!['-' as u8],
        Tok::BinaryOperatorMul => seq!['*' as u8],
        Tok::BinaryOperatorDiv => seq!['/' as u8],
        Tok::BinaryOperatorGt => seq!['>' as u8],
        Tok::BinaryOperatorLt => seq!['<' as u8],
        Tok::BinaryOperatorGte => seq!['>' as u8, '=' as u8],
        Tok::BinaryOperatorLte => seq!['<' as u8, '=' as u8],
        Tok::BinaryOperatorEq => seq!['=' as u8, '=' as u8],
        Tok::BinaryOperatorNeq => seq!['!' as u8, '=' as u8],
        Tok::Infinity => seq!['o' as u8, 'o' as u8],
        Tok::NegativeInfinity => seq!['-' as u8, 'o' as u8, 'o' as u8],
        Tok::KeywordTrue => seq!['t' as u8, 'r' as u8, 'u' as u8, 'e' as u8],
        Tok::KeywordFalse => seq!['f' as u8, 'a' as u8, 'l' as u8, 's' as u8, 'e' as u8],
        Tok::BraceSquareOpen => seq!['[' as u8],
        Tok::BraceSquareClose => seq![']' as u8],
        Tok::BraceCurlyOpen => seq!['{' as u8],
        Tok::BraceCurlyClose => seq!['}' as u8],
        Tok::BraceGroupOpen => seq!['(' as u8, '|' as u8],
        Tok::BraceGroupClose => seq!['|' as u8, ')' as u8],
        Tok::TeslaOpen => seq!['|' as u8, '-' as u8],
        Tok::TeslaClose => seq!['-' as u8, '|' as u8],
        Tok::TupleOpen => seq!['[' as u8, '|' as u8],
        Tok::TupleClose => seq!['|' as u8, ']' as u8],
        Tok::ArrowLeft => seq!['<' as u8, '-' as u8],
        Tok::ArrowRight => seq!['-' as u8, '>' as u8],
        Tok::ArrowRightThick => seq!['=' as u8, '>' as u8],
        Tok::ArrowRightCurly => seq!['~' as u8, '>' as u8],
        Tok::CommentOpen => seq!['#' as u8, '[' as u8],
        Tok::DocCommentOpen => seq!['!' as u8, '!' as u8, '#' as u8, '[' as u8],
        Tok::CommentClose => seq![']' as u8, '#' as u8],
        Tok::KeywordExport => seq!['e' as u8, 'x' as u8, 'p' as u8, 'o' as u8, 'r' as u8, 't' as u8],
        Tok::KeywordReturn => seq!['r' as u8, 'e' as u8, 't' as u8, 'u' as u8, 'r' as u8, 'n' as u8],
        Tok::KeywordWith => seq!['w' as u8, 'i' as u8, 't' as u8, 'h' as u8],
        Tok::KeywordAs => seq!['a' as u8, 's' as u8],
        Tok::KeywordStr => seq!['s' as u8, 't' as u8, 'r' as u8],
        Tok::KeywordBln => seq!['b' as u8, 'l' as u8, 'n' as u8],
        Tok::KeywordNum => seq!['n' as u8, 'u' as u8, 'm' as u8],
        Tok::KeywordEmp => seq!['_' as u8, '_' as u8, '_' as u8],
        Tok::Colon => seq![':' as u8],
        Tok::Group => seq!['@' as u8],
        Tok::Comma => seq![',' as u8],
        Tok::Decimal => seq!['.' as u8],
        Tok::Semicolon => seq![';' as u8],
        Tok::Quote => seq!['"' as u8],
    }
}

impl Tok {
    /// The canonical text of this lexical unit, as bytes.
    pub fn text(&self) -> (r: Vec<u8>)
        ensures
            r@ == tok_text(*self),
    {
        let r: Vec<u8> = match self {
            Tok::BinaryOperatorAdd => vec!['+' as u8],
            Tok::BinaryOperatorSub => vec!['-' as u8],
            Tok::BinaryOperatorMul => vec!['*' as u8],
            Tok::BinaryOperatorDiv => vec!['/' as u8],
            Tok::BinaryOperatorGt => vec!['>' as u8],
            Tok::BinaryOperatorLt => vec!['<' as u8],
            Tok::BinaryOperatorGte => vec!['>' as u8, '=' as u8],
            Tok::BinaryOperatorLte => vec!['<' as u8, '=' as u8],
            Tok::BinaryOperatorEq => vec!['=' as u8, '=' as u8],
            Tok::BinaryOperatorNeq => vec!['!' as u8, '=' as u8],
            Tok::Infinity => vec!['o' as u8, 'o' as u8],
            Tok::NegativeInfinity => vec!['-' as u8, 'o' as u8, 'o' as u8],
            Tok::KeywordTrue => vec!['t' as u8, 'r' as u8, 'u' as u8, 'e' as u8],
            Tok::KeywordFalse => vec!['f' as u8, 'a' as u8, 'l' as u8, 's' as u8, 'e' as u8],
            Tok::BraceSquareOpen => vec!['[' as u8],
            Tok::BraceSquareClose => vec![']' as u8],
            Tok::BraceCurlyOpen => vec!['{' as u8],
            Tok::BraceCurlyClose => vec!['}' as u8],
            Tok::BraceGroupOpen => vec!['(' as u8, '|' as u8],
            Tok::BraceGroupClose => vec!['|' as u8, ')' as u8],
            Tok::TeslaOpen => vec!['|' as u8, '-' as u8],
            Tok::TeslaClose => vec!['-' as u8, '|' as u8],
            Tok::TupleOpen => vec!['[' as u8, '|' as u8],
            Tok::TupleClose => vec!['|' as u8, ']' as u8],
            Tok::ArrowLeft => vec!['<' as u8, '-' as u8],
            Tok::ArrowRight => vec!['-' as u8, '>' as u8],
            Tok::ArrowRightThick => vec!['=' as u8, '>' as u8],
            Tok::ArrowRightCurly => vec!['~' as u8, '>' as u8],
            Tok::CommentOpen => vec!['#' as u8, '[' as u8],
            Tok::DocCommentOpen => vec!['!' as u8, '!' as u8, '#' as u8, '[' as u8],
            Tok::CommentClose => vec![']' as u8, '#' as u8],
            Tok::KeywordExport => vec!['e' as u8, 'x' as u8, 'p' as u8, 'o' as u8, 'r' as u8, 't' as u8],
            Tok::KeywordReturn => vec!['r' as u8, 'e' as u8, 't' as u8, 'u' as u8, 'r' as u8, 'n' as u8],
            Tok::KeywordWith => vec!['w' as u8, 'i' as u8, 't' as u8, 'h' as u8],
            Tok::KeywordAs => vec!['a' as u8, 's' as u8],
            Tok::KeywordStr => vec!['s' as u8, 't' as u8, 'r' as u8],
            Tok::KeywordBln => vec!['b' as u8, 'l' as u8, 'n' as u8],
            Tok::KeywordNum => vec!['n' as u8, 'u' as u8, 'm' as u8],
            Tok::KeywordEmp => vec!['_' as u8, '_' as u8, '_' as u8],
            Tok::Colon => vec![':' as u8],
            Tok::Group => vec!['@' as u8],
            Tok::Comma => vec![',' as u8],
            Tok::Decimal => vec!['.' as u8],
            Tok::Semicolon => vec![';' as u8],
            Tok::Quote => vec!['"' as u8],
        };
        proof {
            assert(r@ =~= tok_text(*self));
        }
        r
    }
}

/// Every canonical text is non-empty and contains no whitespace, so in
/// particular no line break.
pub proof fn lemma_tok_text_wf(t: Tok)
    ensures
        tok_text(t).len() >= 1,
        forall|j: int| 0 <= j < tok_text(t).len() ==> !is_ws_byte(tok_text(t)[j]),
        forall|j: int| 0 <= j < tok_text(t).len() ==> !is_line_break(tok_text(t)[j]),
{
}

/// `p` is the first part of `s`.
pub open spec fn has_prefix(s: Seq<u8>, p: Seq<u8>) -> bool {
    p.len() <= s.len() && s.take(p.len() as int) == p
}

/// What matching the token `t` returns on the input `s`: after the
/// leading whitespace, the canonical text of `t` must stand as a literal
/// prefix; the rest of the input follows it.
pub open spec fn spec_match(t: Tok, s: Seq<u8>) -> Result<Seq<u8>, ParseError> {
    let rest = s.skip(ws_len(s) as int);
    if has_prefix(rest, tok_text(t)) {
        Ok(rest.skip(tok_text(t).len() as int))
    } else {
        Err(ParseError::Expected(t))
    }
}

/// What a token matcher returned, with the remaining input as a sequence.
pub type TokResult<'a> = Result<(&'a [u8], Pointer, Tok), ParseError>;

/// What a primitive-keyword matcher returned.
pub type PrimResult<'a> = Result<(&'a [u8], Pointer, PrimitiveType), ParseError>;

/// The matcher for `t` behaved on `(i, ptr)` exactly as `spec_match`
/// says, and its cursor reflects the consumed text.
pub open spec fn is_token_match(t: Tok, i: Seq<u8>, ptr: Pointer, r: TokResult<'_>) -> bool {
    match r {
        Ok((rest, p2, v)) => {
            &&& spec_match(t, i) == Ok::<Seq<u8>, ParseError>(rest@)
            &&& v == t
            &&& consumed_ok(i, ptr, rest@, p2)
        },
        Err(e) => spec_match(t, i) == Err::<Seq<u8>, ParseError>(e),
    }
}

/// As `is_token_match`, for the matchers that hand back the primitive
/// type named by their keyword.
pub open spec fn is_prim_match(
    t: Tok,
    v0: PrimitiveType,
    i: Seq<u8>,
    ptr: Pointer,
    r: PrimResult<'_>,
) -> bool {
    match r {
        Ok((rest, p2, v)) => {
            &&& spec_match(t, i) == Ok::<Seq<u8>, ParseError>(rest@)
            &&& v == v0
            &&& consumed_ok(i, ptr, rest@, p2)
        },
        Err(e) => spec_match(t, i) == Err::<Seq<u8>, ParseError>(e),
    }
}

/// Compares `p` against the front of `s`, byte for byte.
pub fn starts_with_bytes(s: &[u8], p: &[u8]) -> (b: bool)
    ensures
        b == has_prefix(s@, p@),
{
    if p.len() > s.len() {
        return false;
    }
    let mut j: usize = 0;
    while j < p.len()
        invariant
            j <= p@.len() <= s@.len(),
            forall|m: int| 0 <= m < j ==> s@[m] == p@[m],
        decreases p@.len() - j,
    {
        if s[j] != p[j] {
            proof {
                assert(s@.take(p@.len() as int)[j as int] == s@[j as int]);
            }
            return false;
        }
        j = j + 1;
    }
    proof {
        assert(s@.take(p@.len() as int) =~= p@);
    }
    true
}

/// Matches the token `t` at the front of the whitespace-skipped input.
/// On success the cursor advances by the length of the canonical text;
/// on failure input and cursor are untouched and the error names `t`.
pub fn match_token<'a>(i: &'a [u8], ptr: Pointer, t: Tok) -> (r: TokResult<'a>)
    requires
        ptr.row + i@.len() <= usize::MAX,
        ptr.col + i@.len() <= usize::MAX,
    ensures
        is_token_match(t, i@, ptr, r),
{
    let (rest0, p1) = whitespace(i, ptr);
    let text = t.text();
    if starts_with_bytes(rest0, text.as_slice()) {
        let n = text.len();
        proof {
            lemma_ws_len_le(i@);
            lemma_cursor_after_bounds(
                ptr.row as int,
                ptr.col as int,
                i@.take(i@.len() - rest0@.len()),
            );
        }
        let p2 = p1.add_col(n);
        let out = slice_subrange(rest0, n, rest0.len());
        proof {
            assert(out@ =~= rest0@.skip(n as int));
            lemma_tok_text_wf(t);
            assert(rest0@.take(n as int) == tok_text(t));
            lemma_cursor_after_no_breaks(p1.row as int, p1.col as int, rest0@.take(n as int));
            assert(consumed_ok(rest0@, p1, out@, p2));
            lemma_consumed_trans(i@, ptr, rest0@, p1, out@, p2);
        }
        Ok((out, p2, t))
    } else {
        Err(ParseError::Expected(t))
    }
}

/// ```yaupl
/// +
/// ```
pub fn binary_operator_add<'a>(i: &'a [u8], ptr: Pointer) -> (r: TokResult<'a>)
    requires
        ptr.row + i@.len() <= usize::MAX,
        ptr.col + i@.len() <= usize::MAX,
    ensures
        is_token_match(Tok::BinaryOperatorAdd, i@, ptr, r),
{
    match_token(i, ptr, Tok::BinaryOperatorAdd)
}

/// ```yaupl
/// -
/// ```
pub fn binary_operator_sub<'a>(i: &'a [u8], ptr: Pointer) -> (r: TokResult<'a>)
    requires
        ptr.row + i@.len() <= usize::MAX,
        ptr.col + i@.len() <= usize::MAX,
    ensures
        is_token_match(Tok::BinaryOperatorSub, i@, ptr, r),
{
    match_token(i, ptr, Tok::BinaryOperatorSub)
}

/// ```yaupl
/// *
/// ```
pub fn binary_operator_mul<'a>(i: &'a [u8], ptr: Pointer) -> (r: TokResult<'a>)
    requires
        ptr.row + i@.len() <= usize::MAX,
        ptr.col + i@.len() <= usize::MAX,
    ensures
        is_token_match(Tok::BinaryOperatorMul, i@, ptr, r),
{
    match_token(i, ptr, Tok::BinaryOperatorMul)
}

/// ```yaupl
/// /
/// ```
pub fn binary_operator_div<'a>(i: &'a [u8], ptr: Pointer) -> (r: TokResult<'a>)
    requires
        ptr.row + i@.len() <= usize::MAX,
        ptr.col + i@.len() <= usize::MAX,
    ensures
        is_token_match(Tok::BinaryOperatorDiv, i@, ptr, r),
{
    match_token(i, ptr, Tok::BinaryOperatorDiv)
}

/// ```yaupl
/// >
/// ```
pub fn binary_operator_gt<'a>(i: &'a [u8], ptr: Pointer) -> (r: TokResult<'a>)
    requires
        ptr.row + i@.len() <= usize::MAX,
        ptr.col + i@.len() <= usize::MAX,
    ensures
        is_token_match(Tok::BinaryOperatorGt, i@, ptr, r),
{
    match_token(i, ptr, Tok::BinaryOperatorGt)
}

/// ```yaupl
/// <
/// ```
pub fn binary_operator_lt<'a>(i: &'a [u8], ptr: Pointer) -> (r: TokResult<'a>)
    requires
        ptr.row + i@.len() <= usize::MAX,
        ptr.col + i@.len() <= usize::MAX,
    ensures
        is_token_match(Tok::BinaryOperatorLt, i@, ptr, r),
{
    match_token(i, ptr, Tok::BinaryOperatorLt)
}

/// ```yaupl
/// >=
/// ```
pub fn binary_operator_gte<'a>(i: &'a [u8], ptr: Pointer) -> (r: TokResult<'a>)
    requires
        ptr.row + i@.len() <= usize::MAX,
        ptr.col + i@.len() <= usize::MAX,
    ensures
        is_token_match(Tok::BinaryOperatorGte, i@, ptr, r),
{
    match_token(i, ptr, Tok::BinaryOperatorGte)
}

/// ```yaupl
/// <=
/// ```
pub fn binary_operator_lte<'a>(i: &'a [u8], ptr: Pointer) -> (r: TokResult<'a>)
    requires
        ptr.row + i@.len() <= usize::MAX,
        ptr.col + i@.len() <= usize::MAX,
    ensures
        is_token_match(Tok::BinaryOperatorLte, i@, ptr, r),
{
    match_token(i, ptr, Tok::BinaryOperatorLte)
}

/// ```yaupl
/// ==
/// ```
pub fn binary_operator_eq<'a>(i: &'a [u8], ptr: Pointer) -> (r: TokResult<'a>)
    requires
        ptr.row + i@.len() <= usize::MAX,
        ptr.col + i@.len() <= usize::MAX,
    ensures
        is_token_match(Tok::BinaryOperatorEq, i@, ptr, r),
{
    match_token(i, ptr, Tok::BinaryOperatorEq)
}

/// ```yaupl
/// !=
/// ```
pub fn binary_operator_neq<'a>(i: &'a [u8], ptr: Pointer) -> (r: TokResult<'a>)
    requires
        ptr.row + i@.len() <= usize::MAX,
        ptr.col + i@.len() <= usize::MAX,
    ensures
        is_token_match(Tok::BinaryOperatorNeq, i@, ptr, r),
{
    match_token(i, ptr, Tok::BinaryOperatorNeq)
}

/// ```yaupl
/// oo
/// ```
pub fn infinity<'a>(i: &'a [u8], ptr: Pointer) -> (r: TokResult<'a>)
    requires
        ptr.row + i@.len() <= usize::MAX,
        ptr.col + i@.len() <= usize::MAX,
    ensures
        is_token_match(Tok::Infinity, i@, ptr, r),
{
    match_token(i, ptr, Tok::Infinity)
}

/// ```yaupl
/// -oo
/// ```
pub fn negative_infinity<'a>(i: &'a [u8], ptr: Pointer) -> (r: TokResult<'a>)
    requires
        ptr.row + i@.len() <= usize::MAX,
        ptr.col + i@.len() <= usize::MAX,
    ensures
        is_token_match(Tok::NegativeInfinity, i@, ptr, r),
{
    match_token(i, ptr, Tok::NegativeInfinity)
}

/// ```yaupl
/// true
/// ```
pub fn keyword_true<'a>(i: &'a [u8], ptr: Pointer) -> (r: TokResult<'a>)
    requires
        ptr.row + i@.len() <= usize::MAX,
        ptr.col + i@.len() <= usize::MAX,
    ensures
        is_token_match(Tok::KeywordTrue, i@, ptr, r),
{
    match_token(i, ptr, Tok::KeywordTrue)
}

/// ```yaupl
/// false
/// ```
pub fn keyword_false<'a>(i: &'a [u8], ptr: Pointer) -> (r: TokResult<'a>)
    requires
        ptr.row + i@.len() <= usize::MAX,
        ptr.col + i@.len() <= usize::MAX,
    ensures
        is_token_match(Tok::KeywordFalse, i@, ptr, r),
{
    match_token(i, ptr, Tok::KeywordFalse)
}

/// ```yaupl
/// [
/// ```
pub fn brace_square_open<'a>(i: &'a [u8], ptr: Pointer) -> (r: TokResult<'a>)
    requires
        ptr.row + i@.len() <= usize::MAX,
        ptr.col + i@.len() <= usize::MAX,
    ensures
        is_token_match(Tok::BraceSquareOpen, i@, ptr, r),
{
    match_token(i, ptr, Tok::BraceSquareOpen)
}

/// ```yaupl
/// ]
/// ```
pub fn brace_square_close<'a>(i: &'a [u8], ptr: Pointer) -> (r: TokResult<'a>)
    requires
        ptr.row + i@.len() <= usize::MAX,
        ptr.col + i@.len() <= usize::MAX,
    ensures
        is_token_match(Tok::BraceSquareClose, i@, ptr, r),
{
    match_token(i, ptr, Tok::BraceSquareClose)
}

/// ```yaupl
/// {
/// ```
pub fn brace_curly_open<'a>(i: &'a [u8], ptr: Pointer) -> (r: TokResult<'a>)
    requires
        ptr.row + i@.len() <= usize::MAX,
        ptr.col + i@.len() <= usize::MAX,
    ensures
        is_token_match(Tok::BraceCurlyOpen, i@, ptr, r),
{
    match_token(i, ptr, Tok::BraceCurlyOpen)
}

/// ```yaupl
/// }
/// ```
pub fn brace_curly_close<'a>(i: &'a [u8], ptr: Pointer) -> (r: TokResult<'a>)
    requires
        ptr.row + i@.len() <= usize::MAX,
        ptr.col + i@.len() <= usize::MAX,
    ensures
        is_token_match(Tok::BraceCurlyClose, i@, ptr, r),
{
    match_token(i, ptr, Tok::BraceCurlyClose)
}

/// ```yaupl
/// (|
/// ```
pub fn brace_group_open<'a>(i: &'a [u8], ptr: Pointer) -> (r: TokResult<'a>)
    requires
        ptr.row + i@.len() <= usize::MAX,
        ptr.col + i@.len() <= usize::MAX,
    ensures
        is_token_match(Tok::BraceGroupOpen, i@, ptr, r),
{
    match_token(i, ptr, Tok::BraceGroupOpen)
}

/// ```yaupl
/// |)
/// ```
pub fn brace_group_close<'a>(i: &'a [u8], ptr: Pointer) -> (r: TokResult<'a>)
    requires
        ptr.row + i@.len() <= usize::MAX,
        ptr.col + i@.len() <= usize::MAX,
    ensures
        is_token_match(Tok::BraceGroupClose, i@, ptr, r),
{
    match_token(i, ptr, Tok::BraceGroupClose)
}

/// ```yaupl
/// |-
/// ```
pub fn tesla_open<'a>(i: &'a [u8], ptr: Pointer) -> (r: TokResult<'a>)
    requires
        ptr.row + i@.len() <= usize::MAX,
        ptr.col + i@.len() <= usize::MAX,
    ensures
        is_token_match(Tok::TeslaOpen, i@, ptr, r),
{
    match_token(i, ptr, Tok::TeslaOpen)
}

/// ```yaupl
/// -|
/// ```
pub fn tesla_close<'a>(i: &'a [u8], ptr: Pointer) -> (r: TokResult<'a>)
    requires
        ptr.row + i@.len() <= usize::MAX,
        ptr.col + i@.len() <= usize::MAX,
    ensures
        is_token_match(Tok::TeslaClose, i@, ptr, r),
{
    match_token(i, ptr, Tok::TeslaClose)
}

/// ```yaupl
/// [|
/// ```
pub fn tuple_open<'a>(i: &'a [u8], ptr: Pointer) -> (r: TokResult<'a>)
    requires
        ptr.row + i@.len() <= usize::MAX,
        ptr.col + i@.len() <= usize::MAX,
    ensures
        is_token_match(Tok::TupleOpen, i@, ptr, r),
{
    match_token(i, ptr, Tok::TupleOpen)
}

/// ```yaupl
/// |]
/// ```
pub fn tuple_close<'a>(i: &'a [u8], ptr: Pointer) -> (r: TokResult<'a>)
    requires
        ptr.row + i@.len() <= usize::MAX,
        ptr.col + i@.len() <= usize::MAX,
    ensures
        is_token_match(Tok::TupleClose, i@, ptr, r),
{
    match_token(i, ptr, Tok::TupleClose)
}

/// ```yaupl
/// <-
/// ```
pub fn arrow_left<'a>(i: &'a [u8], ptr: Pointer) -> (r: TokResult<'a>)
    requires
        ptr.row + i@.len() <= usize::MAX,
        ptr.col + i@.len() <= usize::MAX,
    ensures
        is_token_match(Tok::ArrowLeft, i@, ptr, r),
{
    match_token(i, ptr, Tok::ArrowLeft)
}

/// ```yaupl
/// ->
/// ```
pub fn arrow_right<'a>(i: &'a [u8], ptr: Pointer) -> (r: TokResult<'a>)
    requires
        ptr.row + i@.len() <= usize::MAX,
        ptr.col + i@.len() <= usize::MAX,
    ensures
        is_token_match(Tok::ArrowRight, i@, ptr, r),
{
    match_token(i, ptr, Tok::ArrowRight)
}

/// ```yaupl
/// =>
/// ```
pub fn arrow_right_thick<'a>(i: &'a [u8], ptr: Pointer) -> (r: TokResult<'a>)
    requires
        ptr.row + i@.len() <= usize::MAX,
        ptr.col + i@.len() <= usize::MAX,
    ensures
        is_token_match(Tok::ArrowRightThick, i@, ptr, r),
{
    match_token(i, ptr, Tok::ArrowRightThick)
}

/// ```yaupl
/// ~>
/// ```
pub fn arrow_right_curly<'a>(i: &'a [u8], ptr: Pointer) -> (r: TokResult<'a>)
    requires
        ptr.row + i@.len() <= usize::MAX,
        ptr.col + i@.len() <= usize::MAX,
    ensures
        is_token_match(Tok::ArrowRightCurly, i@, ptr, r),
{
    match_token(i, ptr, Tok::ArrowRightCurly)
}

/// ```yaupl
/// #[
/// ```
pub fn comment_open<'a>(i: &'a [u8], ptr: Pointer) -> (r: TokResult<'a>)
    requires
        ptr.row + i@.len() <= usize::MAX,
        ptr.col + i@.len() <= usize::MAX,
    ensures
        is_token_match(Tok::CommentOpen, i@, ptr, r),
{
    match_token(i, ptr, Tok::CommentOpen)
}

/// ```yaupl
/// !!#[
/// ```
pub fn doc_comment_open<'a>(i: &'a [u8], ptr: Pointer) -> (r: TokResult<'a>)
    requires
        ptr.row + i@.len() <= usize::MAX,
        ptr.col + i@.len() <= usize::MAX,
    ensures
        is_token_match(Tok::DocCommentOpen, i@, ptr, r),
{
    match_token(i, ptr, Tok::DocCommentOpen)
}

/// ```yaupl
/// ]#
/// ```
pub fn comment_close<'a>(i: &'a [u8], ptr: Pointer) -> (r: TokResult<'a>)
    requires
        ptr.row + i@.len() <= usize::MAX,
        ptr.col + i@.len() <= usize::MAX,
    ensures
        is_token_match(Tok::CommentClose, i@, ptr, r),
{
    match_token(i, ptr, Tok::CommentClose)
}

/// ```yaupl
/// export
/// ```
pub fn keyword_export<'a>(i: &'a [u8], ptr: Pointer) -> (r: TokResult<'a>)
    requires
        ptr.row + i@.len() <= usize::MAX,
        ptr.col + i@.len() <= usize::MAX,
    ensures
        is_token_match(Tok::KeywordExport, i@, ptr, r),
{
    match_token(i, ptr, Tok::KeywordExport)
}

/// ```yaupl
/// return
/// ```
pub fn keyword_return<'a>(i: &'a [u8], ptr: Pointer) -> (r: TokResult<'a>)
    requires
        ptr.row + i@.len() <= usize::MAX,
        ptr.col + i@.len() <= usize::MAX,
    ensures
        is_token_match(Tok::KeywordReturn, i@, ptr, r),
{
    match_token(i, ptr, Tok::KeywordReturn)
}

/// ```yaupl
/// with
/// ```
pub fn keyword_with<'a>(i: &'a [u8], ptr: Pointer) -> (r: TokResult<'a>)
    requires
        ptr.row + i@.len() <= usize::MAX,
        ptr.col + i@.len() <= usize::MAX,
    ensures
        is_token_match(Tok::KeywordWith, i@, ptr, r),
{
    match_token(i, ptr, Tok::KeywordWith)
}

/// ```yaupl
/// as
/// ```
pub fn keyword_as<'a>(i: &'a [u8], ptr: Pointer) -> (r: TokResult<'a>)
    requires
        ptr.row + i@.len() <= usize::MAX,
        ptr.col + i@.len() <= usize::MAX,
    ensures
        is_token_match(Tok::KeywordAs, i@, ptr, r),
{
    match_token(i, ptr, Tok::KeywordAs)
}

/// ```yaupl
/// str
/// ```
pub fn keyword_str<'a>(i: &'a [u8], ptr: Pointer) -> (r: PrimResult<'a>)
    requires
        ptr.row + i@.len() <= usize::MAX,
        ptr.col + i@.len() <= usize::MAX,
    ensures
        is_prim_match(Tok::KeywordStr, PrimitiveType::Str, i@, ptr, r),
{
    match match_token(i, ptr, Tok::KeywordStr) {
        Ok((rest, p2, _t)) => Ok((rest, p2, PrimitiveType::Str)),
        Err(e) => Err(e),
    }
}

/// ```yaupl
/// bln
/// ```
pub fn keyword_bln<'a>(i: &'a [u8], ptr: Pointer) -> (r: PrimResult<'a>)
    requires
        ptr.row + i@.len() <= usize::MAX,
        ptr.col + i@.len() <= usize::MAX,
    ensures
        is_prim_match(Tok::KeywordBln, PrimitiveType::Bln, i@, ptr, r),
{
    match match_token(i, ptr, Tok::KeywordBln) {
        Ok((rest, p2, _t)) => Ok((rest, p2, PrimitiveType::Bln)),
        Err(e) => Err(e),
    }
}

/// ```yaupl
/// num
/// ```
pub fn keyword_num<'a>(i: &'a [u8], ptr: Pointer) -> (r: PrimResult<'a>)
    requires
        ptr.row + i@.len() <= usize::MAX,
        ptr.col + i@.len() <= usize::MAX,
    ensures
        is_prim_match(Tok::KeywordNum, PrimitiveType::Num, i@, ptr, r),
{
    match match_token(i, ptr, Tok::KeywordNum) {
        Ok((rest, p2, _t)) => Ok((rest, p2, PrimitiveType::Num)),
        Err(e) => Err(e),
    }
}

/// ```yaupl
/// ___
/// ```
pub fn keyword_emp<'a>(i: &'a [u8], ptr: Pointer) -> (r: PrimResult<'a>)
    requires
        ptr.row + i@.len() <= usize::MAX,
        ptr.col + i@.len() <= usize::MAX,
    ensures
        is_prim_match(Tok::KeywordEmp, PrimitiveType::Emp, i@, ptr, r),
{
    match match_token(i, ptr, Tok::KeywordEmp) {
        Ok((rest, p2, _t)) => Ok((rest, p2, PrimitiveType::Emp)),
        Err(e) => Err(e),
    }
}

/// ```yaupl
/// :
/// ```
pub fn colon<'a>(i: &'a [u8], ptr: Pointer) -> (r: TokResult<'a>)
    requires
        ptr.row + i@.len() <= usize::MAX,
        ptr.col + i@.len() <= usize::MAX,
    ensures
        is_token_match(Tok::Colon, i@, ptr, r),
{
    match_token(i, ptr, Tok::Colon)
}

/// ```yaupl
/// @
/// ```
pub fn group<'a>(i: &'a [u8], ptr: Pointer) -> (r: TokResult<'a>)
    requires
        ptr.row + i@.len() <= usize::MAX,
        ptr.col + i@.len() <= usize::MAX,
    ensures
        is_token_match(Tok::Group, i@, ptr, r),
{
    match_token(i, ptr, Tok::Group)
}

/// ```yaupl
/// ,
/// ```
pub fn comma<'a>(i: &'a [u8], ptr: Pointer) -> (r: TokResult<'a>)
    requires
        ptr.row + i@.len() <= usize::MAX,
        ptr.col + i@.len() <= usize::MAX,
    ensures
        is_token_match(Tok::Comma, i@, ptr, r),
{
    match_token(i, ptr, Tok::Comma)
}

/// ```yaupl
/// .
/// ```
pub fn decimal<'a>(i: &'a [u8], ptr: Pointer) -> (r: TokResult<'a>)
    requires
        ptr.row + i@.len() <= usize::MAX,
        ptr.col + i@.len() <= usize::MAX,
    ensures
        is_token_match(Tok::Decimal, i@, ptr, r),
{
    match_token(i, ptr, Tok::Decimal)
}

/// ```yaupl
/// ;
/// ```
pub fn semicolon<'a>(i: &'a [u8], ptr: Pointer) -> (r: TokResult<'a>)
    requires
        ptr.row + i@.len() <= usize::MAX,
        ptr.col + i@.len() <= usize::MAX,
    ensures
        is_token_match(Tok::Semicolon, i@, ptr, r),
{
    match_token(i, ptr, Tok::Semicolon)
}

/// ```yaupl
/// "
/// ```
pub fn quote<'a>(i: &'a [u8], ptr: Pointer) -> (r: TokResult<'a>)
    requires
        ptr.row + i@.len() <= usize::MAX,
        ptr.col + i@.len() <= usize::MAX,
    ensures
        is_token_match(Tok::Quote, i@, ptr, r),
{
    match_token(i, ptr, Tok::Quote)
}

/// Every keyword matcher, run on two spaces, then its own canonical
/// text, then any tail, succeeds, consumes exactly the spaces and the
/// text, leaves the tail untouched, and moves the cursor along its row
/// by the two spaces and the text's length.
pub proof fn lemma_match_after_spaces(t: Tok, tail: Seq<u8>, p: Pointer)
    ensures
        spec_match(t, seq![' ' as u8, ' ' as u8] + tok_text(t) + tail) == Ok::<
            Seq<u8>,
            ParseError,
        >(tail),
        cursor_after(
            p.row as int,
            p.col as int,
            seq![' ' as u8, ' ' as u8] + tok_text(t),
        ) == (p.row as int, p.col + 2 + tok_text(t).len()),
{
    let s = seq![' ' as u8, ' ' as u8] + tok_text(t) + tail;
    lemma_tok_text_wf(t);
    assert(is_ws_byte(s[0]) && is_ws_byte(s[1]));
    assert(s[2] == tok_text(t)[0]);
    crate::whitespace::lemma_ws_len_is(s, 2);
    let rest = s.skip(2);
    assert(rest =~= tok_text(t) + tail);
    assert(rest.take(tok_text(t).len() as int) =~= tok_text(t));
    assert(rest.skip(tok_text(t).len() as int) =~= tail);
    lemma_cursor_after_no_breaks(
        p.row as int,
        p.col as int,
        seq![' ' as u8, ' ' as u8] + tok_text(t),
    );
}

/// Trailing whitespace is insignificant to a token match: it can
/// neither complete nor break a match, and simply stays in the rest.
pub proof fn lemma_spec_match_app(t: Tok, s: Seq<u8>, w: Seq<u8>)
    requires
        forall|j: int| 0 <= j < w.len() ==> is_ws_byte(w[j]),
    ensures
        spec_match(t, s + w) == match spec_match(t, s) {
            Ok(r) => Ok::<Seq<u8>, ParseError>(r + w),
            Err(e) => Err::<Seq<u8>, ParseError>(e),
        },
{
    lemma_ws_len_le(s);
    lemma_tok_text_wf(t);
    crate::whitespace::lemma_ws_len_append(s, w);
    let k = ws_len(s) as int;
    let text = tok_text(t);
    if k == s.len() {
        assert(s.skip(k).len() == 0);
        assert((s + w).skip((s.len() + w.len()) as int).len() == 0);
    } else {
        let rest0 = s.skip(k);
        assert((s + w).skip(k) =~= rest0 + w);
        if text.len() <= rest0.len() {
            assert((rest0 + w).take(text.len() as int) =~= rest0.take(text.len() as int));
            if has_prefix(rest0, text) {
                assert((rest0 + w).skip(text.len() as int) =~= rest0.skip(text.len() as int) + w);
            }
        } else {
            assert(!has_prefix(rest0, text));
            if has_prefix(rest0 + w, text) {
                assert((rest0 + w).take(text.len() as int)[rest0.len() as int] == w[0]);
                assert(text[rest0.len() as int] == w[0]);
                assert(false);
            }
        }
    }
}

/// Leading whitespace is insignificant to a token match: matching on
/// input with extra leading whitespace gives the same result.
pub proof fn lemma_spec_match_ws_prefix(t: Tok, w: Seq<u8>, s: Seq<u8>)
    requires
        forall|j: int| 0 <= j < w.len() ==> is_ws_byte(w[j]),
    ensures
        spec_match(t, w + s) == spec_match(t, s),
{
    crate::whitespace::lemma_ws_len_concat(w, s);
    lemma_ws_len_le(s);
    assert((w + s).skip(w.len() + ws_len(s) as int) =~= s.skip(ws_len(s) as int));
}

} // verus!
