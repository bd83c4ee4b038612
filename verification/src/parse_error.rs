//! The closed taxonomy of parse failures.  Failure never consumes input
//! or moves the cursor: callers retry from their original state.

use vstd::prelude::*;

use crate::tokens::Tok;

verus! {

/// What went wrong during a parse attempt.  The expectation errors name
/// the unmatched construct; the structural errors signal exhausted
/// alternatives or malformed literals.
#[derive(Debug, PartialEq, Eq)]
pub enum ParseError {
    /// The named token was expected and not found.
    Expected(Tok),
    /// One of the named tokens was expected and none was found.
    ExpectedOneOf(Vec<Tok>),
    /// A reserved keyword stood where it is not allowed.
    UnexpectedKeyword(Tok),
    /// Generic failure: nothing matched.
    NoMatch,
    /// Every alternative of an alternation was exhausted.
    OneOf,
    /// A repetition that needs at least one element found none.
    OneOrMore,
    /// A decimal digit was expected and not found.
    ExpectedDigit,
    /// A string literal ran into a line break or the end of the input
    /// before its closing quote.
    UnterminatedStringLiteral,
}

} // verus!
