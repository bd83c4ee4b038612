//! The cursor threaded through every parser: a row/column pair, advanced
//! by value and never mutated in place, together with the specification of
//! how a cursor moves over consumed text.

use vstd::prelude::*;

verus! {

/// A pointer to somewhere in the parsed code.
#[derive(Debug, Copy, Clone, Eq, PartialEq, Ord, PartialOrd, Structural)]
pub struct Pointer {
    pub row: usize,
    pub col: usize,
}

impl Pointer {
    pub fn new(row: usize, col: usize) -> (p: Self)
        ensures
            p.row == row,
            p.col == col,
    {
        Self { row, col }
    }

    /// Adds a row to the pointer. Rows are only encountered on newlines.
    pub fn add_row(self, row: usize) -> (p: Self)
        requires
            self.row + row <= usize::MAX,
        ensures
            p.row == self.row + row,
            p.col == self.col,
    {
        Pointer::new(self.row + row, self.col)
    }

    /// Adds a column to the pointer.
    pub fn add_col(self, col: usize) -> (p: Self)
        requires
            self.col + col <= usize::MAX,
        ensures
            p.row == self.row,
            p.col == self.col + col,
    {
        Pointer::new(self.row, self.col + col)
    }
}

/// A byte that ends the current line of source text.
pub open spec fn is_line_break(b: u8) -> bool {
    b == 10 || b == 13
}

/// The row/column pair reached from `(row, col)` by moving over the bytes
/// of `s`: a line break starts a new row at column zero, and every other
/// byte advances the column by one.
pub open spec fn cursor_after(row: int, col: int, s: Seq<u8>) -> (int, int)
    decreases s.len(),
{
    if s.len() == 0 {
        (row, col)
    } else if is_line_break(s[0]) {
        cursor_after(row + 1, 0, s.skip(1))
    } else {
        cursor_after(row, col + 1, s.skip(1))
    }
}

/// Moving over a row of text never moves the cursor backwards, and moves
/// each coordinate by at most the length of the text.
pub proof fn lemma_cursor_after_bounds(row: int, col: int, s: Seq<u8>)
    requires
        0 <= row,
        0 <= col,
    ensures
        row <= cursor_after(row, col, s).0 <= row + s.len(),
        0 <= cursor_after(row, col, s).1 <= col + s.len(),
    decreases s.len(),
{
    if s.len() > 0 {
        if is_line_break(s[0]) {
            lemma_cursor_after_bounds(row + 1, 0, s.skip(1));
        } else {
            lemma_cursor_after_bounds(row, col + 1, s.skip(1));
        }
    }
}

/// Moving over `a + b` is moving over `a`, then over `b`.
pub proof fn lemma_cursor_after_concat(row: int, col: int, a: Seq<u8>, b: Seq<u8>)
    ensures
        cursor_after(row, col, a + b) == {
            let m = cursor_after(row, col, a);
            cursor_after(m.0, m.1, b)
        },
    decreases a.len(),
{
    if a.len() == 0 {
        assert(a + b =~= b);
    } else {
        assert((a + b)[0] == a[0]);
        assert((a + b).skip(1) =~= a.skip(1) + b);
        if is_line_break(a[0]) {
            lemma_cursor_after_concat(row + 1, 0, a.skip(1), b);
        } else {
            lemma_cursor_after_concat(row, col + 1, a.skip(1), b);
        }
    }
}

/// Appending one byte moves the cursor by one step.
pub proof fn lemma_cursor_after_push(row: int, col: int, s: Seq<u8>, b: u8)
    ensures
        cursor_after(row, col, s.push(b)) == {
            let m = cursor_after(row, col, s);
            if is_line_break(b) {
                (m.0 + 1, 0int)
            } else {
                (m.0, m.1 + 1)
            }
        },
{
    assert(s.push(b) =~= s + seq![b]);
    lemma_cursor_after_concat(row, col, s, seq![b]);
    let m = cursor_after(row, col, s);
    assert(cursor_after(m.0, m.1, seq![b]) == {
        if is_line_break(b) {
            (m.0 + 1, 0int)
        } else {
            (m.0, m.1 + 1)
        }
    }) by {
        reveal_with_fuel(cursor_after, 2);
        assert(seq![b].skip(1).len() == 0);
    }
}

/// Over text without line breaks the cursor stays on its row and advances
/// the column by the length of the text.
pub proof fn lemma_cursor_after_no_breaks(row: int, col: int, s: Seq<u8>)
    requires
        forall|j: int| 0 <= j < s.len() ==> !is_line_break(s[j]),
    ensures
        cursor_after(row, col, s) == (row, col + s.len()),
    decreases s.len(),
{
    if s.len() > 0 {
        assert(!is_line_break(s[0]));
        lemma_cursor_after_no_breaks(row, col + 1, s.skip(1));
    }
}

/// The pair `(rest, p2)` a parser returned is faithful to its input
/// `(i, p)`: `rest` is an untouched tail of `i`, and `p2` is `p` moved
/// over exactly the prefix of `i` that was consumed.
pub open spec fn consumed_ok(i: Seq<u8>, p: Pointer, rest: Seq<u8>, p2: Pointer) -> bool {
    &&& rest.len() <= i.len()
    &&& rest == i.skip(i.len() - rest.len())
    &&& (p2.row as int, p2.col as int) == cursor_after(
        p.row as int,
        p.col as int,
        i.take(i.len() - rest.len()),
    )
}

/// A parser that consumes nothing and keeps its cursor is faithful.
pub proof fn lemma_consumed_refl(i: Seq<u8>, p: Pointer)
    ensures
        consumed_ok(i, p, i, p),
{
    assert(i =~= i.skip(0));
    assert(i.take(0).len() == 0);
}

/// A faithful parser step moves each cursor coordinate by at most the
/// number of bytes it consumed.
pub proof fn lemma_consumed_bounds(i: Seq<u8>, p: Pointer, rest: Seq<u8>, p2: Pointer)
    requires
        consumed_ok(i, p, rest, p2),
    ensures
        p2.row <= p.row + (i.len() - rest.len()),
        p2.col <= p.col + (i.len() - rest.len()),
        rest.len() <= i.len(),
{
    lemma_cursor_after_bounds(p.row as int, p.col as int, i.take(i.len() - rest.len()));
}

/// Faithful consumption composes: a parser step from `(i, p)` to
/// `(r1, p1)` followed by one from `(r1, p1)` to `(r2, p2)` is a faithful
/// step from `(i, p)` to `(r2, p2)`.
pub proof fn lemma_consumed_trans(
    i: Seq<u8>,
    p: Pointer,
    r1: Seq<u8>,
    p1: Pointer,
    r2: Seq<u8>,
    p2: Pointer,
)
    requires
        consumed_ok(i, p, r1, p1),
        consumed_ok(r1, p1, r2, p2),
    ensures
        consumed_ok(i, p, r2, p2),
{
    let k1 = i.len() - r1.len();
    let k2 = r1.len() - r2.len();
    let c1 = i.take(k1);
    let c2 = r1.take(k2);
    assert(r2 =~= i.skip(i.len() - r2.len()));
    assert(i.take(i.len() - r2.len()) =~= c1 + c2);
    lemma_cursor_after_concat(p.row as int, p.col as int, c1, c2);
}

} // verus!
