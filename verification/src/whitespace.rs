//! The whitespace skipper that runs before every token match.  It is
//! total: it consumes the longest run of spaces, tabs and line breaks at
//! the front of the input and moves the cursor over them.

use vstd::prelude::*;
use vstd::slice::slice_subrange;

use crate::pointer::{
    consumed_ok, cursor_after, is_line_break, lemma_cursor_after_push, Pointer,
};

verus! {

/// A byte that counts as insignificant whitespace between tokens.
pub open spec fn is_ws_byte(b: u8) -> bool {
    b == 32 || b == 9 || b == 10 || b == 13
}

/// The length of the whitespace run at the front of `s`.
pub open spec fn ws_len(s: Seq<u8>) -> nat
    decreases s.len(),
{
    if s.len() > 0 && is_ws_byte(s[0]) {
        (1 + ws_len(s.skip(1))) as nat
    } else {
        0
    }
}

/// The whitespace run never runs past the end of the input.
pub proof fn lemma_ws_len_le(s: Seq<u8>)
    ensures
        ws_len(s) <= s.len(),
    decreases s.len(),
{
    if s.len() > 0 && is_ws_byte(s[0]) {
        lemma_ws_len_le(s.skip(1));
    }
}

/// `ws_len` is the unique cut `k` with whitespace before it and, unless
/// the input ends there, a non-whitespace byte at it.
pub proof fn lemma_ws_len_is(s: Seq<u8>, k: int)
    requires
        0 <= k <= s.len(),
        forall|j: int| 0 <= j < k ==> is_ws_byte(s[j]),
        k == s.len() || !is_ws_byte(s[k]),
    ensures
        ws_len(s) == k,
    decreases s.len(),
{
    if k == 0 {
        if s.len() > 0 {
            assert(!is_ws_byte(s[0]));
        }
    } else {
        assert(is_ws_byte(s[0]));
        assert forall|j: int| 0 <= j < k - 1 implies is_ws_byte(s.skip(1)[j]) by {
            assert(s.skip(1)[j] == s[j + 1]);
        }
        if k < s.len() {
            assert(s.skip(1)[k - 1] == s[k]);
        }
        lemma_ws_len_is(s.skip(1), k - 1);
    }
}

/// Every byte of the whitespace run is whitespace.
pub proof fn lemma_ws_len_bytes(s: Seq<u8>)
    ensures
        forall|j: int| 0 <= j < ws_len(s) ==> is_ws_byte(s[j]),
    decreases s.len(),
{
    if s.len() > 0 && is_ws_byte(s[0]) {
        lemma_ws_len_le(s);
        lemma_ws_len_le(s.skip(1));
        lemma_ws_len_bytes(s.skip(1));
        assert forall|j: int| 0 <= j < ws_len(s) implies is_ws_byte(s[j]) by {
            if j > 0 {
                assert(s.skip(1)[j - 1] == s[j]);
            }
        }
    }
}

/// The whitespace run ends at the end of the input or just before a
/// byte that is not whitespace.
pub proof fn lemma_ws_len_stop(s: Seq<u8>)
    ensures
        ws_len(s) < s.len() ==> !is_ws_byte(s[ws_len(s) as int]),
    decreases s.len(),
{
    if s.len() > 0 && is_ws_byte(s[0]) {
        lemma_ws_len_le(s.skip(1));
        lemma_ws_len_stop(s.skip(1));
        if ws_len(s) < s.len() {
            assert(s.skip(1)[ws_len(s.skip(1)) as int] == s[ws_len(s) as int]);
        }
    }
}

/// Appending whitespace extends the whitespace run only when the run
/// already covered the whole input.
pub proof fn lemma_ws_len_append(s: Seq<u8>, w: Seq<u8>)
    requires
        forall|j: int| 0 <= j < w.len() ==> is_ws_byte(w[j]),
    ensures
        ws_len(s + w) == if ws_len(s) == s.len() {
            (s.len() + w.len()) as int
        } else {
            ws_len(s) as int
        },
{
    lemma_ws_len_le(s);
    lemma_ws_len_bytes(s);
    lemma_ws_len_stop(s);
    if ws_len(s) == s.len() {
        assert forall|j: int| 0 <= j < (s + w).len() implies is_ws_byte((s + w)[j]) by {
            if j < s.len() {
                assert((s + w)[j] == s[j]);
            } else {
                assert((s + w)[j] == w[j - s.len()]);
            }
        }
        lemma_ws_len_is(s + w, (s.len() + w.len()) as int);
    } else {
        assert forall|j: int| 0 <= j < ws_len(s) implies is_ws_byte((s + w)[j]) by {
            assert((s + w)[j] == s[j]);
        }
        assert((s + w)[ws_len(s) as int] == s[ws_len(s) as int]);
        lemma_ws_len_is(s + w, ws_len(s) as int);
    }
}

/// Prepending a run of whitespace lengthens the whitespace run by exactly
/// that much.
pub proof fn lemma_ws_len_concat(w: Seq<u8>, s: Seq<u8>)
    requires
        forall|j: int| 0 <= j < w.len() ==> is_ws_byte(w[j]),
    ensures
        ws_len(w + s) == w.len() + ws_len(s),
    decreases w.len(),
{
    if w.len() == 0 {
        assert(w + s =~= s);
    } else {
        assert((w + s)[0] == w[0]);
        assert((w + s).skip(1) =~= w.skip(1) + s);
        assert forall|j: int| 0 <= j < w.skip(1).len() implies is_ws_byte(w.skip(1)[j]) by {
            assert(w.skip(1)[j] == w[j + 1]);
        }
        lemma_ws_len_concat(w.skip(1), s);
        lemma_ws_len_le(s);
    }
}

/// Scans leading whitespace, returning the rest of the input and the
/// cursor moved over the skipped run.  Total: it cannot fail.
pub fn whitespace<'a>(i: &'a [u8], ptr: Pointer) -> (r: (&'a [u8], Pointer))
    requires
        ptr.row + i@.len() <= usize::MAX,
        ptr.col + i@.len() <= usize::MAX,
    ensures
        r.0@ == i@.skip(ws_len(i@) as int),
        consumed_ok(i@, ptr, r.0@, r.1),
{
    let mut k: usize = 0;
    let mut row = ptr.row;
    let mut col = ptr.col;
    while k < i.len() && (i[k] == 32 || i[k] == 9 || i[k] == 10 || i[k] == 13)
        invariant
            k <= i@.len(),
            ptr.row + i@.len() <= usize::MAX,
            ptr.col + i@.len() <= usize::MAX,
            forall|j: int| 0 <= j < k ==> is_ws_byte(i@[j]),
            (row as int, col as int) == cursor_after(ptr.row as int, ptr.col as int, i@.take(k as int)),
            row <= ptr.row + k,
            col <= ptr.col + k,
        decreases i@.len() - k,
    {
        proof {
            assert(i@.take(k + 1 as int) =~= i@.take(k as int).push(i@[k as int]));
            lemma_cursor_after_push(ptr.row as int, ptr.col as int, i@.take(k as int), i@[k as int]);
        }
        if i[k] == 10 || i[k] == 13 {
            row = row + 1;
            col = 0;
        } else {
            col = col + 1;
        }
        k = k + 1;
    }
    proof {
        lemma_ws_len_is(i@, k as int);
    }
    let rest = slice_subrange(i, k, i.len());
    proof {
        assert(rest@ =~= i@.skip(k as int));
    }
    (rest, Pointer::new(row, col))
}

} // verus!
