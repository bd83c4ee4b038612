//! The `name: type` field helper the record grammar is built from.

use vstd::prelude::*;

use crate::parse_error::ParseError;
use crate::pointer::{consumed_ok, lemma_consumed_bounds, lemma_consumed_trans, Pointer};
use crate::tokens::{colon, spec_match, Tok};
use crate::types::{spec_yaupl_type, yaupl_type, Type, TypeV};
use crate::whitespace::lemma_ws_len_le;
use crate::{ident, lemma_ident_len_le, spec_ident, Identifier};

verus! {

/// A parsed key and value, each with the cursor where its parse ended.
#[derive(Debug)]
pub struct KeyValuePair<K, V> {
    pub key: (K, Pointer),
    pub value: (V, Pointer),
}

impl<K, V> KeyValuePair<K, V> {
    pub fn new(key: (K, Pointer), value: (V, Pointer)) -> (r: Self)
        ensures
            r.key == key,
            r.value == value,
    {
        Self { key, value }
    }
}

/// What parsing one `name: type` field returns: the field name, a
/// colon, and the field's type.
pub open spec fn spec_kvp(s: Seq<u8>) -> Result<(Seq<u8>, (Seq<u8>, TypeV)), ParseError>
    decreases s.len(), 0int,
{
    match spec_ident(s) {
        Err(e) => Err(e),
        Ok((r1, name)) => match spec_match(Tok::Colon, r1) {
            Err(e) => Err(e),
            Ok(r2) => {
                if r2.len() < s.len() {
                    match spec_yaupl_type(r2) {
                        Err(e) => Err(e),
                        Ok((r3, t)) => Ok((r3, (name, t))),
                    }
                } else {
                    Err(ParseError::NoMatch)
                }
            },
        },
    }
}

/// A successful identifier parse consumes input.
pub proof fn lemma_spec_ident_consumes(s: Seq<u8>)
    ensures
        crate::spec_ident(s) is Ok ==> (crate::spec_ident(s)->Ok_0).0.len() < s.len(),
{
    lemma_ws_len_le(s);
    lemma_ident_len_le(s.skip(crate::whitespace::ws_len(s) as int));
}

/// A successful field parse consumes input.
pub proof fn lemma_spec_kvp_consumes(s: Seq<u8>)
    ensures
        spec_kvp(s) is Ok ==> (spec_kvp(s)->Ok_0).0.len() < s.len(),
    decreases s.len(), 0int,
{
    match spec_ident(s) {
        Err(_) => {},
        Ok((r1, _name)) => {
            lemma_spec_ident_consumes(s);
            match spec_match(Tok::Colon, r1) {
                Err(_) => {},
                Ok(r2) => {
                    crate::types::lemma_spec_match_consumes(Tok::Colon, r1);
                    if r2.len() < s.len() {
                        crate::types::lemma_yaupl_type_consumes(r2);
                    }
                },
            }
        },
    }
}

/// Trailing whitespace is insignificant to a field parse: it simply
/// stays in the rest.
pub proof fn lemma_spec_kvp_app(s: Seq<u8>, w: Seq<u8>)
    requires
        forall|j: int| 0 <= j < w.len() ==> crate::whitespace::is_ws_byte(w[j]),
    ensures
        spec_kvp(s + w) == match spec_kvp(s) {
            Ok((r, kv)) => Ok::<(Seq<u8>, (Seq<u8>, TypeV)), ParseError>((r + w, kv)),
            Err(e) => Err::<(Seq<u8>, (Seq<u8>, TypeV)), ParseError>(e),
        },
    decreases s.len(), 0int,
{
    crate::lemma_spec_ident_app(s, w);
    match spec_ident(s) {
        Err(_) => {},
        Ok((r1, _name)) => {
            lemma_spec_ident_consumes(s);
            crate::tokens::lemma_spec_match_app(Tok::Colon, r1, w);
            match spec_match(Tok::Colon, r1) {
                Err(_) => {},
                Ok(r2) => {
                    crate::types::lemma_spec_match_consumes(Tok::Colon, r1);
                    if r2.len() < s.len() {
                        crate::types::lemma_spec_yaupl_type_app(r2, w);
                    }
                },
            }
        },
    }
}

/// Parses one `name: type` field: an identifier, a colon, then a full
/// type expression.
pub fn key_value_pair<'a>(i: &'a [u8], ptr: Pointer) -> (r: Result<
    (&'a [u8], Pointer, KeyValuePair<Identifier, Type>),
    ParseError,
>)
    requires
        ptr.row + i@.len() <= usize::MAX,
        ptr.col + i@.len() <= usize::MAX,
    ensures
        match r {
            Ok((rest, p2, kvp)) => {
                &&& spec_kvp(i@) == Ok::<(Seq<u8>, (Seq<u8>, TypeV)), ParseError>(
                    (rest@, (kvp.key.0.0@, kvp.value.0@)),
                )
                &&& consumed_ok(i@, ptr, rest@, p2)
            },
            Err(e) => spec_kvp(i@) == Err::<(Seq<u8>, (Seq<u8>, TypeV)), ParseError>(e),
        },
    decreases i@.len(), 0int,
{
    let (i1, p1, identifier) = match ident(i, ptr) {
        Ok(x) => x,
        Err(e) => {
            return Err(e);
        },
    };
    proof {
        lemma_spec_ident_consumes(i@);
        lemma_consumed_bounds(i@, ptr, i1@, p1);
    }
    let ident_ptr = p1;
    let (i2, p2, _colon) = match colon(i1, p1) {
        Ok(x) => x,
        Err(e) => {
            return Err(e);
        },
    };
    proof {
        crate::types::lemma_spec_match_consumes(Tok::Colon, i1@);
        lemma_consumed_trans(i@, ptr, i1@, p1, i2@, p2);
        lemma_consumed_bounds(i@, ptr, i2@, p2);
    }
    let (i3, p3, found_type) = match yaupl_type(i2, p2) {
        Ok(x) => x,
        Err(e) => {
            return Err(e);
        },
    };
    proof {
        lemma_consumed_trans(i@, ptr, i2@, p2, i3@, p3);
    }
    let type_ptr = p3;
    Ok(
        (
            i3,
            p3,
            KeyValuePair { key: (identifier, ident_ptr), value: (found_type, type_ptr) },
        ),
    )
}

} // verus!
