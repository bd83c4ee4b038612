//! The type grammar: primitives, tuples, functions, records ("complex"
//! types) and the postfix group modifier, composed recursively into the
//! top-level entry point `yaupl_type`.
//!
//! ```text
//! Type        := Atom Group*
//! Atom        := Primitive | Function | Tuple | Complex
//! Primitive   := "str" | "num" | "bln" | "___"
//! Tuple       := "[|" (Type ("," Type)*)? "|]"
//! Function    := Tuple "=>" Type
//! Complex     := "|-" (Identifier ":" Type ("," Identifier ":" Type)*)? "-|"
//! Group       := "@"
//! ```
//!
//! Alternation order is primitive, then function, then tuple, then
//! complex.  `Function` begins by parsing a full tuple and only then
//! checks for the arrow, so a bare tuple is parsed twice in the worst
//! case: intentional redundancy traded for simplicity, safe because
//! parsing never mutates its input.
//!
//! Every executable parser is specified by a parser over byte
//! sequences.  The specification parsers take no cursor: what a parse
//! returns can therefore never depend on the cursor it started from.

use vstd::prelude::*;

use crate::combinators::{one_of, spec_one_of};
use crate::parse_error::ParseError;
use crate::pointer::{
    consumed_ok, lemma_consumed_bounds, lemma_consumed_trans, Pointer,
};
use crate::tokens::{
    group, has_prefix, lemma_tok_text_wf, spec_match, tesla_close, tesla_open, tok_text, tuple_close,
    tuple_open, arrow_right_thick, Tok,
};
use crate::utils::{key_value_pair, lemma_spec_kvp_consumes, spec_kvp, KeyValuePair};
use crate::whitespace::lemma_ws_len_le;
use crate::Identifier;

verus! {

/// The basic types of the language.
#[derive(Debug, Ord, PartialOrd, Eq, PartialEq, Copy, Clone)]
pub enum PrimitiveType {
    Str,
    Bln,
    Num,
    Emp,
}

/// An unsized collection of values of one type, written with a trailing
/// `@` sigil.
#[derive(Debug, Ord, PartialOrd, Eq, PartialEq)]
pub struct Group(pub Box<Type>);

/// A collection of loosely-related types, order-significant.
#[derive(Debug, Ord, PartialOrd, Eq, PartialEq)]
pub struct Tuple(pub Vec<Type>);

/// A function type: the parameter types and the return type.
#[derive(Debug, Ord, PartialOrd, Eq, PartialEq)]
pub struct Function {
    pub parameters: Vec<Type>,
    pub return_type: Box<Type>,
}

/// A parsed type expression.
#[derive(Debug, Ord, PartialOrd, Eq, PartialEq)]
pub enum Type {
    /// The basic types.
    /// ### Examples
    /// ```yaupl
    /// str
    /// ```
    Primitive(PrimitiveType),
    /// Used for a collection of loosely-related types.
    /// ### Examples
    /// ```yaupl
    /// [|str, num, [|str, bln|]=>num|]
    /// ```
    Tuple(Tuple),
    /// Used for an unsized collection of something of the same type.
    /// ### Examples
    /// ```yaupl
    /// num@@
    /// ```
    Group(Group),
    /// Synonymous to a struct: fields mapping a name to a type, held
    /// sorted by name, with unique names.
    /// ### Examples
    /// ```yaupl
    /// |-a: str, b: bln@, c: [|num, bln|]=>___-|
    /// ```
    Complex(Vec<(Identifier, Type)>),
    /// A function that takes the types of the left side of the arrow and
    /// returns the right side.
    /// ### Examples
    /// ```yaupl
    /// [|num, bln|]=>___
    /// ```
    Function(Function),
}

/// The mathematical shape of a parsed type: the model that contracts
/// and the specification parser speak of.
#[verifier::ext_equal]
pub enum TypeV {
    Primitive(PrimitiveType),
    Tuple(Seq<TypeV>),
    Group(Box<TypeV>),
    /// Fields sorted by name, names unique.
    Complex(Seq<(Seq<u8>, TypeV)>),
    Function { parameters: Seq<TypeV>, return_type: Box<TypeV> },
}

/// The models of a sequence of types.
pub open spec fn types_view(ts: Seq<Type>) -> Seq<TypeV>
    decreases ts,
{
    if ts.len() == 0 {
        Seq::empty()
    } else {
        types_view(ts.drop_last()).push(ts.last()@)
    }
}

/// The models of a sequence of record fields.
pub open spec fn fields_view(fs: Seq<(Identifier, Type)>) -> Seq<(Seq<u8>, TypeV)>
    decreases fs,
{
    if fs.len() == 0 {
        Seq::empty()
    } else {
        fields_view(fs.drop_last()).push((fs.last().0.0@, fs.last().1@))
    }
}

/// A type sequence and its model line up element by element.
pub proof fn lemma_types_view_index(ts: Seq<Type>)
    ensures
        types_view(ts).len() == ts.len(),
        forall|j: int| 0 <= j < ts.len() ==> types_view(ts)[j] == ts[j]@,
    decreases ts.len(),
{
    if ts.len() > 0 {
        lemma_types_view_index(ts.drop_last());
        assert(types_view(ts) == types_view(ts.drop_last()).push(ts.last()@));
        assert(types_view(ts).len() == ts.len());
        assert forall|j: int| 0 <= j < ts.len() implies types_view(ts)[j] == ts[j]@ by {
            if j < ts.len() - 1 {
                assert(ts.drop_last()[j] == ts[j]);
                assert(types_view(ts)[j] == types_view(ts.drop_last())[j]);
            } else {
                assert(types_view(ts)[j] == ts.last()@);
            }
        }
    }
}

/// A field sequence and its model line up element by element.
pub proof fn lemma_fields_view_index(fs: Seq<(Identifier, Type)>)
    ensures
        fields_view(fs).len() == fs.len(),
        forall|j: int|
            0 <= j < fs.len() ==> #[trigger] fields_view(fs)[j] == (fs[j].0.0@, fs[j].1@),
    decreases fs.len(),
{
    if fs.len() > 0 {
        lemma_fields_view_index(fs.drop_last());
        assert(fields_view(fs).len() == fs.len());
        assert forall|j: int|
            0 <= j < fs.len() implies #[trigger] fields_view(fs)[j] == (fs[j].0.0@, fs[j].1@) by {
            if j < fs.len() - 1 {
                assert(fs.drop_last()[j] == fs[j]);
                assert(fields_view(fs)[j] == fields_view(fs.drop_last())[j]);
            } else {
                assert(fields_view(fs)[j] == (fs.last().0.0@, fs.last().1@));
            }
        }
    }
}

/// Appending a type appends its model.
pub proof fn lemma_types_view_push(ts: Seq<Type>, t: Type)
    ensures
        types_view(ts.push(t)) == types_view(ts).push(t@),
{
    assert(ts.push(t).drop_last() =~= ts);
}

impl View for Type {
    type V = TypeV;

    open spec fn view(&self) -> TypeV
        decreases self,
    {
        match self {
            Type::Primitive(p) => TypeV::Primitive(*p),
            Type::Tuple(t) => TypeV::Tuple(types_view(t.0@)),
            Type::Group(g) => TypeV::Group(Box::new((*g.0)@)),
            Type::Complex(fs) => TypeV::Complex(fields_view(fs@)),
            Type::Function(f) => TypeV::Function {
                parameters: types_view(f.parameters@),
                return_type: Box::new((*f.return_type)@),
            },
        }
    }
}

/// What a type parse returns: the remaining input and the model of the
/// parsed type, or the error.
pub type SpecTypeResult = Result<(Seq<u8>, TypeV), ParseError>;

/// The primitive keywords, in the order the parser tries them.
pub open spec fn prim_toks() -> Seq<Tok> {
    seq![Tok::KeywordStr, Tok::KeywordNum, Tok::KeywordBln, Tok::KeywordEmp]
}

/// The primitive type a primitive keyword stands for.
pub open spec fn prim_of_tok(t: Tok) -> PrimitiveType {
    match t {
        Tok::KeywordStr => PrimitiveType::Str,
        Tok::KeywordNum => PrimitiveType::Num,
        Tok::KeywordBln => PrimitiveType::Bln,
        _ => PrimitiveType::Emp,
    }
}

/// What parsing a primitive type returns: the first of the primitive
/// keywords that matches.
pub open spec fn spec_primitive(s: Seq<u8>) -> SpecTypeResult {
    match spec_one_of(prim_toks(), s) {
        Ok((r, t)) => Ok((r, TypeV::Primitive(prim_of_tok(t)))),
        Err(e) => Err(e),
    }
}

/// What greedily consuming trailing group sigils returns: the type
/// wrapped once per sigil consumed.  Total.  Each sigil consumes input,
/// which the bound records so that the recursion is well-founded.
pub open spec fn spec_groups(s: Seq<u8>, t: TypeV) -> (Seq<u8>, TypeV)
    decreases s.len(),
{
    match spec_match(Tok::Group, s) {
        Ok(r) => {
            if r.len() < s.len() {
                spec_groups(r, TypeV::Group(Box::new(t)))
            } else {
                (s, t)
            }
        },
        Err(_) => (s, t),
    }
}

/// What the comma-separated repetition of types collects: types one
/// after the other, each optionally followed by a comma, stopping as
/// soon as a type fails to parse.  Total: finding no element is not an
/// error here.  Each element consumes input, which the bounds record so
/// that the recursion is well-founded.
pub open spec fn spec_type_list(s: Seq<u8>) -> (Seq<u8>, Seq<TypeV>)
    decreases s.len(), 4int,
{
    match spec_yaupl_type(s) {
        Err(_) => (s, Seq::empty()),
        Ok((r1, t)) => {
            let r2 = match spec_match(Tok::Comma, r1) {
                Ok(rc) => rc,
                Err(_) => r1,
            };
            if r2.len() < s.len() {
                let (r3, ts) = spec_type_list(r2);
                (r3, seq![t] + ts)
            } else {
                (r2, seq![t])
            }
        },
    }
}

/// What parsing a tuple returns: `[|`, a possibly empty list of types,
/// `|]`.
pub open spec fn spec_tuple(s: Seq<u8>) -> SpecTypeResult
    decreases s.len(), 1int,
{
    match spec_match(Tok::TupleOpen, s) {
        Err(e) => Err(e),
        Ok(r1) => {
            if r1.len() < s.len() {
                let (r2, ts) = spec_type_list(r1);
                match spec_match(Tok::TupleClose, r2) {
                    Err(e) => Err(e),
                    Ok(r3) => Ok((r3, TypeV::Tuple(ts))),
                }
            } else {
                Err(ParseError::NoMatch)
            }
        },
    }
}

/// What parsing a function type returns: a full tuple, the `=>` arrow,
/// then the return type.
pub open spec fn spec_function(s: Seq<u8>) -> SpecTypeResult
    decreases s.len(), 2int,
{
    match spec_match(Tok::TupleOpen, s) {
        Err(e) => Err(e),
        Ok(r1) => {
            if r1.len() < s.len() {
                let (r2, ts) = spec_type_list(r1);
                match spec_match(Tok::TupleClose, r2) {
                    Err(e) => Err(e),
                    Ok(r3) => match spec_match(Tok::ArrowRightThick, r3) {
                        Err(e) => Err(e),
                        Ok(r4) => {
                            if r4.len() < s.len() {
                                match spec_yaupl_type(r4) {
                                    Err(e) => Err(e),
                                    Ok((r5, ret)) => Ok(
                                        (
                                            r5,
                                            TypeV::Function {
                                                parameters: ts,
                                                return_type: Box::new(ret),
                                            },
                                        ),
                                    ),
                                }
                            } else {
                                Err(ParseError::NoMatch)
                            }
                        },
                    },
                }
            } else {
                Err(ParseError::NoMatch)
            }
        },
    }
}

/// Lexicographic order on byte sequences: the order record field names
/// are sorted in.
pub open spec fn bytes_lt(a: Seq<u8>, b: Seq<u8>) -> bool
    decreases a.len(),
{
    if b.len() == 0 {
        false
    } else if a.len() == 0 {
        true
    } else if a[0] < b[0] {
        true
    } else if a[0] > b[0] {
        false
    } else {
        bytes_lt(a.skip(1), b.skip(1))
    }
}

/// Inserts a field into a name-sorted field list, keeping it sorted;
/// a field whose name is already present replaces the earlier entry, so
/// later writes win.
pub open spec fn kv_insert(
    m: Seq<(Seq<u8>, TypeV)>,
    k: Seq<u8>,
    v: TypeV,
) -> Seq<(Seq<u8>, TypeV)>
    decreases m.len(),
{
    if m.len() == 0 {
        seq![(k, v)]
    } else if bytes_lt(k, m[0].0) {
        seq![(k, v)] + m
    } else if k == m[0].0 {
        seq![(k, v)] + m.skip(1)
    } else {
        seq![m[0]] + kv_insert(m.skip(1), k, v)
    }
}

/// Folds parsed fields, in source order, into a name-sorted field list.
pub open spec fn kv_fold(
    m: Seq<(Seq<u8>, TypeV)>,
    kvs: Seq<(Seq<u8>, TypeV)>,
) -> Seq<(Seq<u8>, TypeV)>
    decreases kvs.len(),
{
    if kvs.len() == 0 {
        m
    } else {
        kv_fold(kv_insert(m, kvs[0].0, kvs[0].1), kvs.skip(1))
    }
}

/// What the repetition of `name: type` fields collects: fields while
/// they parse, continuing only over a comma.  Total.
pub open spec fn spec_kvps(s: Seq<u8>) -> (Seq<u8>, Seq<(Seq<u8>, TypeV)>)
    decreases s.len(), 5int,
{
    match spec_kvp(s) {
        Err(_) => (s, Seq::empty()),
        Ok((r1, kv)) => match spec_match(Tok::Comma, r1) {
            Err(_) => (r1, seq![kv]),
            Ok(rc) => {
                if rc.len() < s.len() {
                    let (r2, kvs) = spec_kvps(rc);
                    (r2, seq![kv] + kvs)
                } else {
                    (r1, seq![kv])
                }
            },
        },
    }
}

/// What parsing a record type returns: `|-`, a possibly empty list of
/// `name: type` fields, `-|`; the fields folded into a name-sorted
/// list, later duplicates silently replacing earlier ones.
pub open spec fn spec_complex(s: Seq<u8>) -> SpecTypeResult
    decreases s.len(), 0int,
{
    match spec_match(Tok::TeslaOpen, s) {
        Err(e) => Err(e),
        Ok(r1) => {
            if r1.len() < s.len() {
                let (r2, kvs) = spec_kvps(r1);
                match spec_match(Tok::TeslaClose, r2) {
                    Err(e) => Err(e),
                    Ok(r3) => Ok((r3, TypeV::Complex(kv_fold(Seq::empty(), kvs)))),
                }
            } else {
                Err(ParseError::NoMatch)
            }
        },
    }
}

/// What parsing a type expression returns: the first atom alternative
/// that succeeds — primitive, function, tuple, complex, in that order —
/// wrapped once per trailing group sigil.  When every alternative
/// fails, the branch errors are discarded and the failure is the
/// generic one: no alternative matched.
pub open spec fn spec_yaupl_type(s: Seq<u8>) -> SpecTypeResult
    decreases s.len(), 3int,
{
    let atom = if spec_primitive(s) is Ok {
        spec_primitive(s)
    } else if spec_function(s) is Ok {
        spec_function(s)
    } else if spec_tuple(s) is Ok {
        spec_tuple(s)
    } else {
        spec_complex(s)
    };
    match atom {
        Ok((r, t)) => {
            let (r2, t2) = spec_groups(r, t);
            Ok((r2, t2))
        },
        Err(_) => Err(ParseError::NoMatch),
    }
}

/// A successful token match consumes the token's text.
pub proof fn lemma_spec_match_consumes(t: Tok, s: Seq<u8>)
    ensures
        spec_match(t, s) is Ok ==> (spec_match(t, s)->Ok_0).len() + tok_text(t).len() <= s.len(),
        spec_match(t, s) is Ok ==> (spec_match(t, s)->Ok_0).len() < s.len(),
{
    lemma_ws_len_le(s);
    lemma_tok_text_wf(t);
}

/// A successful alternation over tokens consumes input.
pub proof fn lemma_spec_one_of_consumes(ts: Seq<Tok>, s: Seq<u8>)
    ensures
        spec_one_of(ts, s) is Ok ==> (spec_one_of(ts, s)->Ok_0).0.len() < s.len(),
    decreases ts.len(),
{
    if ts.len() > 0 {
        lemma_spec_match_consumes(ts[0], s);
        lemma_spec_one_of_consumes(ts.skip(1), s);
    }
}

/// Consuming group sigils never lengthens the input.
pub proof fn lemma_groups_shrinks(s: Seq<u8>, t: TypeV)
    ensures
        spec_groups(s, t).0.len() <= s.len(),
    decreases s.len(),
{
    match spec_match(Tok::Group, s) {
        Ok(r) => {
            lemma_spec_match_consumes(Tok::Group, s);
            if r.len() < s.len() {
                lemma_groups_shrinks(r, TypeV::Group(Box::new(t)));
            }
        },
        Err(_) => {},
    }
}

/// A successful type parse consumes input.
pub proof fn lemma_yaupl_type_consumes(s: Seq<u8>)
    ensures
        spec_yaupl_type(s) is Ok ==> (spec_yaupl_type(s)->Ok_0).0.len() < s.len(),
    decreases s.len(), 3int,
{
    if spec_primitive(s) is Ok {
        lemma_spec_one_of_consumes(prim_toks(), s);
        let (r, t) = spec_primitive(s)->Ok_0;
        lemma_groups_shrinks(r, t);
    } else if spec_function(s) is Ok {
        lemma_function_consumes(s);
        let (r, t) = spec_function(s)->Ok_0;
        lemma_groups_shrinks(r, t);
    } else if spec_tuple(s) is Ok {
        lemma_tuple_consumes(s);
        let (r, t) = spec_tuple(s)->Ok_0;
        lemma_groups_shrinks(r, t);
    } else {
        match spec_complex(s) {
            Ok((r, t)) => {
                lemma_complex_consumes(s);
                lemma_groups_shrinks(r, t);
            },
            Err(_) => {},
        }
    }
}

/// The repetition of types never lengthens the input.
pub proof fn lemma_type_list_shrinks(s: Seq<u8>)
    ensures
        spec_type_list(s).0.len() <= s.len(),
    decreases s.len(), 4int,
{
    match spec_yaupl_type(s) {
        Err(_) => {},
        Ok((r1, _t)) => {
            lemma_yaupl_type_consumes(s);
            lemma_spec_match_consumes(Tok::Comma, r1);
            let r2 = match spec_match(Tok::Comma, r1) {
                Ok(rc) => rc,
                Err(_) => r1,
            };
            if r2.len() < s.len() {
                lemma_type_list_shrinks(r2);
            }
        },
    }
}

/// A successful tuple parse consumes input.
pub proof fn lemma_tuple_consumes(s: Seq<u8>)
    ensures
        spec_tuple(s) is Ok ==> (spec_tuple(s)->Ok_0).0.len() < s.len(),
    decreases s.len(), 1int,
{
    match spec_match(Tok::TupleOpen, s) {
        Err(_) => {},
        Ok(r1) => {
            lemma_spec_match_consumes(Tok::TupleOpen, s);
            if r1.len() < s.len() {
                lemma_type_list_shrinks(r1);
                let (r2, _ts) = spec_type_list(r1);
                lemma_spec_match_consumes(Tok::TupleClose, r2);
            }
        },
    }
}

/// A successful function-type parse consumes input.
pub proof fn lemma_function_consumes(s: Seq<u8>)
    ensures
        spec_function(s) is Ok ==> (spec_function(s)->Ok_0).0.len() < s.len(),
    decreases s.len(), 2int,
{
    match spec_match(Tok::TupleOpen, s) {
        Err(_) => {},
        Ok(r1) => {
            lemma_spec_match_consumes(Tok::TupleOpen, s);
            if r1.len() < s.len() {
                lemma_type_list_shrinks(r1);
                let (r2, _ts) = spec_type_list(r1);
                lemma_spec_match_consumes(Tok::TupleClose, r2);
                match spec_match(Tok::TupleClose, r2) {
                    Err(_) => {},
                    Ok(r3) => {
                        lemma_spec_match_consumes(Tok::ArrowRightThick, r3);
                        match spec_match(Tok::ArrowRightThick, r3) {
                            Err(_) => {},
                            Ok(r4) => {
                                if r4.len() < s.len() {
                                    lemma_yaupl_type_consumes(r4);
                                }
                            },
                        }
                    },
                }
            }
        },
    }
}

/// The repetition of record fields never lengthens the input.
pub proof fn lemma_kvps_shrinks(s: Seq<u8>)
    ensures
        spec_kvps(s).0.len() <= s.len(),
    decreases s.len(), 5int,
{
    match spec_kvp(s) {
        Err(_) => {},
        Ok((r1, _kv)) => {
            lemma_spec_kvp_consumes(s);
            match spec_match(Tok::Comma, r1) {
                Err(_) => {},
                Ok(rc) => {
                    lemma_spec_match_consumes(Tok::Comma, r1);
                    if rc.len() < s.len() {
                        lemma_kvps_shrinks(rc);
                    }
                },
            }
        },
    }
}

/// A successful record parse consumes input.
pub proof fn lemma_complex_consumes(s: Seq<u8>)
    ensures
        spec_complex(s) is Ok ==> (spec_complex(s)->Ok_0).0.len() < s.len(),
    decreases s.len(), 0int,
{
    match spec_match(Tok::TeslaOpen, s) {
        Err(_) => {},
        Ok(r1) => {
            lemma_spec_match_consumes(Tok::TeslaOpen, s);
            if r1.len() < s.len() {
                lemma_kvps_shrinks(r1);
                let (r2, _kvs) = spec_kvps(r1);
                lemma_spec_match_consumes(Tok::TeslaClose, r2);
            }
        },
    }
}

/// Parses a primitive type: the first of the four primitive keywords
/// that matches.
pub fn primitive<'a>(i: &'a [u8], ptr: Pointer) -> (r: Result<
    (&'a [u8], Pointer, Type),
    ParseError,
>)
    requires
        ptr.row + i@.len() <= usize::MAX,
        ptr.col + i@.len() <= usize::MAX,
    ensures
        match r {
            Ok((rest, p2, t)) => {
                &&& spec_primitive(i@) == Ok::<(Seq<u8>, TypeV), ParseError>((rest@, t@))
                &&& consumed_ok(i@, ptr, rest@, p2)
            },
            Err(e) => spec_primitive(i@) == Err::<(Seq<u8>, TypeV), ParseError>(e),
        },
{
    let toks: Vec<Tok> = vec![Tok::KeywordStr, Tok::KeywordNum, Tok::KeywordBln, Tok::KeywordEmp];
    proof {
        assert(toks@ =~= prim_toks());
    }
    match one_of(i, ptr, toks.as_slice()) {
        Ok((rest, p2, v)) => {
            let p = match v {
                Tok::KeywordStr => PrimitiveType::Str,
                Tok::KeywordNum => PrimitiveType::Num,
                Tok::KeywordBln => PrimitiveType::Bln,
                _ => PrimitiveType::Emp,
            };
            proof {
                assert(p == prim_of_tok(v));
            }
            Ok((rest, p2, Type::Primitive(p)))
        },
        Err(e) => Err(e),
    }
}

/// Collects a comma-separated list of types, stopping as soon as a type
/// fails to parse.  Total: an empty list is not an error here.
pub fn type_list<'a>(i: &'a [u8], ptr: Pointer) -> (r: (&'a [u8], Pointer, Vec<Type>))
    requires
        ptr.row + i@.len() <= usize::MAX,
        ptr.col + i@.len() <= usize::MAX,
    ensures
        spec_type_list(i@) == (r.0@, types_view(r.2@)),
        consumed_ok(i@, ptr, r.0@, r.1),
    decreases i@.len(), 4int,
{
    let mut found: Vec<Type> = Vec::new();
    let mut cur: &[u8] = i;
    let mut p: Pointer = ptr;
    proof {
        crate::pointer::lemma_consumed_refl(i@, ptr);
        assert(types_view(found@) =~= Seq::<TypeV>::empty());
        assert(types_view(found@) + spec_type_list(cur@).1 =~= spec_type_list(i@).1);
    }
    loop
        invariant
            consumed_ok(i@, ptr, cur@, p),
            cur@.len() <= i@.len(),
            ptr.row + i@.len() <= usize::MAX,
            ptr.col + i@.len() <= usize::MAX,
            spec_type_list(i@).0 == spec_type_list(cur@).0,
            spec_type_list(i@).1 == types_view(found@) + spec_type_list(cur@).1,
        decreases cur@.len(),
    {
        proof {
            lemma_consumed_bounds(i@, ptr, cur@, p);
        }
        match yaupl_type(cur, p) {
            Err(_) => {
                proof {
                    assert(spec_type_list(cur@) == (cur@, Seq::<TypeV>::empty()));
                    assert(types_view(found@) + Seq::<TypeV>::empty() =~= types_view(found@));
                }
                return (cur, p, found);
            },
            Ok((r1, p1, t)) => {
                proof {
                    lemma_yaupl_type_consumes(cur@);
                    lemma_consumed_trans(i@, ptr, cur@, p, r1@, p1);
                    lemma_consumed_bounds(i@, ptr, r1@, p1);
                }
                let (r2, p2) = match crate::tokens::comma(r1, p1) {
                    Ok((rc, pc, _c)) => {
                        proof {
                            lemma_spec_match_consumes(Tok::Comma, r1@);
                            lemma_consumed_trans(i@, ptr, r1@, p1, rc@, pc);
                        }
                        (rc, pc)
                    },
                    Err(_) => (r1, p1),
                };
                proof {
                    assert(r2@.len() < cur@.len());
                    lemma_types_view_push(found@, t);
                    assert(types_view(found@) + (seq![t@] + spec_type_list(r2@).1)
                        =~= types_view(found@).push(t@) + spec_type_list(r2@).1);
                }
                found.push(t);
                cur = r2;
                p = p2;
            },
        }
    }
}

/// Parses a tuple type: `[|`, a possibly empty comma-separated list of
/// types, `|]`.
pub fn tuple<'a>(i: &'a [u8], ptr: Pointer) -> (r: Result<(&'a [u8], Pointer, Type), ParseError>)
    requires
        ptr.row + i@.len() <= usize::MAX,
        ptr.col + i@.len() <= usize::MAX,
    ensures
        match r {
            Ok((rest, p2, t)) => {
                &&& spec_tuple(i@) == Ok::<(Seq<u8>, TypeV), ParseError>((rest@, t@))
                &&& consumed_ok(i@, ptr, rest@, p2)
            },
            Err(e) => spec_tuple(i@) == Err::<(Seq<u8>, TypeV), ParseError>(e),
        },
    decreases i@.len(), 1int,
{
    let (r1, p1, _open) = match tuple_open(i, ptr) {
        Ok(x) => x,
        Err(e) => {
            return Err(e);
        },
    };
    proof {
        lemma_spec_match_consumes(Tok::TupleOpen, i@);
        lemma_consumed_bounds(i@, ptr, r1@, p1);
    }
    let (r2, p2, ts) = type_list(r1, p1);
    proof {
        lemma_consumed_trans(i@, ptr, r1@, p1, r2@, p2);
        lemma_consumed_bounds(i@, ptr, r2@, p2);
    }
    match tuple_close(r2, p2) {
        Err(e) => Err(e),
        Ok((r3, p3, _close)) => {
            proof {
                lemma_consumed_trans(i@, ptr, r2@, p2, r3@, p3);
            }
            Ok((r3, p3, Type::Tuple(Tuple(ts))))
        },
    }
}

/// Parses a function type: a full tuple, the `=>` arrow, then the
/// return type.
pub fn function<'a>(i: &'a [u8], ptr: Pointer) -> (r: Result<
    (&'a [u8], Pointer, Type),
    ParseError,
>)
    requires
        ptr.row + i@.len() <= usize::MAX,
        ptr.col + i@.len() <= usize::MAX,
    ensures
        match r {
            Ok((rest, p2, t)) => {
                &&& spec_function(i@) == Ok::<(Seq<u8>, TypeV), ParseError>((rest@, t@))
                &&& consumed_ok(i@, ptr, rest@, p2)
            },
            Err(e) => spec_function(i@) == Err::<(Seq<u8>, TypeV), ParseError>(e),
        },
    decreases i@.len(), 2int,
{
    let (r1, p1, _open) = match tuple_open(i, ptr) {
        Ok(x) => x,
        Err(e) => {
            return Err(e);
        },
    };
    proof {
        lemma_spec_match_consumes(Tok::TupleOpen, i@);
        lemma_consumed_bounds(i@, ptr, r1@, p1);
    }
    let (r2, p2, params) = type_list(r1, p1);
    proof {
        lemma_consumed_trans(i@, ptr, r1@, p1, r2@, p2);
        lemma_consumed_bounds(i@, ptr, r2@, p2);
    }
    let (r3, p3, _close) = match tuple_close(r2, p2) {
        Ok(x) => x,
        Err(e) => {
            return Err(e);
        },
    };
    proof {
        lemma_consumed_trans(i@, ptr, r2@, p2, r3@, p3);
        lemma_consumed_bounds(i@, ptr, r3@, p3);
    }
    let (r4, p4, _arrow) = match arrow_right_thick(r3, p3) {
        Ok(x) => x,
        Err(e) => {
            return Err(e);
        },
    };
    proof {
        lemma_consumed_trans(i@, ptr, r3@, p3, r4@, p4);
        lemma_consumed_bounds(i@, ptr, r4@, p4);
    }
    match yaupl_type(r4, p4) {
        Err(e) => Err(e),
        Ok((r5, p5, ret)) => {
            proof {
                lemma_consumed_trans(i@, ptr, r4@, p4, r5@, p5);
            }
            Ok(
                (
                    r5,
                    p5,
                    Type::Function(Function { parameters: params, return_type: Box::new(ret) }),
                ),
            )
        },
    }
}

/// Compares two field names in the lexicographic byte order the record
/// type sorts by.
pub fn bytes_less(a: &Vec<u8>, b: &Vec<u8>) -> (r: bool)
    ensures
        r == bytes_lt(a@, b@),
{
    let mut j: usize = 0;
    proof {
        assert(a@.skip(0) =~= a@);
        assert(b@.skip(0) =~= b@);
    }
    loop
        invariant
            j <= a@.len(),
            j <= b@.len(),
            bytes_lt(a@, b@) == bytes_lt(a@.skip(j as int), b@.skip(j as int)),
        decreases a@.len() - j,
    {
        if j >= b.len() {
            proof {
                assert(b@.skip(j as int).len() == 0);
            }
            return false;
        }
        if j >= a.len() {
            proof {
                assert(a@.skip(j as int).len() == 0);
                assert(b@.skip(j as int).len() > 0);
            }
            return true;
        }
        let x = a[j];
        let y = b[j];
        proof {
            assert(a@.skip(j as int)[0] == a@[j as int]);
            assert(b@.skip(j as int)[0] == b@[j as int]);
        }
        if x < y {
            return true;
        }
        if x > y {
            return false;
        }
        proof {
            assert(a@.skip(j as int).skip(1) =~= a@.skip(j + 1 as int));
            assert(b@.skip(j as int).skip(1) =~= b@.skip(j + 1 as int));
        }
        j = j + 1;
    }
}

/// Compares two field names for equality.
pub fn bytes_eq(a: &Vec<u8>, b: &Vec<u8>) -> (r: bool)
    ensures
        r == (a@ == b@),
{
    if a.len() != b.len() {
        return false;
    }
    let mut j: usize = 0;
    while j < a.len()
        invariant
            j <= a@.len(),
            a@.len() == b@.len(),
            forall|m: int| 0 <= m < j ==> a@[m] == b@[m],
        decreases a@.len() - j,
    {
        if a[j] != b[j] {
            return false;
        }
        j = j + 1;
    }
    proof {
        assert(a@ =~= b@);
    }
    true
}

/// The order on names is irreflexive and asymmetric.
pub proof fn lemma_bytes_lt_asym(a: Seq<u8>, b: Seq<u8>)
    ensures
        bytes_lt(a, b) ==> !bytes_lt(b, a),
        bytes_lt(a, b) ==> a != b,
    decreases a.len(),
{
    if b.len() > 0 && a.len() > 0 && a[0] == b[0] {
        lemma_bytes_lt_asym(a.skip(1), b.skip(1));
        if bytes_lt(a, b) {
            assert(a.skip(1) != b.skip(1));
            assert(a != b) by {
                if a == b {
                    assert(a.skip(1) =~= b.skip(1));
                }
            }
        }
    }
}

/// Any two names are ordered or equal.
pub proof fn lemma_bytes_lt_total(a: Seq<u8>, b: Seq<u8>)
    ensures
        bytes_lt(a, b) || bytes_lt(b, a) || a == b,
    decreases a.len(),
{
    if a.len() == 0 && b.len() == 0 {
        assert(a =~= b);
    } else if a.len() > 0 && b.len() > 0 && a[0] == b[0] {
        lemma_bytes_lt_total(a.skip(1), b.skip(1));
        if !bytes_lt(a, b) && !bytes_lt(b, a) {
            assert(a.skip(1) == b.skip(1));
            assert(a =~= b) by {
                assert forall|m: int| 0 <= m < a.len() implies a[m] == b[m] by {
                    if m > 0 {
                        assert(a.skip(1)[m - 1] == a[m]);
                        assert(b.skip(1)[m - 1] == b[m]);
                    }
                }
            }
        }
    }
}

/// Inserting at the cut found by scanning past the smaller names: what
/// `kv_insert` does, said over a cut position.
proof fn lemma_kv_insert_split(m: Seq<(Seq<u8>, TypeV)>, k: Seq<u8>, v: TypeV, j: int)
    requires
        0 <= j <= m.len(),
        forall|jj: int| 0 <= jj < j ==> bytes_lt(#[trigger] m[jj].0, k),
        j == m.len() || !bytes_lt(m[j].0, k),
    ensures
        kv_insert(m, k, v) == if j < m.len() && m[j].0 == k {
            m.take(j) + seq![(k, v)] + m.skip(j + 1)
        } else {
            m.take(j) + seq![(k, v)] + m.skip(j)
        },
    decreases j,
{
    if j == 0 {
        if m.len() == 0 {
            assert(kv_insert(m, k, v) =~= m.take(0) + seq![(k, v)] + m.skip(0));
        } else {
            lemma_bytes_lt_total(k, m[0].0);
            lemma_bytes_lt_asym(m[0].0, k);
            if bytes_lt(k, m[0].0) {
                assert(seq![(k, v)] + m =~= m.take(0) + seq![(k, v)] + m.skip(0));
            } else {
                assert(k == m[0].0);
                assert(seq![(k, v)] + m.skip(1) =~= m.take(0) + seq![(k, v)] + m.skip(1));
            }
        }
    } else {
        assert(bytes_lt(m[0].0, k));
        lemma_bytes_lt_asym(m[0].0, k);
        assert forall|jj: int| 0 <= jj < j - 1 implies bytes_lt(#[trigger] m.skip(1)[jj].0, k) by {
            assert(m.skip(1)[jj] == m[jj + 1]);
        }
        if j - 1 < m.skip(1).len() {
            assert(m.skip(1)[j - 1] == m[j]);
        }
        lemma_kv_insert_split(m.skip(1), k, v, j - 1);
        if j < m.len() && m[j].0 == k {
            assert(seq![m[0]] + (m.skip(1).take(j - 1) + seq![(k, v)] + m.skip(1).skip(j))
                =~= m.take(j) + seq![(k, v)] + m.skip(j + 1));
        } else {
            assert(seq![m[0]] + (m.skip(1).take(j - 1) + seq![(k, v)] + m.skip(1).skip(j - 1))
                =~= m.take(j) + seq![(k, v)] + m.skip(j));
        }
    }
}

/// Inserts a parsed field into the name-sorted field list, replacing an
/// entry with an equal name: later writes win.
fn insert_field(fields: &mut Vec<(Identifier, Type)>, k: Identifier, v: Type)
    ensures
        fields_view(final(fields)@) == kv_insert(fields_view(old(fields)@), k.0@, v@),
{
    let ghost m0 = fields@;
    proof {
        lemma_fields_view_index(m0);
    }
    let mut j: usize = 0;
    while j < fields.len() && bytes_less(&fields[j].0.0, &k.0)
        invariant
            j <= fields@.len(),
            fields@ == m0,
            forall|jj: int| 0 <= jj < j ==> bytes_lt(#[trigger] fields_view(m0)[jj].0, k.0@),
        decreases fields@.len() - j,
    {
        proof {
            lemma_fields_view_index(m0);
            assert(fields_view(m0)[j as int].0 == fields@[j as int].0.0@);
        }
        j = j + 1;
    }
    proof {
        lemma_fields_view_index(m0);
        if j < fields@.len() {
            assert(fields_view(m0)[j as int].0 == fields@[j as int].0.0@);
        }
    }
    proof {
        lemma_kv_insert_split(fields_view(m0), k.0@, v@, j as int);
        lemma_fields_view_index(m0);
    }
    if j < fields.len() && bytes_eq(&fields[j].0.0, &k.0) {
        fields.remove(j);
        fields.insert(j, (k, v));
        proof {
            lemma_fields_view_index(fields@);
            assert(fields_view(fields@) =~= fields_view(m0).take(j as int) + seq![(k.0@, v@)]
                + fields_view(m0).skip(j + 1 as int));
        }
    } else {
        fields.insert(j, (k, v));
        proof {
            lemma_fields_view_index(fields@);
            assert(fields_view(fields@) =~= fields_view(m0).take(j as int) + seq![(k.0@, v@)]
                + fields_view(m0).skip(j as int));
        }
    }
}

/// Folding one more field is inserting it into the fold so far.
proof fn lemma_kv_fold_push(
    m: Seq<(Seq<u8>, TypeV)>,
    kvs: Seq<(Seq<u8>, TypeV)>,
    kv: (Seq<u8>, TypeV),
)
    ensures
        kv_fold(m, kvs.push(kv)) == kv_insert(kv_fold(m, kvs), kv.0, kv.1),
    decreases kvs.len(),
{
    if kvs.len() == 0 {
        assert(kvs.push(kv)[0] == kv);
        assert(kvs.push(kv).skip(1) =~= Seq::<(Seq<u8>, TypeV)>::empty());
        assert(kv_fold(m, kvs.push(kv)) == kv_fold(
            kv_insert(m, kv.0, kv.1),
            kvs.push(kv).skip(1),
        ));
        assert(kv_fold(kv_insert(m, kv.0, kv.1), kvs.push(kv).skip(1)) == kv_insert(
            m,
            kv.0,
            kv.1,
        ));
        assert(kv_fold(m, kvs) == m);
    } else {
        assert(kvs.push(kv)[0] == kvs[0]);
        assert(kvs.push(kv).skip(1) =~= kvs.skip(1).push(kv));
        lemma_kv_fold_push(kv_insert(m, kvs[0].0, kvs[0].1), kvs.skip(1), kv);
        assert(kv_fold(m, kvs.push(kv)) == kv_fold(
            kv_insert(m, kvs[0].0, kvs[0].1),
            kvs.skip(1).push(kv),
        ));
        assert(kv_fold(m, kvs) == kv_fold(kv_insert(m, kvs[0].0, kvs[0].1), kvs.skip(1)));
    }
}

/// Parses a record type: `|-`, a possibly empty comma-separated list of
/// `name: type` fields, `-|`.  Fields are folded into a name-sorted
/// list; a repeated name silently replaces the earlier entry.
pub fn complex<'a>(i: &'a [u8], ptr: Pointer) -> (r: Result<(&'a [u8], Pointer, Type), ParseError>)
    requires
        ptr.row + i@.len() <= usize::MAX,
        ptr.col + i@.len() <= usize::MAX,
    ensures
        match r {
            Ok((rest, p2, t)) => {
                &&& spec_complex(i@) == Ok::<(Seq<u8>, TypeV), ParseError>((rest@, t@))
                &&& consumed_ok(i@, ptr, rest@, p2)
            },
            Err(e) => spec_complex(i@) == Err::<(Seq<u8>, TypeV), ParseError>(e),
        },
    decreases i@.len(), 0int,
{
    let (r1, p1, _open) = match tesla_open(i, ptr) {
        Ok(x) => x,
        Err(e) => {
            return Err(e);
        },
    };
    proof {
        lemma_spec_match_consumes(Tok::TeslaOpen, i@);
        lemma_consumed_bounds(i@, ptr, r1@, p1);
    }
    let mut fields: Vec<(Identifier, Type)> = Vec::new();
    let mut cur: &[u8] = r1;
    let mut p: Pointer = p1;
    let ghost mut done: Seq<(Seq<u8>, TypeV)> = Seq::empty();
    proof {
        assert(fields_view(fields@) =~= Seq::<(Seq<u8>, TypeV)>::empty());
        assert(done + spec_kvps(cur@).1 =~= spec_kvps(r1@).1);
    }
    loop
        invariant_except_break
            consumed_ok(i@, ptr, cur@, p),
            cur@.len() < i@.len(),
            ptr.row + i@.len() <= usize::MAX,
            ptr.col + i@.len() <= usize::MAX,
            spec_kvps(r1@).0 == spec_kvps(cur@).0,
            spec_kvps(r1@).1 == done + spec_kvps(cur@).1,
            fields_view(fields@) == kv_fold(Seq::empty(), done),
        ensures
            consumed_ok(i@, ptr, cur@, p),
            cur@.len() < i@.len(),
            spec_kvps(r1@).0 == cur@,
            fields_view(fields@) == kv_fold(Seq::empty(), spec_kvps(r1@).1),
        decreases cur@.len(),
    {
        proof {
            lemma_consumed_bounds(i@, ptr, cur@, p);
        }
        match key_value_pair(cur, p) {
            Err(_) => {
                proof {
                    assert(spec_kvps(cur@) == (cur@, Seq::<(Seq<u8>, TypeV)>::empty()));
                    assert(done + Seq::<(Seq<u8>, TypeV)>::empty() =~= done);
                }
                break;
            },
            Ok((rk, pk, kvp)) => {
                proof {
                    lemma_spec_kvp_consumes(cur@);
                    lemma_consumed_trans(i@, ptr, cur@, p, rk@, pk);
                    lemma_consumed_bounds(i@, ptr, rk@, pk);
                    lemma_kv_fold_push(
                        Seq::empty(),
                        done,
                        (kvp.key.0.0@, kvp.value.0@),
                    );
                }
                let ghost kv = (kvp.key.0.0@, kvp.value.0@);
                let KeyValuePair { key: (key_id, _kp), value: (val_ty, _vp) } = kvp;
                insert_field(&mut fields, key_id, val_ty);
                match crate::tokens::comma(rk, pk) {
                    Ok((rc, pc, _c)) => {
                        proof {
                            lemma_spec_match_consumes(Tok::Comma, rk@);
                            lemma_consumed_trans(i@, ptr, rk@, pk, rc@, pc);
                            assert(spec_kvps(cur@) == (spec_kvps(rc@).0, seq![kv] + spec_kvps(
                                rc@,
                            ).1));
                            assert(done + (seq![kv] + spec_kvps(rc@).1) =~= done.push(kv)
                                + spec_kvps(rc@).1);
                            done = done.push(kv);
                        }
                        cur = rc;
                        p = pc;
                    },
                    Err(_) => {
                        proof {
                            assert(spec_kvps(cur@) == (rk@, seq![kv]));
                            assert(done + seq![kv] =~= done.push(kv));
                            done = done.push(kv);
                        }
                        cur = rk;
                        p = pk;
                        break;
                    },
                }
            },
        }
    }
    proof {
        lemma_consumed_bounds(i@, ptr, cur@, p);
    }
    match tesla_close(cur, p) {
        Err(e) => Err(e),
        Ok((r3, p3, _close)) => {
            proof {
                lemma_consumed_trans(i@, ptr, cur@, p, r3@, p3);
            }
            Ok((r3, p3, Type::Complex(fields)))
        },
    }
}

/// Parses a type expression: the first atom alternative that succeeds —
/// primitive, function, tuple, complex, in that order — then greedily
/// wraps it once per trailing group sigil.
pub fn yaupl_type<'a>(i: &'a [u8], ptr: Pointer) -> (r: Result<
    (&'a [u8], Pointer, Type),
    ParseError,
>)
    requires
        ptr.row + i@.len() <= usize::MAX,
        ptr.col + i@.len() <= usize::MAX,
    ensures
        match r {
            Ok((rest, p2, t)) => {
                &&& spec_yaupl_type(i@) == Ok::<(Seq<u8>, TypeV), ParseError>((rest@, t@))
                &&& consumed_ok(i@, ptr, rest@, p2)
            },
            Err(e) => spec_yaupl_type(i@) == Err::<(Seq<u8>, TypeV), ParseError>(e),
        },
    decreases i@.len(), 3int,
{
    let atom = match primitive(i, ptr) {
        Ok(x) => x,
        Err(_) => match function(i, ptr) {
            Ok(x) => x,
            Err(_) => match tuple(i, ptr) {
                Ok(x) => x,
                Err(_) => match complex(i, ptr) {
                    Ok(x) => x,
                    Err(_) => {
                        return Err(ParseError::NoMatch);
                    },
                },
            },
        },
    };
    let (mut cur, mut p, mut res) = atom;
    proof {
        assert(spec_yaupl_type(i@) == {
            let (rr, tt) = spec_groups(cur@, res@);
            Ok::<(Seq<u8>, TypeV), ParseError>((rr, tt))
        });
    }
    loop
        invariant
            consumed_ok(i@, ptr, cur@, p),
            ptr.row + i@.len() <= usize::MAX,
            ptr.col + i@.len() <= usize::MAX,
            spec_yaupl_type(i@) == {
                let (rr, tt) = spec_groups(cur@, res@);
                Ok::<(Seq<u8>, TypeV), ParseError>((rr, tt))
            },
        decreases cur@.len(),
    {
        proof {
            lemma_consumed_bounds(i@, ptr, cur@, p);
        }
        match group(cur, p) {
            Ok((r2, p2, _g)) => {
                proof {
                    lemma_spec_match_consumes(Tok::Group, cur@);
                    lemma_consumed_trans(i@, ptr, cur@, p, r2@, p2);
                }
                res = Type::Group(Group(Box::new(res)));
                cur = r2;
                p = p2;
            },
            Err(_) => {
                return Ok((cur, p, res));
            },
        }
    }
}

/// The type `t` wrapped in `n` nested groups.
pub open spec fn group_wrap(t: TypeV, n: nat) -> TypeV
    decreases n,
{
    if n == 0 {
        t
    } else {
        TypeV::Group(Box::new(group_wrap(t, (n - 1) as nat)))
    }
}

/// Wrapping a grouped type is grouping the wrapped type.
proof fn lemma_group_wrap_shift(t: TypeV, n: nat)
    ensures
        group_wrap(TypeV::Group(Box::new(t)), n) == TypeV::Group(Box::new(group_wrap(t, n))),
    decreases n,
{
    if n > 0 {
        lemma_group_wrap_shift(t, (n - 1) as nat);
    }
}

/// A run of `n` group sigils.
pub open spec fn group_sigils(n: nat) -> Seq<u8> {
    Seq::new(n, |j: int| '@' as u8)
}

/// Consuming a run of sigils wraps the type once per sigil and leaves
/// nothing behind.
proof fn lemma_groups_on_sigils(t: TypeV, n: nat)
    ensures
        spec_groups(group_sigils(n), t) == (Seq::<u8>::empty(), group_wrap(t, n)),
    decreases n,
{
    let s = group_sigils(n);
    lemma_tok_text_wf(Tok::Group);
    if n == 0 {
        assert(s.len() == 0);
        crate::whitespace::lemma_ws_len_is(s, 0);
        assert(s.skip(0) =~= s);
        assert(spec_match(Tok::Group, s) is Err);
        assert(s =~= Seq::<u8>::empty());
    } else {
        crate::whitespace::lemma_ws_len_is(s, 0);
        assert(s.skip(0) =~= s);
        assert(s.take(1) =~= seq!['@' as u8]);
        assert(tok_text(Tok::Group) =~= seq!['@' as u8]);
        assert(spec_match(Tok::Group, s) == Ok::<Seq<u8>, ParseError>(s.skip(1)));
        assert(s.skip(1) =~= group_sigils((n - 1) as nat));
        lemma_groups_on_sigils(TypeV::Group(Box::new(t)), (n - 1) as nat);
        lemma_group_wrap_shift(t, (n - 1) as nat);
    }
}

/// For every nesting depth, the numeric primitive keyword followed by
/// that many group sigils parses completely, to that many nested
/// groups around the numeric primitive.
pub proof fn lemma_group_nesting(n: nat)
    ensures
        spec_yaupl_type(seq!['n' as u8, 'u' as u8, 'm' as u8] + group_sigils(n)) == Ok::<
            (Seq<u8>, TypeV),
            ParseError,
        >((Seq::empty(), group_wrap(TypeV::Primitive(PrimitiveType::Num), n))),
{
    let s = seq!['n' as u8, 'u' as u8, 'm' as u8] + group_sigils(n);
    crate::whitespace::lemma_ws_len_is(s, 0);
    assert(s.skip(0) =~= s);
    lemma_tok_text_wf(Tok::KeywordStr);
    assert(s[0] != 's' as u8);
    assert(!has_prefix(s, tok_text(Tok::KeywordStr))) by {
        if has_prefix(s, tok_text(Tok::KeywordStr)) {
            assert(s.take(3)[0] == s[0]);
        }
    }
    assert(s.take(3) =~= tok_text(Tok::KeywordNum));
    assert(spec_match(Tok::KeywordNum, s) == Ok::<Seq<u8>, ParseError>(s.skip(3)));
    assert(prim_toks().skip(1)[0] == Tok::KeywordNum);
    assert(spec_one_of(prim_toks(), s) == Ok::<(Seq<u8>, Tok), ParseError>(
        (s.skip(3), Tok::KeywordNum),
    )) by {
        reveal_with_fuel(spec_one_of, 3);
    }
    assert(spec_primitive(s) == Ok::<(Seq<u8>, TypeV), ParseError>(
        (s.skip(3), TypeV::Primitive(PrimitiveType::Num)),
    ));
    assert(s.skip(3) =~= group_sigils(n));
    lemma_groups_on_sigils(TypeV::Primitive(PrimitiveType::Num), n);
}

/// Whitespace in front of a type is insignificant: parsing input with
/// extra leading whitespace gives the very same outcome, down to the
/// remaining input and the error, so the parsed type never depends on
/// surrounding whitespace.  (The specification parsers take no cursor,
/// so it cannot depend on the starting cursor either.)
pub proof fn lemma_yaupl_type_ws_prefix(w: Seq<u8>, s: Seq<u8>)
    requires
        forall|j: int| 0 <= j < w.len() ==> crate::whitespace::is_ws_byte(w[j]),
    ensures
        spec_yaupl_type(w + s) == spec_yaupl_type(s),
{
    crate::combinators::lemma_spec_one_of_ws_prefix(prim_toks(), w, s);
    crate::tokens::lemma_spec_match_ws_prefix(Tok::TupleOpen, w, s);
    crate::tokens::lemma_spec_match_ws_prefix(Tok::TeslaOpen, w, s);
    assert(spec_primitive(w + s) == spec_primitive(s));
    assert(spec_tuple(w + s) == spec_tuple(s)) by {
        match spec_match(Tok::TupleOpen, s) {
            Ok(r1) => {
                lemma_spec_match_consumes(Tok::TupleOpen, s);
            },
            Err(_) => {},
        }
    }
    assert(spec_function(w + s) == spec_function(s)) by {
        match spec_match(Tok::TupleOpen, s) {
            Ok(r1) => {
                lemma_spec_match_consumes(Tok::TupleOpen, s);
                if r1.len() < s.len() {
                    lemma_type_list_shrinks(r1);
                    let (r2, _ts) = spec_type_list(r1);
                    lemma_spec_match_consumes(Tok::TupleClose, r2);
                    match spec_match(Tok::TupleClose, r2) {
                        Ok(r3) => {
                            lemma_spec_match_consumes(Tok::ArrowRightThick, r3);
                        },
                        Err(_) => {},
                    }
                }
            },
            Err(_) => {},
        }
    }
    assert(spec_complex(w + s) == spec_complex(s)) by {
        match spec_match(Tok::TeslaOpen, s) {
            Ok(r1) => {
                lemma_spec_match_consumes(Tok::TeslaOpen, s);
            },
            Err(_) => {},
        }
    }
}

/// Field names stand in strictly increasing order: sorted by name,
/// with no name repeated.
pub open spec fn fields_sorted(m: Seq<(Seq<u8>, TypeV)>) -> bool {
    forall|a: int, b: int|
        0 <= a < b < m.len() ==> bytes_lt(#[trigger] m[a].0, #[trigger] m[b].0)
}

/// The order on names is transitive.
pub proof fn lemma_bytes_lt_trans(a: Seq<u8>, b: Seq<u8>, c: Seq<u8>)
    requires
        bytes_lt(a, b),
        bytes_lt(b, c),
    ensures
        bytes_lt(a, c),
    decreases a.len(),
{
    if a.len() > 0 && b.len() > 0 && c.len() > 0 && a[0] == b[0] && b[0] == c[0] {
        lemma_bytes_lt_trans(a.skip(1), b.skip(1), c.skip(1));
    }
}

/// Inserting a field keeps the list sorted; and any strict lower bound
/// on the list and on the new name bounds the result.
proof fn lemma_kv_insert_sorted(m: Seq<(Seq<u8>, TypeV)>, k: Seq<u8>, v: TypeV)
    requires
        fields_sorted(m),
    ensures
        fields_sorted(kv_insert(m, k, v)),
        forall|lo: Seq<u8>|
            (bytes_lt(lo, k) && (forall|i: int| 0 <= i < m.len() ==> bytes_lt(lo, #[trigger] m[i].0)))
                ==> (forall|j: int|
                0 <= j < kv_insert(m, k, v).len() ==> bytes_lt(
                    lo,
                    #[trigger] kv_insert(m, k, v)[j].0,
                )),
    decreases m.len(),
{
    let r = kv_insert(m, k, v);
    if m.len() == 0 {
    } else if bytes_lt(k, m[0].0) {
        assert forall|a: int, b: int| 0 <= a < b < r.len() implies bytes_lt(r[a].0, r[b].0) by {
            if a == 0 {
                assert(r[0].0 == k);
                assert(r[b] == m[b - 1]);
                if b > 1 {
                    lemma_bytes_lt_trans(k, m[0].0, m[b - 1].0);
                }
            } else {
                assert(r[a] == m[a - 1] && r[b] == m[b - 1]);
            }
        }
    } else if k == m[0].0 {
        assert forall|a: int, b: int| 0 <= a < b < r.len() implies bytes_lt(r[a].0, r[b].0) by {
            if a == 0 {
                assert(r[0].0 == k && r[b] == m.skip(1)[b - 1] && m.skip(1)[b - 1] == m[b]);
            } else {
                assert(r[a] == m[a] && r[b] == m[b]);
            }
        }
    } else {
        lemma_bytes_lt_total(k, m[0].0);
        lemma_bytes_lt_asym(m[0].0, k);
        assert(bytes_lt(m[0].0, k));
        assert(fields_sorted(m.skip(1))) by {
            assert forall|a: int, b: int|
                0 <= a < b < m.skip(1).len() implies bytes_lt(
                m.skip(1)[a].0,
                m.skip(1)[b].0,
            ) by {
                assert(m.skip(1)[a] == m[a + 1] && m.skip(1)[b] == m[b + 1]);
            }
        }
        lemma_kv_insert_sorted(m.skip(1), k, v);
        let r1 = kv_insert(m.skip(1), k, v);
        assert forall|i: int| 0 <= i < m.skip(1).len() implies bytes_lt(
            m[0].0,
            #[trigger] m.skip(1)[i].0,
        ) by {
            assert(m.skip(1)[i] == m[i + 1]);
        }
        assert(forall|j: int| 0 <= j < r1.len() ==> bytes_lt(m[0].0, #[trigger] r1[j].0));
        assert forall|a: int, b: int| 0 <= a < b < r.len() implies bytes_lt(r[a].0, r[b].0) by {
            if a == 0 {
                assert(r[0] == m[0] && r[b] == r1[b - 1]);
            } else {
                assert(r[a] == r1[a - 1] && r[b] == r1[b - 1]);
            }
        }
        assert forall|lo: Seq<u8>|
            (bytes_lt(lo, k) && (forall|i: int|
                0 <= i < m.len() ==> bytes_lt(lo, #[trigger] m[i].0))) implies (forall|j: int|
            0 <= j < r.len() ==> bytes_lt(lo, #[trigger] r[j].0)) by {
            if bytes_lt(lo, k) && (forall|i: int|
                0 <= i < m.len() ==> bytes_lt(lo, #[trigger] m[i].0)) {
                assert forall|i: int| 0 <= i < m.skip(1).len() implies bytes_lt(
                    lo,
                    #[trigger] m.skip(1)[i].0,
                ) by {
                    assert(m.skip(1)[i] == m[i + 1]);
                }
                assert forall|j: int| 0 <= j < r.len() implies bytes_lt(lo, #[trigger] r[j].0) by {
                    if j == 0 {
                        assert(r[0] == m[0]);
                    } else {
                        assert(r[j] == r1[j - 1]);
                    }
                }
            }
        }
    }
}

/// Folding fields into a sorted list keeps it sorted.
proof fn lemma_kv_fold_sorted(m: Seq<(Seq<u8>, TypeV)>, kvs: Seq<(Seq<u8>, TypeV)>)
    requires
        fields_sorted(m),
    ensures
        fields_sorted(kv_fold(m, kvs)),
    decreases kvs.len(),
{
    if kvs.len() > 0 {
        lemma_kv_insert_sorted(m, kvs[0].0, kvs[0].1);
        lemma_kv_fold_sorted(kv_insert(m, kvs[0].0, kvs[0].1), kvs.skip(1));
    }
}

/// A parsed record's fields stand sorted by name, each name unique,
/// whatever order the source wrote them in.
pub proof fn lemma_complex_fields_sorted(s: Seq<u8>)
    ensures
        spec_complex(s) is Ok ==> {
            let t = (spec_complex(s)->Ok_0).1;
            &&& t is Complex
            &&& fields_sorted(t->Complex_0)
        },
{
    match spec_match(Tok::TeslaOpen, s) {
        Err(_) => {},
        Ok(r1) => {
            if r1.len() < s.len() {
                let (_r2, kvs) = spec_kvps(r1);
                lemma_kv_fold_sorted(Seq::empty(), kvs);
            }
        },
    }
}

/// Trailing whitespace is insignificant to the trailing group sigils.
proof fn lemma_spec_groups_app(s: Seq<u8>, t: TypeV, w: Seq<u8>)
    requires
        forall|j: int| 0 <= j < w.len() ==> crate::whitespace::is_ws_byte(w[j]),
    ensures
        spec_groups(s + w, t) == (spec_groups(s, t).0 + w, spec_groups(s, t).1),
    decreases s.len(),
{
    crate::tokens::lemma_spec_match_app(Tok::Group, s, w);
    match spec_match(Tok::Group, s) {
        Err(_) => {},
        Ok(r) => {
            lemma_spec_match_consumes(Tok::Group, s);
            lemma_spec_groups_app(r, TypeV::Group(Box::new(t)), w);
        },
    }
}

/// Trailing whitespace is insignificant to the repetition of types.
proof fn lemma_spec_type_list_app(s: Seq<u8>, w: Seq<u8>)
    requires
        forall|j: int| 0 <= j < w.len() ==> crate::whitespace::is_ws_byte(w[j]),
    ensures
        spec_type_list(s + w) == (spec_type_list(s).0 + w, spec_type_list(s).1),
    decreases s.len(), 4int,
{
    lemma_spec_yaupl_type_app(s, w);
    match spec_yaupl_type(s) {
        Err(_) => {},
        Ok((r1, _t)) => {
            lemma_yaupl_type_consumes(s);
            crate::tokens::lemma_spec_match_app(Tok::Comma, r1, w);
            lemma_spec_match_consumes(Tok::Comma, r1);
            let r2 = match spec_match(Tok::Comma, r1) {
                Ok(rc) => rc,
                Err(_) => r1,
            };
            lemma_spec_type_list_app(r2, w);
        },
    }
}

/// Trailing whitespace is insignificant to a tuple parse.
proof fn lemma_spec_tuple_app(s: Seq<u8>, w: Seq<u8>)
    requires
        forall|j: int| 0 <= j < w.len() ==> crate::whitespace::is_ws_byte(w[j]),
    ensures
        spec_tuple(s + w) == match spec_tuple(s) {
            Ok((r, t)) => Ok::<(Seq<u8>, TypeV), ParseError>((r + w, t)),
            Err(e) => Err::<(Seq<u8>, TypeV), ParseError>(e),
        },
    decreases s.len(), 1int,
{
    crate::tokens::lemma_spec_match_app(Tok::TupleOpen, s, w);
    match spec_match(Tok::TupleOpen, s) {
        Err(_) => {},
        Ok(r1) => {
            lemma_spec_match_consumes(Tok::TupleOpen, s);
            if r1.len() < s.len() {
                lemma_spec_type_list_app(r1, w);
                lemma_type_list_shrinks(r1);
                let (r2, _ts) = spec_type_list(r1);
                crate::tokens::lemma_spec_match_app(Tok::TupleClose, r2, w);
            }
        },
    }
}

/// Trailing whitespace is insignificant to a function-type parse.
proof fn lemma_spec_function_app(s: Seq<u8>, w: Seq<u8>)
    requires
        forall|j: int| 0 <= j < w.len() ==> crate::whitespace::is_ws_byte(w[j]),
    ensures
        spec_function(s + w) == match spec_function(s) {
            Ok((r, t)) => Ok::<(Seq<u8>, TypeV), ParseError>((r + w, t)),
            Err(e) => Err::<(Seq<u8>, TypeV), ParseError>(e),
        },
    decreases s.len(), 2int,
{
    crate::tokens::lemma_spec_match_app(Tok::TupleOpen, s, w);
    match spec_match(Tok::TupleOpen, s) {
        Err(_) => {},
        Ok(r1) => {
            lemma_spec_match_consumes(Tok::TupleOpen, s);
            if r1.len() < s.len() {
                lemma_spec_type_list_app(r1, w);
                lemma_type_list_shrinks(r1);
                let (r2, _ts) = spec_type_list(r1);
                crate::tokens::lemma_spec_match_app(Tok::TupleClose, r2, w);
                lemma_spec_match_consumes(Tok::TupleClose, r2);
                match spec_match(Tok::TupleClose, r2) {
                    Err(_) => {},
                    Ok(r3) => {
                        crate::tokens::lemma_spec_match_app(Tok::ArrowRightThick, r3, w);
                        lemma_spec_match_consumes(Tok::ArrowRightThick, r3);
                        match spec_match(Tok::ArrowRightThick, r3) {
                            Err(_) => {},
                            Ok(r4) => {
                                if r4.len() < s.len() {
                                    lemma_spec_yaupl_type_app(r4, w);
                                }
                            },
                        }
                    },
                }
            }
        },
    }
}

/// Trailing whitespace is insignificant to the repetition of fields.
proof fn lemma_spec_kvps_app(s: Seq<u8>, w: Seq<u8>)
    requires
        forall|j: int| 0 <= j < w.len() ==> crate::whitespace::is_ws_byte(w[j]),
    ensures
        spec_kvps(s + w) == (spec_kvps(s).0 + w, spec_kvps(s).1),
    decreases s.len(), 5int,
{
    crate::utils::lemma_spec_kvp_app(s, w);
    match spec_kvp(s) {
        Err(_) => {},
        Ok((r1, _kv)) => {
            lemma_spec_kvp_consumes(s);
            crate::tokens::lemma_spec_match_app(Tok::Comma, r1, w);
            match spec_match(Tok::Comma, r1) {
                Err(_) => {},
                Ok(rc) => {
                    lemma_spec_match_consumes(Tok::Comma, r1);
                    if rc.len() < s.len() {
                        lemma_spec_kvps_app(rc, w);
                    }
                },
            }
        },
    }
}

/// Trailing whitespace is insignificant to a record parse.
proof fn lemma_spec_complex_app(s: Seq<u8>, w: Seq<u8>)
    requires
        forall|j: int| 0 <= j < w.len() ==> crate::whitespace::is_ws_byte(w[j]),
    ensures
        spec_complex(s + w) == match spec_complex(s) {
            Ok((r, t)) => Ok::<(Seq<u8>, TypeV), ParseError>((r + w, t)),
            Err(e) => Err::<(Seq<u8>, TypeV), ParseError>(e),
        },
    decreases s.len(), 0int,
{
    crate::tokens::lemma_spec_match_app(Tok::TeslaOpen, s, w);
    match spec_match(Tok::TeslaOpen, s) {
        Err(_) => {},
        Ok(r1) => {
            lemma_spec_match_consumes(Tok::TeslaOpen, s);
            if r1.len() < s.len() {
                lemma_spec_kvps_app(r1, w);
                lemma_kvps_shrinks(r1);
                let (r2, _kvs) = spec_kvps(r1);
                crate::tokens::lemma_spec_match_app(Tok::TeslaClose, r2, w);
            }
        },
    }
}

/// Trailing whitespace is insignificant to a type parse: it simply
/// joins the leftover rest.
pub proof fn lemma_spec_yaupl_type_app(s: Seq<u8>, w: Seq<u8>)
    requires
        forall|j: int| 0 <= j < w.len() ==> crate::whitespace::is_ws_byte(w[j]),
    ensures
        spec_yaupl_type(s + w) == match spec_yaupl_type(s) {
            Ok((r, t)) => Ok::<(Seq<u8>, TypeV), ParseError>((r + w, t)),
            Err(e) => Err::<(Seq<u8>, TypeV), ParseError>(e),
        },
    decreases s.len(), 3int,
{
    crate::combinators::lemma_spec_one_of_app(prim_toks(), s, w);
    lemma_spec_function_app(s, w);
    lemma_spec_tuple_app(s, w);
    lemma_spec_complex_app(s, w);
    if spec_primitive(s) is Ok {
        let (r, t) = spec_primitive(s)->Ok_0;
        lemma_spec_groups_app(r, t, w);
    } else if spec_function(s) is Ok {
        let (r, t) = spec_function(s)->Ok_0;
        lemma_spec_groups_app(r, t, w);
    } else if spec_tuple(s) is Ok {
        let (r, t) = spec_tuple(s)->Ok_0;
        lemma_spec_groups_app(r, t, w);
    } else {
        match spec_complex(s) {
            Err(_) => {},
            Ok((r, t)) => {
                lemma_spec_groups_app(r, t, w);
            },
        }
    }
}

/// Surrounding whitespace is insignificant: parsing a type from input
/// padded with whitespace on both sides gives the very same type or
/// the very same error, and only the trailing whitespace joins the
/// leftover rest.  The specification parsers take no cursor, so the
/// outcome cannot depend on the starting cursor either.
pub proof fn lemma_yaupl_type_ws_insensitive(w1: Seq<u8>, s: Seq<u8>, w2: Seq<u8>)
    requires
        forall|j: int| 0 <= j < w1.len() ==> crate::whitespace::is_ws_byte(w1[j]),
        forall|j: int| 0 <= j < w2.len() ==> crate::whitespace::is_ws_byte(w2[j]),
    ensures
        spec_yaupl_type(w1 + s + w2) == match spec_yaupl_type(s) {
            Ok((r, t)) => Ok::<(Seq<u8>, TypeV), ParseError>((r + w2, t)),
            Err(e) => Err::<(Seq<u8>, TypeV), ParseError>(e),
        },
{
    lemma_yaupl_type_ws_prefix(w1, s);
    lemma_spec_yaupl_type_app(w1 + s, w2);
}

} // verus!
