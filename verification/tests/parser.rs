use yaupl::combinators::one_of;
use yaupl::literal::{boolean, empty, numeric, string, Bln, Emp, Num, Str};
use yaupl::parse_error::ParseError;
use yaupl::pointer::Pointer;
use yaupl::tokens::{binary_operator_add, comma, keyword_str, Tok};
use yaupl::types::{
    complex, function, primitive, tuple, yaupl_type, Function, Group, PrimitiveType, Tuple, Type,
};
use yaupl::utils::key_value_pair;
use yaupl::whitespace::whitespace;
use yaupl::{digit, ident, parse, Digit, Identifier};

#[test]
fn primitive_test_primitive() {
    assert_eq!(
        primitive(b"    str,  not_str", Pointer { row: 0, col: 0 }).unwrap(),
        (
            &b",  not_str"[..],
            Pointer { row: 0, col: 7 },
            Type::Primitive(PrimitiveType::Str),
        )
    );
}

#[test]
fn parse_test_primitive() {
    assert_eq!(
        primitive(b"    str,  not_str", Pointer { row: 0, col: 0 }).unwrap(),
        (
            &b",  not_str"[..],
            Pointer { row: 0, col: 7 },
            Type::Primitive(PrimitiveType::Str),
        )
    );
}

#[test]
fn mod_test_primitive() {
    assert_eq!(
        primitive(b"    str,  not_str", Pointer { row: 0, col: 0 }).unwrap(),
        (
            &b",  not_str"[..],
            Pointer { row: 0, col: 7 },
            Type::Primitive(PrimitiveType::Str),
        )
    );
}

#[test]
fn whitespace_test_white_space() {
    assert_eq!(
        whitespace(b" \n        hello", Pointer { row: 0, col: 0 }),
        (&b"hello"[..], Pointer { row: 1, col: 8 })
    );
}

#[test]
fn parse_test_white_space() {
    assert_eq!(
        whitespace(b" \n        hello", Pointer { row: 0, col: 0 }),
        (&b"hello"[..], Pointer { row: 1, col: 8 })
    );
}

#[test]
fn keyword_matcher_consumes_exactly_its_text() {
    // two spaces, the canonical text, then a tail: the matcher succeeds,
    // consumes exactly the token, and advances the column by the
    // whitespace plus the token's length
    assert_eq!(
        binary_operator_add(b"  +xyz", Pointer::new(0, 0)).unwrap(),
        (&b"xyz"[..], Pointer { row: 0, col: 3 }, Tok::BinaryOperatorAdd)
    );
    assert_eq!(
        keyword_str(b"  strx", Pointer::new(0, 0)).unwrap(),
        (&b"x"[..], Pointer { row: 0, col: 5 }, PrimitiveType::Str)
    );
}

#[test]
fn matcher_failure_names_the_token() {
    assert_eq!(
        comma(b"x", Pointer::new(0, 0)),
        Err(ParseError::Expected(Tok::Comma))
    );
}

#[test]
fn one_of_returns_first_match() {
    let toks = [Tok::KeywordStr, Tok::KeywordNum];
    assert_eq!(
        one_of(b"num", Pointer::new(0, 0), &toks).unwrap(),
        (&b""[..], Pointer { row: 0, col: 3 }, Tok::KeywordNum)
    );
    assert_eq!(
        one_of(b"???", Pointer::new(0, 0), &toks),
        Err(ParseError::NoMatch)
    );
}

#[test]
fn type_str() {
    assert_eq!(
        yaupl_type(b"str", Pointer::new(0, 0)).unwrap(),
        (&b""[..], Pointer { row: 0, col: 3 }, Type::Primitive(PrimitiveType::Str))
    );
}

#[test]
fn type_grouped_num() {
    assert_eq!(
        yaupl_type(b"num@@@", Pointer::new(0, 0)).unwrap(),
        (
            &b""[..],
            Pointer { row: 0, col: 6 },
            Type::Group(Group(Box::new(Type::Group(Group(Box::new(Type::Group(Group(
                Box::new(Type::Primitive(PrimitiveType::Num))
            ))))))))
        )
    );
}

#[test]
fn group_nesting_matches_sigil_count() {
    // five sigils parse to five nested groups
    let parsed = yaupl_type(b"num@@@@@", Pointer::new(0, 0)).unwrap().2;
    let mut expected = Type::Primitive(PrimitiveType::Num);
    for _ in 0..5 {
        expected = Type::Group(Group(Box::new(expected)));
    }
    assert_eq!(parsed, expected);
}

#[test]
fn type_tuple() {
    assert_eq!(
        yaupl_type(b"[|str,num|]", Pointer::new(0, 0)).unwrap(),
        (
            &b""[..],
            Pointer { row: 0, col: 11 },
            Type::Tuple(Tuple(vec![
                Type::Primitive(PrimitiveType::Str),
                Type::Primitive(PrimitiveType::Num),
            ]))
        )
    );
}

#[test]
fn type_function() {
    assert_eq!(
        yaupl_type(b"[|str,num|]=>bln", Pointer::new(0, 0)).unwrap(),
        (
            &b""[..],
            Pointer { row: 0, col: 16 },
            Type::Function(Function {
                parameters: vec![
                    Type::Primitive(PrimitiveType::Str),
                    Type::Primitive(PrimitiveType::Num),
                ],
                return_type: Box::new(Type::Primitive(PrimitiveType::Bln)),
            })
        )
    );
}

#[test]
fn type_complex_sorts_fields_by_name() {
    // field order is normalized alphabetically, not source order
    assert_eq!(
        yaupl_type(b"|-b:num,a:str-|", Pointer::new(0, 0)).unwrap(),
        (
            &b""[..],
            Pointer { row: 0, col: 15 },
            Type::Complex(vec![
                (Identifier(b"a".to_vec()), Type::Primitive(PrimitiveType::Str)),
                (Identifier(b"b".to_vec()), Type::Primitive(PrimitiveType::Num)),
            ])
        )
    );
}

#[test]
fn type_complex_duplicate_field_keeps_last() {
    assert_eq!(
        yaupl_type(b"|-a:num,a:str-|", Pointer::new(0, 0)).unwrap().2,
        Type::Complex(vec![
            (Identifier(b"a".to_vec()), Type::Primitive(PrimitiveType::Str)),
        ])
    );
}

#[test]
fn type_empty_tuple_is_accepted() {
    assert_eq!(
        yaupl_type(b"[||]", Pointer::new(0, 0)).unwrap().2,
        Type::Tuple(Tuple(vec![]))
    );
}

#[test]
fn type_tuple_trailing_comma() {
    assert_eq!(
        yaupl_type(b"[|str,|]", Pointer::new(0, 0)).unwrap().2,
        Type::Tuple(Tuple(vec![Type::Primitive(PrimitiveType::Str)]))
    );
}

#[test]
fn tuple_elements_need_no_comma() {
    // the repetition only optionally consumes a comma between elements
    assert_eq!(
        yaupl_type(b"[|str num|]", Pointer::new(0, 0)).unwrap().2,
        Type::Tuple(Tuple(vec![
            Type::Primitive(PrimitiveType::Str),
            Type::Primitive(PrimitiveType::Num),
        ]))
    );
}

#[test]
fn complex_with_internal_whitespace() {
    assert_eq!(
        yaupl_type(b"|- b : num , a : str -|", Pointer::new(0, 0)).unwrap().2,
        Type::Complex(vec![
            (Identifier(b"a".to_vec()), Type::Primitive(PrimitiveType::Str)),
            (Identifier(b"b".to_vec()), Type::Primitive(PrimitiveType::Num)),
        ])
    );
}

#[test]
fn type_whitespace_is_insignificant() {
    let padded = yaupl_type(b"   str   ", Pointer::new(0, 0)).unwrap();
    let bare = yaupl_type(b"str", Pointer::new(0, 0)).unwrap();
    assert_eq!(padded.2, bare.2);
}

#[test]
fn type_failure_is_generic() {
    // the alternation discards the branch errors
    assert_eq!(yaupl_type(b"???", Pointer::new(0, 0)), Err(ParseError::NoMatch));
    assert_eq!(yaupl_type(b"", Pointer::new(0, 0)), Err(ParseError::NoMatch));
}

#[test]
fn function_requires_arrow() {
    // a bare tuple fails the function alternative but parses as a tuple
    assert_eq!(
        function(b"[|str|]", Pointer::new(0, 0)),
        Err(ParseError::Expected(Tok::ArrowRightThick))
    );
    assert_eq!(
        tuple(b"[|str|]", Pointer::new(0, 0)).unwrap().2,
        Type::Tuple(Tuple(vec![Type::Primitive(PrimitiveType::Str)]))
    );
}

#[test]
fn complex_requires_closing() {
    assert_eq!(
        complex(b"|-a:str", Pointer::new(0, 0)),
        Err(ParseError::Expected(Tok::TeslaClose))
    );
}

#[test]
fn identifier_rejects_keywords() {
    assert_eq!(ident(b"true", Pointer::new(0, 0)).unwrap_err(), ParseError::NoMatch);
    assert_eq!(ident(b"str", Pointer::new(0, 0)).unwrap_err(), ParseError::NoMatch);
    assert_eq!(ident(b"", Pointer::new(0, 0)).unwrap_err(), ParseError::NoMatch);
}

#[test]
fn identifier_accepts_plain_names() {
    assert_eq!(
        ident(b"  abc: num", Pointer::new(0, 0)).unwrap(),
        (
            &b": num"[..],
            Pointer { row: 0, col: 5 },
            Identifier(b"abc".to_vec())
        )
    );
}

#[test]
fn string_rejects_line_breaks() {
    assert_eq!(
        string(b"\"abc\ndef\"", Pointer::new(0, 0)).unwrap_err(),
        ParseError::UnterminatedStringLiteral
    );
}

#[test]
fn string_takes_body_between_quotes() {
    assert_eq!(
        string(b"\"ab\" rest", Pointer::new(0, 0)).unwrap(),
        (&b" rest"[..], Pointer { row: 0, col: 4 }, Str(b"ab".to_vec()))
    );
    assert_eq!(
        string(b"\"ab", Pointer::new(0, 0)).unwrap_err(),
        ParseError::UnterminatedStringLiteral
    );
}

#[test]
fn digit_and_runs() {
    assert_eq!(
        digit(b" 7x", Pointer::new(0, 0)).unwrap(),
        (&b"x"[..], Pointer { row: 0, col: 2 }, Digit::Seven)
    );
    assert_eq!(digit(b"x", Pointer::new(0, 0)).unwrap_err(), ParseError::ExpectedDigit);
    assert_eq!(digit(b"", Pointer::new(0, 0)).unwrap_err(), ParseError::NoMatch);
}

#[test]
fn numeric_with_sign_and_fraction() {
    let (rest, ptr, num) = numeric(b"-12.5x", Pointer::new(0, 0)).unwrap();
    assert_eq!(rest, &b"x"[..]);
    assert_eq!(ptr, Pointer { row: 0, col: 5 });
    assert_eq!(
        num,
        Num {
            negative: true,
            integer: vec![Digit::One, Digit::Two],
            decimal: vec![Digit::Five],
        }
    );
}

#[test]
fn numeric_without_digits_fails() {
    assert_eq!(
        numeric(b"abc", Pointer::new(0, 0)).unwrap_err(),
        ParseError::ExpectedDigit
    );
}

#[test]
fn boolean_literals() {
    assert_eq!(boolean(b" true", Pointer::new(0, 0)).unwrap().2, Bln(true));
    assert_eq!(boolean(b"false", Pointer::new(0, 0)).unwrap().2, Bln(false));
    assert_eq!(
        boolean(b"x", Pointer::new(0, 0)).unwrap_err(),
        ParseError::Expected(Tok::KeywordFalse)
    );
}

#[test]
fn empty_literal() {
    assert_eq!(empty(b"___", Pointer::new(0, 0)).unwrap().2, Emp(()));
}

#[test]
fn key_value_pair_parses_name_colon_type() {
    let (rest, ptr, kvp) = key_value_pair(b"a:str,", Pointer::new(0, 0)).unwrap();
    assert_eq!(rest, &b","[..]);
    assert_eq!(ptr, Pointer { row: 0, col: 5 });
    assert_eq!(kvp.key, (Identifier(b"a".to_vec()), Pointer { row: 0, col: 1 }));
    assert_eq!(kvp.value, (Type::Primitive(PrimitiveType::Str), Pointer { row: 0, col: 5 }));
}

#[test]
fn pointer_moves_by_value() {
    let p = Pointer::new(2, 3);
    assert_eq!(p.add_col(4), Pointer { row: 2, col: 7 });
    assert_eq!(p.add_row(1), Pointer { row: 3, col: 3 });
    // the original pointer is untouched
    assert_eq!(p, Pointer { row: 2, col: 3 });
}

#[test]
fn parse_whole_text() {
    assert_eq!(
        parse("[|str|]=>num@").unwrap(),
        (
            &b""[..],
            Pointer { row: 0, col: 13 },
            Type::Function(Function {
                parameters: vec![Type::Primitive(PrimitiveType::Str)],
                return_type: Box::new(Type::Group(Group(Box::new(Type::Primitive(
                    PrimitiveType::Num
                ))))),
            })
        )
    );
}

#[test]
fn parse_stops_after_one_type() {
    let (rest, ptr, t) = parse("bln extra").unwrap();
    assert_eq!(t, Type::Primitive(PrimitiveType::Bln));
    assert_eq!(rest, &b" extra"[..]);
    assert_eq!(ptr, Pointer { row: 0, col: 3 });
}

#[test]
fn deep_group_nesting() {
    // two hundred sigils parse to two hundred nested groups
    let depth = 200;
    let mut text = b"num".to_vec();
    text.extend(std::iter::repeat(b'@').take(depth));
    let (rest, ptr, parsed) = yaupl_type(&text, Pointer::new(0, 0)).unwrap();
    assert_eq!(rest, &b""[..]);
    assert_eq!(ptr, Pointer { row: 0, col: 3 + depth });
    let mut expected = Type::Primitive(PrimitiveType::Num);
    for _ in 0..depth {
        expected = Type::Group(Group(Box::new(expected)));
    }
    assert_eq!(parsed, expected);
}

#[test]
fn deep_tuple_nesting() {
    // the speculative function-then-tuple alternation re-parses each
    // nested tuple, so parse time doubles per level: keep the depth low
    let depth = 12;
    let mut text = Vec::new();
    for _ in 0..depth {
        text.extend_from_slice(b"[|");
    }
    text.extend_from_slice(b"str");
    for _ in 0..depth {
        text.extend_from_slice(b"|]");
    }
    let (rest, _ptr, parsed) = yaupl_type(&text, Pointer::new(0, 0)).unwrap();
    assert_eq!(rest, &b""[..]);
    let mut expected = Type::Primitive(PrimitiveType::Str);
    for _ in 0..depth {
        expected = Type::Tuple(Tuple(vec![expected]));
    }
    assert_eq!(parsed, expected);
}

#[test]
fn digit_token_text() {
    assert_eq!(Digit::Zero.token(), "0");
    assert_eq!(Digit::Nine.token(), "9");
    assert_eq!(Digit::default(), Digit::Zero);
}

#[test]
fn cursor_tracks_rows_and_columns() {
    let (rest, ptr, t) = yaupl_type(b"[|str,\n  num|] tail", Pointer::new(0, 0)).unwrap();
    assert_eq!(
        t,
        Type::Tuple(Tuple(vec![
            Type::Primitive(PrimitiveType::Str),
            Type::Primitive(PrimitiveType::Num),
        ]))
    );
    assert_eq!(rest, &b" tail"[..]);
    // the line break reset the column; "  num|]" ends at column 7
    assert_eq!(ptr, Pointer { row: 1, col: 7 });
}
