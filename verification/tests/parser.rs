use candy::parse::{
    arrow, body, call, comment, double_quote, expression, identifier, integer, lambda,
    leading_indentation, literal, parenthesized, single_line_whitespace, symbol, text,
    whitespaces_and_newlines, word,
};
use candy::{Cst, CstError};

fn chars(s: &str) -> Vec<char> {
    s.chars().collect()
}

#[test]
fn test_literal() {
    assert_eq!(literal(&chars("hello, world"), 0, &chars("hello")), Some(5));
    assert_eq!(literal(&chars("hello, world"), 0, &chars("hi")), None);
}

#[test]
fn test_word() {
    assert_eq!(word(&chars("hello, world"), 0), Some((5, "hello".to_string())));
    assert_eq!(word(&chars("I💖Candy blub"), 0), Some((7, "I💖Candy".to_string())));
    assert_eq!(word(&chars("012🔥hi"), 0), Some((6, "012🔥hi".to_string())));
    assert_eq!(word(&chars("foo(blub)"), 0), Some((3, "foo".to_string())));
}

#[test]
fn test_identifier() {
    assert_eq!(
        identifier(&chars("foo bar"), 0),
        Some((3, Cst::Identifier("foo".to_string())))
    );
    assert_eq!(identifier(&chars("Foo bar"), 0), None);
    assert_eq!(identifier(&chars("012 bar"), 0), None);
    assert_eq!(
        identifier(&chars("f12🔥 bar"), 0),
        Some((
            4,
            Cst::Error {
                unparsable_input: "f12🔥".to_string(),
                error: CstError::IdentifierContainsNonAlphanumericAscii,
            }
        ))
    );
}

#[test]
fn test_symbol() {
    assert_eq!(symbol(&chars("Foo b"), 0), Some((3, Cst::Symbol("Foo".to_string()))));
    assert_eq!(symbol(&chars("foo bar"), 0), None);
    assert_eq!(symbol(&chars("012 bar"), 0), None);
    assert_eq!(
        symbol(&chars("F12🔥 bar"), 0),
        Some((
            4,
            Cst::Error {
                unparsable_input: "F12🔥".to_string(),
                error: CstError::SymbolContainsNonAlphanumericAscii,
            }
        ))
    );
}

#[test]
fn test_int() {
    assert_eq!(integer(&chars("42 "), 0), Some((2, Cst::Int(42))));
    assert_eq!(integer(&chars("123 years"), 0), Some((3, Cst::Int(123))));
    assert_eq!(integer(&chars("foo"), 0), None);
    assert_eq!(
        integer(&chars("3D"), 0),
        Some((
            2,
            Cst::Error {
                unparsable_input: "3D".to_string(),
                error: CstError::IntContainsNonDigits,
            }
        ))
    );
}

#[test]
fn test_leading_indentation() {
    assert_eq!(
        leading_indentation(&chars("foo"), 0, 0),
        Some((0, Cst::Whitespace("".to_string())))
    );
    assert_eq!(
        leading_indentation(&chars("  foo"), 0, 1),
        Some((2, Cst::Whitespace("  ".to_string())))
    );
    assert_eq!(leading_indentation(&chars("  foo"), 0, 2), None);
}

#[test]
fn test_whitespaces_and_newlines() {
    assert_eq!(whitespaces_and_newlines(&chars("foo"), 0, 0, true), (0, vec![]));
    assert_eq!(
        whitespaces_and_newlines(&chars("\nfoo"), 0, 0, true),
        (1, vec![Cst::Newline])
    );
    assert_eq!(
        whitespaces_and_newlines(&chars("\n  foo"), 0, 1, true),
        (3, vec![Cst::Newline, Cst::Whitespace("  ".to_string())])
    );
    assert_eq!(
        whitespaces_and_newlines(&chars("\n  foo"), 0, 0, true),
        (1, vec![Cst::Newline])
    );
    assert_eq!(
        whitespaces_and_newlines(&chars(" \n  foo"), 0, 0, true),
        (2, vec![Cst::Whitespace(" ".to_string()), Cst::Newline])
    );
    assert_eq!(
        whitespaces_and_newlines(&chars("\n  foo"), 0, 2, true),
        (0, vec![])
    );
    assert_eq!(
        whitespaces_and_newlines(&chars("\tfoo"), 0, 1, true),
        (
            1,
            vec![Cst::Error {
                unparsable_input: "\t".to_string(),
                error: CstError::WeirdWhitespace,
            }]
        )
    );
    assert_eq!(
        whitespaces_and_newlines(&chars("# hey\n  foo"), 0, 1, true),
        (
            8,
            vec![
                Cst::Comment(" hey".to_string()),
                Cst::Newline,
                Cst::Whitespace("  ".to_string()),
            ]
        )
    );
}

#[test]
fn test_text() {
    assert_eq!(text(&chars("foo"), 0, 0), None);
    assert_eq!(
        text(&chars("\"foo\" bar"), 0, 0),
        Some((
            5,
            Cst::Text {
                opening_quote: Box::new(Cst::DoubleQuote),
                parts: vec![Cst::TextPart("foo".to_string())],
                closing_quote: Box::new(Cst::DoubleQuote),
            }
        ))
    );
    // "foo
    //   bar"2
    assert_eq!(
        text(&chars("\"foo\n  bar\"2"), 0, 0),
        Some((
            11,
            Cst::Text {
                opening_quote: Box::new(Cst::DoubleQuote),
                parts: vec![
                    Cst::TextPart("foo".to_string()),
                    Cst::Newline,
                    Cst::Whitespace("  ".to_string()),
                    Cst::TextPart("bar".to_string()),
                ],
                closing_quote: Box::new(Cst::DoubleQuote),
            }
        ))
    );
    //   "foo
    //   bar"
    assert_eq!(
        text(&chars("\"foo\n  bar\"2"), 0, 1),
        Some((
            4,
            Cst::Text {
                opening_quote: Box::new(Cst::DoubleQuote),
                parts: vec![Cst::TextPart("foo".to_string())],
                closing_quote: Box::new(Cst::Error {
                    unparsable_input: "".to_string(),
                    error: CstError::TextNotSufficientlyIndented,
                }),
            }
        ))
    );
    assert_eq!(
        text(&chars("\"foo"), 0, 0),
        Some((
            4,
            Cst::Text {
                opening_quote: Box::new(Cst::DoubleQuote),
                parts: vec![Cst::TextPart("foo".to_string())],
                closing_quote: Box::new(Cst::Error {
                    unparsable_input: "".to_string(),
                    error: CstError::TextDoesNotEndUntilInputEnds,
                }),
            }
        ))
    );
}

#[test]
fn test_expression() {
    assert_eq!(
        expression(&chars("foo"), 0, 0, true),
        Some((3, Cst::Identifier("foo".to_string())))
    );
}

#[test]
fn test_call() {
    assert_eq!(call(&chars("print"), 0, 0), None);
    // The whitespace between the callee and its arguments stays in the
    // node: the tree formats back to the source.
    assert_eq!(
        call(&chars("foo bar"), 0, 0),
        Some((
            7,
            Cst::Call {
                name: Box::new(Cst::Identifier("foo".to_string())),
                arguments: vec![
                    Cst::Whitespace(" ".to_string()),
                    Cst::Identifier("bar".to_string()),
                ],
            }
        ))
    );
    assert_eq!(
        call(&chars("Foo 4 bar"), 0, 0),
        Some((
            9,
            Cst::Call {
                name: Box::new(Cst::Symbol("Foo".to_string())),
                arguments: vec![
                    Cst::Whitespace(" ".to_string()),
                    Cst::Int(4),
                    Cst::Whitespace(" ".to_string()),
                    Cst::Identifier("bar".to_string()),
                ],
            }
        ))
    );
    // foo
    //   bar
    //   baz
    // 2
    assert_eq!(
        call(&chars("foo\n  bar\n  baz\n2"), 0, 0),
        Some((
            15,
            Cst::Call {
                name: Box::new(Cst::Identifier("foo".to_string())),
                arguments: vec![
                    Cst::Newline,
                    Cst::Whitespace("  ".to_string()),
                    Cst::Identifier("bar".to_string()),
                    Cst::Newline,
                    Cst::Whitespace("  ".to_string()),
                    Cst::Identifier("baz".to_string()),
                ],
            }
        ))
    );
    // foo 1 2
    //   3
    //   4
    // bar
    assert_eq!(
        call(&chars("foo 1 2\n  3\n  4\nbar"), 0, 0),
        Some((
            15,
            Cst::Call {
                name: Box::new(Cst::Identifier("foo".to_string())),
                arguments: vec![
                    Cst::Whitespace(" ".to_string()),
                    Cst::Int(1),
                    Cst::Whitespace(" ".to_string()),
                    Cst::Int(2),
                    Cst::Newline,
                    Cst::Whitespace("  ".to_string()),
                    Cst::Int(3),
                    Cst::Newline,
                    Cst::Whitespace("  ".to_string()),
                    Cst::Int(4),
                ],
            }
        ))
    );
}

#[test]
fn test_parenthesized() {
    assert_eq!(
        parenthesized(&chars("(foo)"), 0, 0),
        Some((
            5,
            Cst::Parenthesized {
                opening_parenthesis: Box::new(Cst::OpeningParenthesis),
                inner: Box::new(Cst::Identifier("foo".to_string())),
                closing_parenthesis: Box::new(Cst::ClosingParenthesis),
            }
        ))
    );
    assert_eq!(parenthesized(&chars("foo"), 0, 0), None);
    assert_eq!(
        parenthesized(&chars("(foo"), 0, 0),
        Some((
            4,
            Cst::Parenthesized {
                opening_parenthesis: Box::new(Cst::OpeningParenthesis),
                inner: Box::new(Cst::Identifier("foo".to_string())),
                closing_parenthesis: Box::new(Cst::Error {
                    unparsable_input: "".to_string(),
                    error: CstError::ParenthesisNotClosed,
                }),
            }
        ))
    );
}

#[test]
fn test_lambda() {
    assert_eq!(lambda(&chars("2"), 0, 0), None);
    assert_eq!(
        lambda(&chars("{ 2 }"), 0, 0),
        Some((
            5,
            Cst::Lambda {
                opening_curly_brace: Box::new(Cst::OpeningCurlyBrace),
                parameters_and_arrow: None,
                body: vec![
                    Cst::Whitespace(" ".to_string()),
                    Cst::Int(2),
                    Cst::Whitespace(" ".to_string()),
                ],
                closing_curly_brace: Box::new(Cst::ClosingCurlyBrace),
            }
        ))
    );
    // { a ->
    //   foo
    // }
    assert_eq!(
        lambda(&chars("{ a ->\n  foo\n}"), 0, 0),
        Some((
            14,
            Cst::Lambda {
                opening_curly_brace: Box::new(Cst::OpeningCurlyBrace),
                parameters_and_arrow: Some((
                    vec![
                        Cst::Whitespace(" ".to_string()),
                        Cst::Identifier("a".to_string()),
                        Cst::Whitespace(" ".to_string()),
                    ],
                    Box::new(Cst::Arrow),
                )),
                body: vec![
                    Cst::Newline,
                    Cst::Whitespace("  ".to_string()),
                    Cst::Identifier("foo".to_string()),
                    Cst::Newline,
                ],
                closing_curly_brace: Box::new(Cst::ClosingCurlyBrace),
            }
        ))
    );
    // {
    // foo
    assert_eq!(
        lambda(&chars("{\nfoo"), 0, 0),
        Some((
            1,
            Cst::Lambda {
                opening_curly_brace: Box::new(Cst::OpeningCurlyBrace),
                parameters_and_arrow: None,
                body: vec![],
                closing_curly_brace: Box::new(Cst::Error {
                    unparsable_input: "".to_string(),
                    error: CstError::CurlyBraceNotClosed,
                }),
            }
        ))
    );
}

/// Formatting a parsed node yields exactly the consumed input. An int
/// with leading zeros is the one token where this fails: `012` parses to
/// the value twelve and formats back as `12`.
#[test]
fn round_trip_of_parsed_nodes() {
    for source in [
        "foo bar",
        "Foo 4 bar",
        "42 years",
        "f12🔥 bar",
        "\"foo\n  bar\"2",
        "\"foo",
        "# hey\nfoo",
        "\tfoo",
    ] {
        let input = chars(source);
        if let Some((end, cst)) = expression(&input, 0, 0, false) {
            let formatted: Vec<char> = cst.to_source_string().chars().collect();
            assert_eq!(&formatted[..], &input[..end]);
        }
        let (end, parts) = whitespaces_and_newlines(&input, 0, 1, true);
        let mut formatted = String::new();
        for part in &parts {
            formatted += &part.to_source_string();
        }
        let formatted: Vec<char> = formatted.chars().collect();
        assert_eq!(&formatted[..], &input[..end]);
    }
}

#[test]
fn comments_and_quotes_format_back() {
    let input = chars("# a comment\nrest");
    assert_eq!(
        comment(&input, 0),
        Some((11, Cst::Comment(" a comment".to_string())))
    );
    assert_eq!(double_quote(&chars("\"x"), 0), Some((1, Cst::DoubleQuote)));
    assert_eq!(arrow(&chars("-> x"), 0), Some((2, Cst::Arrow)));
    assert_eq!(arrow(&chars("- x"), 0), None);
}

#[test]
fn single_line_whitespace_splits_weird_whitespace() {
    assert_eq!(
        single_line_whitespace(&chars("  x"), 0),
        (2, Cst::Whitespace("  ".to_string()))
    );
    assert_eq!(
        single_line_whitespace(&chars(" \u{a0} x"), 0),
        (
            3,
            Cst::Error {
                unparsable_input: " \u{a0} ".to_string(),
                error: CstError::WeirdWhitespace,
            }
        )
    );
}

#[test]
fn integer_overflow_becomes_error_node() {
    // The value does not fit the int type, so the word is kept as an error
    // node rather than a truncated number.
    let source = "99999999999999999999999";
    assert_eq!(
        integer(&chars(source), 0),
        Some((
            23,
            Cst::Error {
                unparsable_input: source.to_string(),
                error: CstError::IntContainsNonDigits,
            }
        ))
    );
    assert_eq!(
        integer(&chars("18446744073709551615"), 0),
        Some((20, Cst::Int(u64::MAX)))
    );
}

#[test]
fn body_reports_too_much_whitespace() {
    let (end, expressions) = body(&chars("  foo"), 0, 0);
    assert_eq!(end, 5);
    assert_eq!(
        expressions,
        vec![
            Cst::Error {
                unparsable_input: "  ".to_string(),
                error: CstError::TooMuchWhitespace,
            },
            Cst::Identifier("foo".to_string()),
        ]
    );
}

#[test]
fn children_walk_the_tree_in_source_order() {
    let call = Cst::Call {
        name: Box::new(Cst::Identifier("print".to_string())),
        arguments: vec![Cst::Whitespace(" ".to_string()), Cst::Int(3)],
    };
    let children = call.children();
    assert_eq!(children.len(), 3);
    assert_eq!(children[0], &Cst::Identifier("print".to_string()));
    assert_eq!(children[1], &Cst::Whitespace(" ".to_string()));
    assert_eq!(children[2], &Cst::Int(3));
    assert!(Cst::Newline.children().is_empty());
    let lambda = Cst::Lambda {
        opening_curly_brace: Box::new(Cst::OpeningCurlyBrace),
        parameters_and_arrow: Some((
            vec![Cst::Identifier("a".to_string())],
            Box::new(Cst::Arrow),
        )),
        body: vec![Cst::Identifier("a".to_string())],
        closing_curly_brace: Box::new(Cst::ClosingCurlyBrace),
    };
    let lambda_children = lambda.children();
    assert_eq!(lambda_children.len(), 5);
    assert_eq!(lambda_children[0], &Cst::OpeningCurlyBrace);
    assert_eq!(lambda_children[1], &Cst::Identifier("a".to_string()));
    assert_eq!(lambda_children[2], &Cst::Arrow);
    assert_eq!(lambda_children[3], &Cst::Identifier("a".to_string()));
    assert_eq!(lambda_children[4], &Cst::ClosingCurlyBrace);
}

/// Parsing a whole module keeps every byte: formatting the returned nodes
/// concatenates back to the input, whatever the input is.
#[test]
fn string_to_cst_keeps_every_character()  {
    for source in [
        "foo bar",
        "a = 1\nb = 2",
        "main = { environment -> 2 }",
        "# a comment\nfoo  \n\tbar\n???",
        "\"unclosed text",
        "{}[]():,->",
        "",
    ] {
        let input = chars(source);
        let nodes = candy::parse::string_to_cst(&input);
        let mut formatted = String::new();
        for node in &nodes {
            formatted += &node.to_source_string();
        }
        assert_eq!(formatted, source);
    }
}

/// An int with leading zeros stays an error node carrying its source, so
/// even it formats back exactly.
#[test]
fn leading_zero_ints_keep_their_text() {
    assert_eq!(
        integer(&chars("007"), 0),
        Some((
            3,
            Cst::Error {
                unparsable_input: "007".to_string(),
                error: CstError::IntHasLeadingZeros,
            }
        ))
    );
    assert_eq!(integer(&chars("0"), 0), Some((1, Cst::Int(0))));
}
