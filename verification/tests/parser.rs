use rcl::cst::{BinOp, Expr, NonCode, SeqElem, UnOp};
use rcl::error::ParseError;
use rcl::lexer::Token;
use rcl::parser::{parse, try_parse, Parser};
use rcl::source::{DocId, Span};

const DOC: DocId = DocId(7);

fn sp(start: usize, len: usize) -> Span {
    Span { doc: DOC, start, len }
}

fn tok(t: Token, start: usize, len: usize) -> (Token, Span) {
    (t, sp(start, len))
}

fn is_var(e: &Expr, start: usize) -> bool {
    matches!(e, Expr::Var(s) if *s == sp(start, 1))
}

fn expect_err(r: Result<rcl::cst::Prefixed<Expr>, ParseError>) -> ParseError {
    match r {
        Ok(v) => panic!("expected an error, got {:?}", v),
        Err(err) => err,
    }
}

#[test]
fn parses_a_variable() {
    let tokens = vec![tok(Token::Ident, 0, 1)];
    let r = parse(DOC, "a", &tokens).unwrap();
    assert!(r.prefix.is_empty());
    assert!(is_var(&r.inner, 0));
}

#[test]
fn trailing_tokens_are_an_error() {
    // "a b"
    let tokens = vec![tok(Token::Ident, 0, 1), tok(Token::Ident, 2, 1)];
    let err = expect_err(parse(DOC, "a b", &tokens));
    assert_eq!(err.message, "Unexpected content after the main expression.");
    assert_eq!(err.span, sp(2, 1));
    assert_eq!(err.note, None);
}

#[test]
fn trailing_blank_lines_are_allowed() {
    // "a\n\n"
    let tokens = vec![tok(Token::Ident, 0, 1), tok(Token::Blank, 1, 2)];
    let r = parse(DOC, "a\n\n", &tokens).unwrap();
    assert!(is_var(&r.inner, 0));
}

#[test]
fn comment_after_an_expression_is_an_error() {
    // "a\n// c": operators may follow an expression, and no comment may
    // stand between them.
    let tokens = vec![tok(Token::Ident, 0, 1), tok(Token::LineComment, 2, 4)];
    let err = expect_err(parse(DOC, "a\n// c", &tokens));
    assert_eq!(err.message, "A comment is not allowed here.");
    assert_eq!(err.span, sp(2, 4));
}

#[test]
fn unclosed_bracket_is_reported_at_the_end() {
    // "[x"
    let tokens = vec![tok(Token::LBracket, 0, 1), tok(Token::Ident, 1, 1)];
    let err = expect_err(parse(DOC, "[x", &tokens));
    assert_eq!(err.message, "Expected ']'.");
    assert_eq!(err.span, sp(2, 0));
    assert_eq!(err.note, Some(("Unmatched '[' opened here.", sp(0, 1))));
}

#[test]
fn unclosed_call_is_reported_at_the_end() {
    // "f(a,"
    let tokens = vec![
        tok(Token::Ident, 0, 1),
        tok(Token::LParen, 1, 1),
        tok(Token::Ident, 2, 1),
        tok(Token::Comma, 3, 1),
    ];
    let err = expect_err(parse(DOC, "f(a,", &tokens));
    assert_eq!(err.message, "Unexpected token, expected a term.");
    assert_eq!(err.span, sp(4, 0));
    // "(a"
    let tokens = vec![tok(Token::LParen, 0, 1), tok(Token::Ident, 1, 1)];
    let err = expect_err(parse(DOC, "(a", &tokens));
    assert_eq!(err.message, "Expected ')'.");
    assert_eq!(err.span, sp(2, 0));
    assert_eq!(err.note, Some(("Unmatched '(' opened here.", sp(0, 1))));
}

#[test]
fn unclosed_brace_is_reported_at_the_end() {
    // "{a = b"
    let tokens = vec![
        tok(Token::LBrace, 0, 1),
        tok(Token::Ident, 1, 1),
        tok(Token::Eq, 3, 1),
        tok(Token::Ident, 5, 1),
    ];
    let err = expect_err(parse(DOC, "{a = b", &tokens));
    assert_eq!(err.message, "Expected '}'.");
    assert_eq!(err.span, sp(6, 0));
    assert_eq!(err.note, Some(("Unmatched '{' opened here.", sp(0, 1))));
}

#[test]
fn try_parse_tells_unhandled_input_apart() {
    // "if c" is not handled.
    let tokens = vec![tok(Token::KwIf, 0, 2), tok(Token::Ident, 3, 1)];
    assert!(try_parse(DOC, "if c", &tokens).is_none());
    // "[let x = y; x]" is not handled.
    let tokens = vec![
        tok(Token::LBracket, 0, 1),
        tok(Token::KwLet, 1, 3),
        tok(Token::Ident, 5, 1),
        tok(Token::Eq, 7, 1),
        tok(Token::Ident, 9, 1),
        tok(Token::Semicolon, 10, 1),
        tok(Token::Ident, 12, 1),
        tok(Token::RBracket, 13, 1),
    ];
    assert!(try_parse(DOC, "[let x = y; x]", &tokens).is_none());
    // "a" and ")" are.
    let tokens = vec![tok(Token::Ident, 0, 1)];
    assert!(matches!(try_parse(DOC, "a", &tokens), Some(Ok(_))));
    let tokens = vec![tok(Token::RParen, 0, 1)];
    assert!(matches!(try_parse(DOC, ")", &tokens), Some(Err(_))));
}

#[test]
fn parses_let() {
    // "let x = y; x"
    let tokens = vec![
        tok(Token::KwLet, 0, 3),
        tok(Token::Ident, 4, 1),
        tok(Token::Eq, 6, 1),
        tok(Token::Ident, 8, 1),
        tok(Token::Semicolon, 9, 1),
        tok(Token::Ident, 11, 1),
    ];
    let r = parse(DOC, "let x = y; x", &tokens).unwrap();
    match &r.inner {
        Expr::Let { ident, value, body } => {
            assert_eq!(*ident, sp(4, 1));
            assert!(is_var(value, 8));
            assert!(body.prefix.is_empty());
            assert!(is_var(&body.inner, 11));
        }
        other => panic!("unexpected {:?}", other),
    }
}

#[test]
fn let_without_semicolon_notes_the_let() {
    // "let x = y x"
    let tokens = vec![
        tok(Token::KwLet, 0, 3),
        tok(Token::Ident, 4, 1),
        tok(Token::Eq, 6, 1),
        tok(Token::Ident, 8, 1),
        tok(Token::Ident, 10, 1),
    ];
    let err = expect_err(parse(DOC, "let x = y x", &tokens));
    assert_eq!(err.message, "Expected ';' here to close the let-binding.");
    assert_eq!(err.span, sp(10, 1));
    assert_eq!(err.note, Some(("Let-binding opened here.", sp(0, 3))));
}

#[test]
fn let_without_name_is_an_error() {
    // "let = y; x"
    let tokens = vec![
        tok(Token::KwLet, 0, 3),
        tok(Token::Eq, 4, 1),
        tok(Token::Ident, 6, 1),
        tok(Token::Semicolon, 7, 1),
        tok(Token::Ident, 9, 1),
    ];
    let err = expect_err(parse(DOC, "let = y; x", &tokens));
    assert_eq!(err.message, "Expected an identifier here.");
    assert_eq!(err.span, sp(4, 1));
    assert_eq!(err.note, None);
}

#[test]
fn comment_inside_let_is_an_error_that_points_at_the_anchor() {
    // "let\n// c\nx = y; x": the comment follows `let`.
    let tokens = vec![
        tok(Token::KwLet, 0, 3),
        tok(Token::LineComment, 4, 5),
        tok(Token::Ident, 9, 1),
        tok(Token::Eq, 11, 1),
        tok(Token::Ident, 13, 1),
        tok(Token::Semicolon, 14, 1),
        tok(Token::Ident, 16, 1),
    ];
    let err = expect_err(parse(DOC, "let\n// c\nx = y; x", &tokens));
    assert_eq!(err.message, "A comment is not allowed here.");
    assert_eq!(err.span, sp(4, 5));
    assert_eq!(err.note, Some(("Try inserting the comment before this instead.", sp(0, 0))));
}

#[test]
fn leading_comments_and_blank_lines_form_the_prefix() {
    // "// c\n\na"
    let tokens = vec![
        tok(Token::LineComment, 0, 5),
        tok(Token::Blank, 5, 1),
        tok(Token::Ident, 6, 1),
    ];
    let r = parse(DOC, "// c\n\na", &tokens).unwrap();
    assert_eq!(r.prefix, vec![NonCode::LineComment(sp(0, 5)), NonCode::Blank(sp(5, 1))]);
    assert!(is_var(&r.inner, 6));
}

#[test]
fn blank_lines_between_tokens_are_skipped() {
    // "a\n\n| b"
    let tokens = vec![
        tok(Token::Ident, 0, 1),
        tok(Token::Blank, 1, 2),
        tok(Token::Pipe, 3, 1),
        tok(Token::Ident, 5, 1),
    ];
    let r = parse(DOC, "a\n\n| b", &tokens).unwrap();
    assert!(matches!(&r.inner, Expr::BinOp { op: BinOp::Union, .. }));
}

#[test]
fn parses_brace_literal_of_assignments() {
    // "{a = b; c = d}"
    let tokens = vec![
        tok(Token::LBrace, 0, 1),
        tok(Token::Ident, 1, 1),
        tok(Token::Eq, 3, 1),
        tok(Token::Ident, 5, 1),
        tok(Token::Semicolon, 6, 1),
        tok(Token::Ident, 8, 1),
        tok(Token::Eq, 10, 1),
        tok(Token::Ident, 12, 1),
        tok(Token::RBrace, 13, 1),
    ];
    let r = parse(DOC, "{a = b; c = d}", &tokens).unwrap();
    match &r.inner {
        Expr::BraceLit { open, close, elements } => {
            assert_eq!(*open, sp(0, 1));
            assert_eq!(*close, sp(13, 1));
            assert_eq!(elements.len(), 2);
            match &elements[0].inner {
                SeqElem::AssocIdent { field, value } => {
                    assert_eq!(*field, sp(1, 1));
                    assert!(is_var(value, 5));
                }
                other => panic!("unexpected {:?}", other),
            }
            match &elements[1].inner {
                SeqElem::AssocIdent { field, value } => {
                    assert_eq!(*field, sp(8, 1));
                    assert!(is_var(value, 12));
                }
                other => panic!("unexpected {:?}", other),
            }
        }
        other => panic!("unexpected {:?}", other),
    }
}

#[test]
fn assignment_followed_by_comma_is_an_error() {
    // "{a = b, c = d}"
    let tokens = vec![
        tok(Token::LBrace, 0, 1),
        tok(Token::Ident, 1, 1),
        tok(Token::Eq, 3, 1),
        tok(Token::Ident, 5, 1),
        tok(Token::Comma, 6, 1),
        tok(Token::Ident, 8, 1),
        tok(Token::Eq, 10, 1),
        tok(Token::Ident, 12, 1),
        tok(Token::RBrace, 13, 1),
    ];
    let err = expect_err(parse(DOC, "{a = b, c = d}", &tokens));
    assert_eq!(err.message, "Expected a ';' rather than a ',' here.");
    assert_eq!(err.span, sp(6, 1));
}

#[test]
fn element_followed_by_semicolon_is_an_error() {
    // "[a; b]"
    let tokens = vec![
        tok(Token::LBracket, 0, 1),
        tok(Token::Ident, 1, 1),
        tok(Token::Semicolon, 2, 1),
        tok(Token::Ident, 4, 1),
        tok(Token::RBracket, 5, 1),
    ];
    let err = expect_err(parse(DOC, "[a; b]", &tokens));
    assert_eq!(err.message, "Expected a ',' rather than a ';' here.");
    assert_eq!(err.span, sp(2, 1));
}

#[test]
fn parses_bracket_literal() {
    // "[a, b,]"
    let tokens = vec![
        tok(Token::LBracket, 0, 1),
        tok(Token::Ident, 1, 1),
        tok(Token::Comma, 2, 1),
        tok(Token::Ident, 4, 1),
        tok(Token::Comma, 5, 1),
        tok(Token::RBracket, 6, 1),
    ];
    let r = parse(DOC, "[a, b,]", &tokens).unwrap();
    match &r.inner {
        Expr::BracketLit { elements, close, .. } => {
            assert_eq!(*close, sp(6, 1));
            assert_eq!(elements.len(), 2);
            assert!(matches!(&elements[0].inner, SeqElem::Elem { value } if is_var(value, 1)));
            assert!(matches!(&elements[1].inner, SeqElem::Elem { value } if is_var(value, 4)));
        }
        other => panic!("unexpected {:?}", other),
    }
}

#[test]
fn mismatched_bracket_notes_the_opening_one() {
    // "(a]"
    let tokens = vec![
        tok(Token::LParen, 0, 1),
        tok(Token::Ident, 1, 1),
        tok(Token::RBracket, 2, 1),
    ];
    let err = expect_err(parse(DOC, "(a]", &tokens));
    assert_eq!(err.message, "Expected ')'.");
    assert_eq!(err.span, sp(2, 1));
    assert_eq!(err.note, Some(("Unmatched '(' opened here.", sp(0, 1))));
}

#[test]
fn mismatched_brace_notes_the_opening_one() {
    // "{a)"
    let tokens = vec![
        tok(Token::LBrace, 0, 1),
        tok(Token::Ident, 1, 1),
        tok(Token::RParen, 2, 1),
    ];
    let err = expect_err(parse(DOC, "{a)", &tokens));
    assert_eq!(err.message, "Expected '}'.");
    assert_eq!(err.note, Some(("Unmatched '{' opened here.", sp(0, 1))));
}

#[test]
fn mismatched_square_bracket_notes_the_opening_one() {
    // "[a}"
    let tokens = vec![
        tok(Token::LBracket, 0, 1),
        tok(Token::Ident, 1, 1),
        tok(Token::RBrace, 2, 1),
    ];
    let err = expect_err(parse(DOC, "[a}", &tokens));
    assert_eq!(err.message, "Expected ']'.");
    assert_eq!(err.note, Some(("Unmatched '[' opened here.", sp(0, 1))));
}

#[test]
fn parses_parentheses() {
    // "(a)"
    let tokens = vec![
        tok(Token::LParen, 0, 1),
        tok(Token::Ident, 1, 1),
        tok(Token::RParen, 2, 1),
    ];
    let r = parse(DOC, "(a)", &tokens).unwrap();
    match &r.inner {
        Expr::Parens { open, close, body } => {
            assert_eq!((*open, *close), (sp(0, 1), sp(2, 1)));
            assert!(is_var(body, 1));
        }
        other => panic!("unexpected {:?}", other),
    }
}

#[test]
fn unexpected_token_is_not_a_term() {
    let tokens = vec![tok(Token::RParen, 0, 1)];
    let err = expect_err(parse(DOC, ")", &tokens));
    assert_eq!(err.message, "Unexpected token, expected a term.");
    assert_eq!(err.span, sp(0, 1));
    assert_eq!(err.note, None);
}

#[test]
fn empty_input_errors_at_the_end_of_the_document() {
    let tokens: Vec<(Token, Span)> = vec![];
    let err = expect_err(parse(DOC, "  ", &tokens));
    assert_eq!(err.message, "Unexpected token, expected a term.");
    assert_eq!(err.span, sp(2, 0));
}

#[test]
fn same_binary_operators_chain_to_the_left() {
    // "a | b | c"
    let tokens = vec![
        tok(Token::Ident, 0, 1),
        tok(Token::Pipe, 2, 1),
        tok(Token::Ident, 4, 1),
        tok(Token::Pipe, 6, 1),
        tok(Token::Ident, 8, 1),
    ];
    let r = parse(DOC, "a | b | c", &tokens).unwrap();
    match &r.inner {
        Expr::BinOp { op: BinOp::Union, op_span, lhs, rhs } => {
            assert_eq!(*op_span, sp(6, 1));
            assert!(is_var(rhs, 8));
            match &**lhs {
                Expr::BinOp { op: BinOp::Union, op_span, lhs, rhs } => {
                    assert_eq!(*op_span, sp(2, 1));
                    assert!(is_var(lhs, 0));
                    assert!(is_var(rhs, 4));
                }
                other => panic!("unexpected {:?}", other),
            }
        }
        other => panic!("unexpected {:?}", other),
    }
}

#[test]
fn plus_is_addition() {
    // "a + b"
    let tokens = vec![tok(Token::Ident, 0, 1), tok(Token::Plus, 2, 1), tok(Token::Ident, 4, 1)];
    let r = parse(DOC, "a + b", &tokens).unwrap();
    assert!(matches!(&r.inner, Expr::BinOp { op: BinOp::Add, .. }));
}

#[test]
fn mixed_binary_operators_are_ambiguous() {
    // "a | b + c"
    let tokens = vec![
        tok(Token::Ident, 0, 1),
        tok(Token::Pipe, 2, 1),
        tok(Token::Ident, 4, 1),
        tok(Token::Plus, 6, 1),
        tok(Token::Ident, 8, 1),
    ];
    let err = expect_err(parse(DOC, "a | b + c", &tokens));
    assert_eq!(
        err.message,
        "Operator with ambiguous precedence is not allowed here. Add parentheses to clarify."
    );
    assert_eq!(err.span, sp(6, 1));
    assert_eq!(
        err.note,
        Some((
            "Without parenthesis, it is not clear whether this operator would take precedence.",
            sp(2, 1)
        ))
    );
}

#[test]
fn parenthesized_operators_may_mix() {
    // "(a | b) + c"
    let tokens = vec![
        tok(Token::LParen, 0, 1),
        tok(Token::Ident, 1, 1),
        tok(Token::Pipe, 3, 1),
        tok(Token::Ident, 5, 1),
        tok(Token::RParen, 6, 1),
        tok(Token::Plus, 8, 1),
        tok(Token::Ident, 10, 1),
    ];
    let r = parse(DOC, "(a | b) + c", &tokens).unwrap();
    match &r.inner {
        Expr::BinOp { op: BinOp::Add, lhs, .. } => {
            assert!(matches!(&**lhs, Expr::Parens { .. }));
        }
        other => panic!("unexpected {:?}", other),
    }
}

#[test]
fn not_is_a_prefix_operator() {
    // "not a"
    let tokens = vec![tok(Token::KwNot, 0, 3), tok(Token::Ident, 4, 1)];
    let r = parse(DOC, "not a", &tokens).unwrap();
    match &r.inner {
        Expr::UnOp { op: UnOp::Neg, op_span, body } => {
            assert_eq!(*op_span, sp(0, 3));
            assert!(is_var(body, 4));
        }
        other => panic!("unexpected {:?}", other),
    }
}

#[test]
fn parses_calls_and_fields() {
    // "f(a, b).c"
    let tokens = vec![
        tok(Token::Ident, 0, 1),
        tok(Token::LParen, 1, 1),
        tok(Token::Ident, 2, 1),
        tok(Token::Comma, 3, 1),
        tok(Token::Ident, 5, 1),
        tok(Token::RParen, 6, 1),
        tok(Token::Dot, 7, 1),
        tok(Token::Ident, 8, 1),
    ];
    let r = parse(DOC, "f(a, b).c", &tokens).unwrap();
    match &r.inner {
        Expr::Field { field, inner } => {
            assert_eq!(*field, sp(8, 1));
            match &**inner {
                Expr::Call { open, close, function, args } => {
                    assert_eq!((*open, *close), (sp(1, 1), sp(6, 1)));
                    assert!(is_var(function, 0));
                    assert_eq!(args.len(), 2);
                    assert!(is_var(&args[0].inner, 2));
                    assert!(is_var(&args[1].inner, 5));
                }
                other => panic!("unexpected {:?}", other),
            }
        }
        other => panic!("unexpected {:?}", other),
    }
}

#[test]
fn call_without_arguments() {
    // "f()"
    let tokens = vec![
        tok(Token::Ident, 0, 1),
        tok(Token::LParen, 1, 1),
        tok(Token::RParen, 2, 1),
    ];
    let r = parse(DOC, "f()", &tokens).unwrap();
    assert!(matches!(&r.inner, Expr::Call { args, .. } if args.is_empty()));
}

#[test]
fn call_argument_without_separator_is_an_unclosed_paren() {
    // "f(a b)"
    let tokens = vec![
        tok(Token::Ident, 0, 1),
        tok(Token::LParen, 1, 1),
        tok(Token::Ident, 2, 1),
        tok(Token::Ident, 4, 1),
        tok(Token::RParen, 5, 1),
    ];
    let err = expect_err(parse(DOC, "f(a b)", &tokens));
    assert_eq!(err.message, "Expected ')'.");
    assert_eq!(err.span, sp(4, 1));
    assert_eq!(err.note, Some(("Unmatched '(' opened here.", sp(1, 1))));
}

#[test]
fn field_access_needs_an_identifier() {
    // "a.("
    let tokens = vec![tok(Token::Ident, 0, 1), tok(Token::Dot, 1, 1), tok(Token::LParen, 2, 1)];
    let err = expect_err(parse(DOC, "a.(", &tokens));
    assert_eq!(err.message, "Expected an identifier here.");
    assert_eq!(err.span, sp(2, 1));
}

#[test]
fn parses_key_value_association() {
    // "{"k": v}"
    let tokens = vec![
        tok(Token::LBrace, 0, 1),
        tok(Token::DoubleQuoted, 1, 3),
        tok(Token::Colon, 4, 1),
        tok(Token::Ident, 6, 1),
        tok(Token::RBrace, 7, 1),
    ];
    let r = parse(DOC, "{\"k\": v}", &tokens).unwrap();
    match &r.inner {
        Expr::BraceLit { elements, .. } => {
            assert_eq!(elements.len(), 1);
            match &elements[0].inner {
                SeqElem::AssocExpr { field, value } => {
                    assert!(matches!(&**field, Expr::StringLit(s) if *s == sp(1, 3)));
                    assert!(is_var(value, 6));
                }
                other => panic!("unexpected {:?}", other),
            }
        }
        other => panic!("unexpected {:?}", other),
    }
}

#[test]
fn parser_consumes_the_colon_of_an_association() {
    // ""k": v"
    let tokens = vec![
        tok(Token::DoubleQuoted, 0, 3),
        tok(Token::Colon, 3, 1),
        tok(Token::Ident, 5, 1),
    ];
    let mut parser = Parser::new(DOC, "\"k\": v", &tokens);
    let r = parser.parse_prefixed_seq().unwrap();
    assert!(matches!(&r.inner, SeqElem::AssocExpr { value, .. } if is_var(value, 5)));
    // Nothing is left: a following expression finds the end.
    match parser.parse_prefixed_expr() {
        Ok(v) => panic!("unexpected {:?}", v),
        Err(err) => assert_eq!(err.span, sp(6, 0)),
    }
}

#[test]
fn parses_for_comprehension() {
    // "[for x, y in xs: x]"
    let tokens = vec![
        tok(Token::LBracket, 0, 1),
        tok(Token::KwFor, 1, 3),
        tok(Token::Ident, 5, 1),
        tok(Token::Comma, 6, 1),
        tok(Token::Ident, 8, 1),
        tok(Token::KwIn, 10, 2),
        tok(Token::Ident, 13, 2),
        tok(Token::Colon, 15, 1),
        tok(Token::Ident, 17, 1),
        tok(Token::RBracket, 18, 1),
    ];
    let r = parse(DOC, "[for x, y in xs: x]", &tokens).unwrap();
    match &r.inner {
        Expr::BracketLit { elements, .. } => {
            assert_eq!(elements.len(), 1);
            match &elements[0].inner {
                SeqElem::For { idents, collection, body } => {
                    assert_eq!(*idents, vec![sp(5, 1), sp(8, 1)]);
                    assert!(matches!(&**collection, Expr::Var(s) if *s == sp(13, 2)));
                    assert!(matches!(&body.inner, SeqElem::Elem { value } if is_var(value, 17)));
                }
                other => panic!("unexpected {:?}", other),
            }
        }
        other => panic!("unexpected {:?}", other),
    }
}

#[test]
fn for_without_in_is_an_error() {
    // "[for x xs: x]"
    let tokens = vec![
        tok(Token::LBracket, 0, 1),
        tok(Token::KwFor, 1, 3),
        tok(Token::Ident, 5, 1),
        tok(Token::Ident, 7, 2),
        tok(Token::Colon, 9, 1),
        tok(Token::Ident, 11, 1),
        tok(Token::RBracket, 12, 1),
    ];
    let err = expect_err(parse(DOC, "[for x xs: x]", &tokens));
    assert_eq!(err.message, "Expected 'in' here.");
    assert_eq!(err.span, sp(7, 2));
}

#[test]
fn for_needs_identifiers() {
    // "[for in xs: x]"
    let tokens = vec![
        tok(Token::LBracket, 0, 1),
        tok(Token::KwFor, 1, 3),
        tok(Token::KwIn, 5, 2),
        tok(Token::Ident, 8, 2),
        tok(Token::Colon, 10, 1),
        tok(Token::Ident, 12, 1),
        tok(Token::RBracket, 13, 1),
    ];
    let err = expect_err(parse(DOC, "[for in xs: x]", &tokens));
    assert_eq!(err.message, "Expected identifier here.");
    assert_eq!(err.span, sp(5, 2));
}

#[test]
fn parses_if_comprehension() {
    // "[if c: x]"
    let tokens = vec![
        tok(Token::LBracket, 0, 1),
        tok(Token::KwIf, 1, 2),
        tok(Token::Ident, 4, 1),
        tok(Token::Colon, 5, 1),
        tok(Token::Ident, 7, 1),
        tok(Token::RBracket, 8, 1),
    ];
    let r = parse(DOC, "[if c: x]", &tokens).unwrap();
    match &r.inner {
        Expr::BracketLit { elements, .. } => match &elements[0].inner {
            SeqElem::If { condition, body } => {
                assert!(is_var(condition, 4));
                assert!(matches!(&body.inner, SeqElem::Elem { value } if is_var(value, 7)));
            }
            other => panic!("unexpected {:?}", other),
        },
        other => panic!("unexpected {:?}", other),
    }
}

#[test]
fn if_without_colon_is_an_error() {
    // "[if c x]"
    let tokens = vec![
        tok(Token::LBracket, 0, 1),
        tok(Token::KwIf, 1, 2),
        tok(Token::Ident, 4, 1),
        tok(Token::Ident, 6, 1),
        tok(Token::RBracket, 7, 1),
    ];
    let err = expect_err(parse(DOC, "[if c x]", &tokens));
    assert_eq!(err.message, "Expected ':' here.");
    assert_eq!(err.span, sp(6, 1));
}

#[test]
fn parser_parses_a_prefixed_sequence_element() {
    // "a = b"
    let tokens = vec![tok(Token::Ident, 0, 1), tok(Token::Eq, 2, 1), tok(Token::Ident, 4, 1)];
    let mut parser = Parser::new(DOC, "a = b", &tokens);
    let r = parser.parse_prefixed_seq().unwrap();
    assert!(r.prefix.is_empty());
    match &r.inner {
        SeqElem::AssocIdent { field, value } => {
            assert_eq!(*field, sp(0, 1));
            assert!(is_var(value, 4));
        }
        other => panic!("unexpected {:?}", other),
    }
}

#[test]
fn assignment_without_value_is_an_error() {
    // "a = ="
    let tokens = vec![tok(Token::Ident, 0, 1), tok(Token::Eq, 2, 1), tok(Token::Eq, 4, 1)];
    let mut parser = Parser::new(DOC, "a = =", &tokens);
    match parser.parse_prefixed_seq() {
        Ok(v) => panic!("unexpected {:?}", v),
        Err(err) => {
            assert_eq!(err.message, "Unexpected token, expected a term.");
            assert_eq!(err.span, sp(4, 1));
        }
    }
}

#[test]
fn parser_continues_after_an_expression() {
    // "a b": two expressions in a row.
    let tokens = vec![tok(Token::Ident, 0, 1), tok(Token::Ident, 2, 1)];
    let mut parser = Parser::new(DOC, "a b", &tokens);
    let first = parser.parse_prefixed_expr().unwrap();
    let second = parser.parse_prefixed_expr().unwrap();
    assert!(is_var(&first.inner, 0));
    assert!(is_var(&second.inner, 2));
}
