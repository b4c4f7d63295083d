use rcl::abstraction::{abstract_expr, Abstractor};
use rcl::ast::{Expr as AExpr, SeqElem as ASeq};
use rcl::cst::{Expr, SeqElem};
use rcl::error::Error;
use rcl::lexer::Token;
use rcl::parser::parse;
use rcl::source::{DocId, Span};

const DOC: DocId = DocId(1);

fn tok(t: Token, start: usize, len: usize) -> (Token, Span) {
    (t, Span { doc: DOC, start, len })
}

fn is_empty_map(e: &AExpr) -> bool {
    matches!(e, AExpr::MapLit(items) if items.is_empty())
}

#[test]
fn abstracts_let_and_brace_literals() {
    let input = "let x = {}; {k = {}; {}}";
    let tokens = vec![
        tok(Token::KwLet, 0, 3),
        tok(Token::Ident, 4, 1),
        tok(Token::Eq, 6, 1),
        tok(Token::LBrace, 8, 1),
        tok(Token::RBrace, 9, 1),
        tok(Token::Semicolon, 10, 1),
        tok(Token::LBrace, 12, 1),
        tok(Token::Ident, 13, 1),
        tok(Token::Eq, 15, 1),
        tok(Token::LBrace, 17, 1),
        tok(Token::RBrace, 18, 1),
        tok(Token::Semicolon, 19, 1),
        tok(Token::LBrace, 21, 1),
        tok(Token::RBrace, 22, 1),
        tok(Token::RBrace, 23, 1),
    ];
    let cst = parse(DOC, input, &tokens).unwrap();
    let ast = abstract_expr(input, &cst);
    match &ast {
        AExpr::Let(name, value, body) => {
            assert_eq!(name, "x");
            assert!(is_empty_map(value));
            match &**body {
                AExpr::MapLit(items) => {
                    assert_eq!(items.len(), 2);
                    // `k = {}` becomes `"k": {}`.
                    match &items[0] {
                        ASeq::Assoc(key, value) => {
                            assert!(matches!(&**key, AExpr::StringLit(k) if k == "k"));
                            assert!(is_empty_map(value));
                        }
                        other => panic!("unexpected {:?}", other),
                    }
                    assert!(matches!(&items[1], ASeq::Elem(v) if is_empty_map(v)));
                }
                other => panic!("unexpected {:?}", other),
            }
        }
        other => panic!("unexpected {:?}", other),
    }
}

#[test]
fn comments_do_not_reach_the_abstract_tree() {
    // "// c\n{}" abstracts like "{}".
    let input = "// c\n{}";
    let tokens = vec![
        tok(Token::LineComment, 0, 5),
        tok(Token::LBrace, 5, 1),
        tok(Token::RBrace, 6, 1),
    ];
    let cst = parse(DOC, input, &tokens).unwrap();
    assert_eq!(cst.prefix.len(), 1);
    assert!(is_empty_map(&abstract_expr(input, &cst)));
}

#[test]
fn identifiers_keep_multibyte_characters() {
    let input = "let é = {}; {}";
    let tokens = vec![
        tok(Token::KwLet, 0, 3),
        tok(Token::Ident, 4, 2),
        tok(Token::Eq, 7, 1),
        tok(Token::LBrace, 9, 1),
        tok(Token::RBrace, 10, 1),
        tok(Token::Semicolon, 11, 1),
        tok(Token::LBrace, 13, 1),
        tok(Token::RBrace, 14, 1),
    ];
    let cst = parse(DOC, input, &tokens).unwrap();
    match abstract_expr(input, &cst) {
        AExpr::Let(name, _, _) => assert_eq!(name, "é"),
        other => panic!("unexpected {:?}", other),
    }
}

#[test]
fn abstractor_converts_single_nodes() {
    let input = "{a = {}}";
    let abstractor = Abstractor::new(input);
    let key = Span { doc: DOC, start: 1, len: 1 };
    let value = Expr::BraceLit {
        open: Span { doc: DOC, start: 5, len: 1 },
        close: Span { doc: DOC, start: 6, len: 1 },
        elements: vec![],
    };
    let seq = SeqElem::AssocIdent { field: key, value: Box::new(value) };
    match abstractor.seq(&seq) {
        ASeq::Assoc(k, v) => {
            assert!(matches!(&*k, AExpr::StringLit(s) if s == "a"));
            assert!(is_empty_map(&v));
        }
        other => panic!("unexpected {:?}", other),
    }
}

#[test]
fn span_resolves_to_its_text() {
    let span = Span { doc: DOC, start: 4, len: 2 };
    assert_eq!(span.resolve("let é = {}"), "é");
}

#[test]
fn errors_carry_their_message() {
    let a = Error::new("boom");
    let b = Error::from("bang");
    assert!(format!("{:?}", a).contains("boom"));
    assert!(format!("{:?}", b).contains("bang"));
}
