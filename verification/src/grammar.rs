//! The grammar that the parser implements, stated over token sequences.
//!
//! Each parsing function of the parser has a spec function here of the same
//! name. It takes the parser's fixed environment (the tokens, the document and
//! the length of the input) and the parser's state (cursor, stack of open
//! brackets, comment anchor), and returns the outcome together with the state
//! afterwards. The parser's functions are proved to return exactly these
//! outcomes and to leave exactly these states.
//!
//! The outcome `Unhandled` marks inputs that the parser does not handle: an
//! `if` expression, and `let` inside a collection. `parse` requires that the
//! outcome is not `Unhandled`; `try_parse` tells these inputs apart.
//!
//! `Unhandled` also stands in branches that the parser never takes. Where
//! termination depends on it, the grammar checks that a nested parse did not
//! move back; the `*_moves` lemmas prove that these checks always pass. A
//! closing bracket is only ever expected while a bracket is open. And where a
//! separator is missing in a call or collection literal, the closing bracket
//! that is then expected cannot be accepted, because the token under the
//! cursor is not the one that closes the innermost bracket.

use crate::cst::{BinOp, ExprModel, NonCode, PrefixedModel, SeqElemModel, UnOp};
use crate::error::ParseError;
use crate::lexer::Token;
use crate::source::{DocId, Span};
use vstd::prelude::*;

verus! {

/// What stays fixed during parsing.
pub struct Env {
    /// The tokens with their spans.
    pub tokens: Seq<(Token, Span)>,
    /// The document that the tokens come from.
    pub doc: DocId,
    /// The length of the input in bytes.
    pub input_len: usize,
}

/// What changes during parsing.
pub struct PState {
    /// The index of the next token.
    pub cursor: nat,
    /// The opening brackets that have not been closed yet, innermost last.
    pub brackets: Seq<(Token, Span)>,
    /// The last place where a comment would have been allowed.
    pub anchor: Span,
}

/// The outcome of a parsing step.
pub enum Outcome<T> {
    /// The step succeeded with this value.
    Parsed(T),
    /// The step failed with this syntax error.
    Failed(ParseError),
    /// The parser does not handle this input.
    Unhandled,
}

/// The environment of a parse of `tokens` from the document `doc`, whose
/// input is `input_len` bytes long.
pub open spec fn env_of(doc: DocId, input_len: usize, tokens: Seq<(Token, Span)>) -> Env {
    Env { tokens, doc, input_len }
}

/// The state at the start of a parse: at the first token, no open brackets,
/// the comment anchor at the start of the document.
pub open spec fn start(doc: DocId) -> PState {
    PState { cursor: 0, brackets: Seq::empty(), anchor: Span { doc, start: 0, len: 0 } }
}

/// Carry a failure over to an outcome of another type.
pub open spec fn fail<A, B>(o: Outcome<A>) -> Outcome<B> {
    match o {
        Outcome::Failed(err) => Outcome::Failed(err),
        _ => Outcome::Unhandled,
    }
}

/// The number of tokens that are left to parse.
pub open spec fn remaining(e: Env, s: PState) -> nat {
    if s.cursor < e.tokens.len() {
        (e.tokens.len() - s.cursor) as nat
    } else {
        0
    }
}

/// The parse from `a` to `b` did not move back. The parser never moves back;
/// the grammar checks it where termination depends on it.
pub open spec fn no_retreat(e: Env, a: PState, b: PState) -> bool {
    remaining(e, b) <= remaining(e, a)
}

/// The parse from `a` to `b` consumed at least one token.
pub open spec fn progressed(e: Env, a: PState, b: PState) -> bool {
    remaining(e, b) < remaining(e, a)
}

/// The token at index `i`, if there is one.
pub open spec fn peek_at(e: Env, i: int) -> Option<Token> {
    if 0 <= i < e.tokens.len() {
        Some(e.tokens[i].0)
    } else {
        None
    }
}

/// The token under the cursor, if there is one.
pub open spec fn peek(e: Env, s: PState) -> Option<Token> {
    peek_at(e, s.cursor as int)
}

/// The span of the token under the cursor.
pub open spec fn span_here(e: Env, s: PState) -> Span {
    e.tokens[s.cursor as int].1
}

/// The span under the cursor, or the empty span at the end of the document.
pub open spec fn peek_span(e: Env, s: PState) -> Span {
    if s.cursor < e.tokens.len() {
        span_here(e, s)
    } else {
        Span { doc: e.doc, start: e.input_len, len: 0 }
    }
}

/// The state after consuming the token under the cursor.
pub open spec fn advance(s: PState) -> PState {
    PState { cursor: s.cursor + 1, brackets: s.brackets, anchor: s.anchor }
}

/// An error at the cursor.
pub open spec fn error_here(e: Env, s: PState, message: &'static str) -> ParseError {
    ParseError { span: peek_span(e, s), message, note: None }
}

/// An error at the cursor, with a note at `note_span`.
pub open spec fn error_noted(
    e: Env,
    s: PState,
    message: &'static str,
    note_span: Span,
    note: &'static str,
) -> ParseError {
    ParseError { span: peek_span(e, s), message, note: Some((note, note_span)) }
}

/// The unary operator that a token stands for.
pub open spec fn unop_of(t: Token) -> Option<UnOp> {
    match t {
        Token::KwNot => Some(UnOp::Neg),
        _ => None,
    }
}

/// The binary operator that a token stands for.
pub open spec fn binop_of(t: Token) -> Option<BinOp> {
    match t {
        Token::Pipe => Some(BinOp::Union),
        Token::Plus => Some(BinOp::Add),
        _ => None,
    }
}

/// Whether a token opens a bracket.
pub open spec fn is_opening(t: Token) -> bool {
    t == Token::LParen || t == Token::LBrace || t == Token::LBracket
}

/// The closing bracket that matches an opening bracket.
pub open spec fn closing_of(t: Token) -> Option<Token> {
    match t {
        Token::LParen => Some(Token::RParen),
        Token::LBrace => Some(Token::RBrace),
        Token::LBracket => Some(Token::RBracket),
        _ => None,
    }
}

/// Comments and blank lines under the cursor, and the state after them.
/// The state records where the code after them starts as the comment anchor.
pub open spec fn non_code(e: Env, s: PState) -> (Seq<NonCode>, PState)
    decreases remaining(e, s),
{
    match peek(e, s) {
        Some(Token::LineComment) => {
            let (rest, s2) = non_code(e, advance(s));
            (seq![NonCode::LineComment(span_here(e, s))] + rest, s2)
        },
        Some(Token::Blank) => {
            let (rest, s2) = non_code(e, advance(s));
            (seq![NonCode::Blank(span_here(e, s))] + rest, s2)
        },
        _ => {
            let here = peek_span(e, s);
            (
                Seq::empty(),
                PState {
                    cursor: s.cursor,
                    brackets: s.brackets,
                    anchor: Span { doc: here.doc, start: here.start, len: 0 },
                },
            )
        },
    }
}

/// Skip blank lines; a comment is an error here.
pub open spec fn skip(e: Env, s: PState) -> (Outcome<()>, PState)
    decreases remaining(e, s),
{
    match peek(e, s) {
        Some(Token::Blank) => skip(e, advance(s)),
        Some(Token::LineComment) => (
            Outcome::Failed(
                error_noted(
                    e,
                    s,
                    "A comment is not allowed here.",
                    s.anchor,
                    "Try inserting the comment before this instead.",
                ),
            ),
            s,
        ),
        _ => (Outcome::Parsed(()), s),
    }
}

/// Consume an identifier.
pub open spec fn ident(e: Env, s: PState) -> (Outcome<Span>, PState) {
    match peek(e, s) {
        Some(Token::Ident) => (Outcome::Parsed(span_here(e, s)), advance(s)),
        _ => (Outcome::Failed(error_here(e, s, "Expected an identifier here.")), s),
    }
}

/// Consume the token `expected`, or fail with `message`.
pub open spec fn token(e: Env, s: PState, expected: Token, message: &'static str) -> (
    Outcome<Span>,
    PState,
) {
    if peek(e, s) == Some(expected) {
        (Outcome::Parsed(span_here(e, s)), advance(s))
    } else {
        (Outcome::Failed(error_here(e, s, message)), s)
    }
}

/// Consume the token `expected`, or fail with `message` and a note.
pub open spec fn token_noted(
    e: Env,
    s: PState,
    expected: Token,
    message: &'static str,
    note_span: Span,
    note: &'static str,
) -> (Outcome<Span>, PState) {
    if peek(e, s) == Some(expected) {
        (Outcome::Parsed(span_here(e, s)), advance(s))
    } else {
        (Outcome::Failed(error_noted(e, s, message, note_span, note)), s)
    }
}

/// Consume the opening bracket under the cursor and push it on the stack.
pub open spec fn push(e: Env, s: PState) -> (Span, PState) {
    (
        span_here(e, s),
        PState {
            cursor: s.cursor + 1,
            brackets: s.brackets.push(e.tokens[s.cursor as int]),
            anchor: s.anchor,
        },
    )
}

/// Consume the closing bracket under the cursor, which must match the
/// innermost open bracket; the innermost bracket leaves the stack.
pub open spec fn pop_bracket(e: Env, s: PState) -> (Outcome<Span>, PState) {
    let actual = peek(e, s);
    if s.brackets.len() == 0 {
        match actual {
            Some(Token::RParen) => (Outcome::Failed(error_here(e, s, "Found unmatched ')'.")), s),
            Some(Token::RBrace) => (Outcome::Failed(error_here(e, s, "Found unmatched '}'.")), s),
            Some(Token::RBracket) => (Outcome::Failed(error_here(e, s, "Found unmatched ']'.")), s),
            _ => (Outcome::Unhandled, s),
        }
    } else {
        let top = s.brackets.last();
        let s1 = PState { cursor: s.cursor, brackets: s.brackets.drop_last(), anchor: s.anchor };
        match top.0 {
            Token::LParen => if actual == Some(Token::RParen) {
                (Outcome::Parsed(span_here(e, s)), advance(s1))
            } else {
                (
                    Outcome::Failed(
                        error_noted(e, s1, "Expected ')'.", top.1, "Unmatched '(' opened here."),
                    ),
                    s1,
                )
            },
            Token::LBrace => if actual == Some(Token::RBrace) {
                (Outcome::Parsed(span_here(e, s)), advance(s1))
            } else {
                (
                    Outcome::Failed(
                        error_noted(e, s1, "Expected '}'.", top.1, "Unmatched '{' opened here."),
                    ),
                    s1,
                )
            },
            Token::LBracket => if actual == Some(Token::RBracket) {
                (Outcome::Parsed(span_here(e, s)), advance(s1))
            } else {
                (
                    Outcome::Failed(
                        error_noted(e, s1, "Expected ']'.", top.1, "Unmatched '[' opened here."),
                    ),
                    s1,
                )
            },
            _ => (Outcome::Unhandled, s1),
        }
    }
}

/// The loop variables of a `for`, separated by commas.
pub open spec fn for_idents(e: Env, s: PState, acc: Seq<Span>) -> (Outcome<Seq<Span>>, PState)
    decreases remaining(e, s),
{
    let (r0, s1) = skip(e, s);
    match r0 {
        Outcome::Parsed(_) => {
            let (r1, s2) = token(e, s1, Token::Ident, "Expected identifier here.");
            match r1 {
                Outcome::Parsed(id) => {
                    let acc2 = acc.push(id);
                    let (r2, s3) = skip(e, s2);
                    match r2 {
                        Outcome::Parsed(_) => if peek(e, s3) == Some(Token::Comma) {
                            proof {
                                lemma_skip(e, s);
                                lemma_skip(e, s2);
                            }
                            for_idents(e, advance(s3), acc2)
                        } else {
                            (Outcome::Parsed(acc2), s3)
                        },
                        _ => (fail(r2), s3),
                    }
                },
                _ => (fail(r1), s2),
            }
        },
        _ => (fail(r0), s1),
    }
}


/// An expression preceded by non-code.
pub open spec fn prefixed_expr(e: Env, s: PState) -> (Outcome<PrefixedModel<ExprModel>>, PState)
    decreases remaining(e, s), 4nat,
{
    let (prefix, s1) = non_code(e, s);
    proof {
        lemma_non_code(e, s);
    }
    let (r, s2) = expr(e, s1);
    match r {
        Outcome::Parsed(inner) => (Outcome::Parsed(PrefixedModel { prefix, inner }), s2),
        _ => (fail(r), s2),
    }
}

/// A whole document: an expression, then only non-code up to the end of
/// the tokens.
pub open spec fn document(e: Env, s: PState) -> (Outcome<PrefixedModel<ExprModel>>, PState) {
    let (r, s1) = prefixed_expr(e, s);
    match r {
        Outcome::Parsed(p) => {
            let s2 = non_code(e, s1).1;
            if peek(e, s2) is Some {
                (
                    Outcome::Failed(
                        error_here(e, s2, "Unexpected content after the main expression."),
                    ),
                    s2,
                )
            } else {
                (Outcome::Parsed(p), s2)
            }
        },
        _ => (r, s1),
    }
}

/// An expression: a `let`, or an operator expression.
pub open spec fn expr(e: Env, s: PState) -> (Outcome<ExprModel>, PState)
    decreases remaining(e, s), 3nat,
{
    match peek(e, s) {
        Some(Token::KwLet) => expr_let(e, s),
        Some(Token::KwIf) => (Outcome::Unhandled, s),
        _ => expr_op(e, s),
    }
}

/// `let ident = value; body`, with the cursor on `let`.
pub open spec fn expr_let(e: Env, s: PState) -> (Outcome<ExprModel>, PState)
    decreases remaining(e, s), 0nat,
{
    if s.cursor >= e.tokens.len() {
        (Outcome::Unhandled, s)
    } else {
        let let_span = span_here(e, s);
        let s1 = advance(s);
        let (r1, s2) = skip(e, s1);
        proof {
            lemma_skip(e, s1);
        }
        match r1 {
            Outcome::Parsed(_) => {
                let (r2, s3) = ident(e, s2);
                match r2 {
                    Outcome::Parsed(name) => {
                        let (r3, s4) = skip(e, s3);
                        proof {
                            lemma_skip(e, s3);
                        }
                        match r3 {
                            Outcome::Parsed(_) => {
                                let (r4, s5) = token(e, s4, Token::Eq, "Expected '=' here.");
                                match r4 {
                                    Outcome::Parsed(_) => {
                                        let (r5, s6) = skip(e, s5);
                                        proof {
                                            lemma_skip(e, s5);
                                        }
                                        match r5 {
                                            Outcome::Parsed(_) => expr_let_body(e, s6, let_span, name),
                                            _ => (fail(r5), s6),
                                        }
                                    },
                                    _ => (fail(r4), s5),
                                }
                            },
                            _ => (fail(r3), s4),
                        }
                    },
                    _ => (fail(r2), s3),
                }
            },
            _ => (fail(r1), s2),
        }
    }
}

/// The rest of a `let` expression, from the bound value on.
pub open spec fn expr_let_body(e: Env, s: PState, let_span: Span, name: Span) -> (
    Outcome<ExprModel>,
    PState,
)
    decreases remaining(e, s), 5nat,
{
    let (r, s1) = expr(e, s);
    match r {
        Outcome::Parsed(value) => if !no_retreat(e, s, s1) {
            (Outcome::Unhandled, s1)
        } else {
            let (r1, s2) = skip(e, s1);
            proof {
                lemma_skip(e, s1);
            }
            match r1 {
                Outcome::Parsed(_) => {
                    let (r2, s3) = token_noted(
                        e,
                        s2,
                        Token::Semicolon,
                        "Expected ';' here to close the let-binding.",
                        let_span,
                        "Let-binding opened here.",
                    );
                    match r2 {
                        Outcome::Parsed(_) => {
                            let (r3, s4) = prefixed_expr(e, s3);
                            match r3 {
                                Outcome::Parsed(body) => (
                                    Outcome::Parsed(
                                        ExprModel::Let {
                                            ident: name,
                                            value: Box::new(value),
                                            body: Box::new(body),
                                        },
                                    ),
                                    s4,
                                ),
                                _ => (fail(r3), s4),
                            }
                        },
                        _ => (fail(r2), s3),
                    }
                },
                _ => (fail(r1), s2),
            }
        },
        _ => (fail(r), s1),
    }
}


/// An operator expression: a unary operator applied to a term, or terms
/// joined by binary operators that are all the same.
pub open spec fn expr_op(e: Env, s: PState) -> (Outcome<ExprModel>, PState)
    decreases remaining(e, s), 2nat,
{
    let unop = match peek(e, s) {
        Some(t) => unop_of(t),
        None => None,
    };
    match unop {
        Some(op) => {
            let op_span = span_here(e, s);
            let s1 = advance(s);
            let (r1, s2) = skip(e, s1);
            proof {
                lemma_skip(e, s1);
            }
            match r1 {
                Outcome::Parsed(_) => {
                    let (r2, s3) = notop(e, s2);
                    match r2 {
                        Outcome::Parsed(body) => (
                            Outcome::Parsed(ExprModel::UnOp { op, op_span, body: Box::new(body) }),
                            s3,
                        ),
                        _ => (fail(r2), s3),
                    }
                },
                _ => (fail(r1), s2),
            }
        },
        None => {
            let (r, s1) = notop(e, s);
            match r {
                Outcome::Parsed(lhs) => if !no_retreat(e, s, s1) {
                    (Outcome::Unhandled, s1)
                } else {
                    op_loop(e, s1, lhs, None, None)
                },
                _ => (fail(r), s1),
            }
        },
    }
}

/// Binary operators after `lhs`. Once an operator was used (`allowed`, at
/// `allowed_span`), only that operator may follow.
pub open spec fn op_loop(
    e: Env,
    s: PState,
    lhs: ExprModel,
    allowed: Option<BinOp>,
    allowed_span: Option<Span>,
) -> (Outcome<ExprModel>, PState)
    decreases remaining(e, s), 0nat,
{
    let (r0, s1) = skip(e, s);
    proof {
        lemma_skip(e, s);
    }
    match r0 {
        Outcome::Parsed(_) => {
            let binop = match peek(e, s1) {
                Some(t) => binop_of(t),
                None => None,
            };
            match binop {
                Some(op) => if allowed.is_none() || allowed == Some(op) {
                    let op_span = span_here(e, s1);
                    let s2 = advance(s1);
                    let (r1, s3) = skip(e, s2);
                    proof {
                        lemma_skip(e, s2);
                    }
                    match r1 {
                        Outcome::Parsed(_) => {
                            let (r2, s4) = notop(e, s3);
                            match r2 {
                                Outcome::Parsed(rhs) => if !no_retreat(e, s3, s4) {
                                    (Outcome::Unhandled, s4)
                                } else {
                                    op_loop(
                                        e,
                                        s4,
                                        ExprModel::BinOp {
                                            op,
                                            op_span,
                                            lhs: Box::new(lhs),
                                            rhs: Box::new(rhs),
                                        },
                                        Some(op),
                                        Some(op_span),
                                    )
                                },
                                _ => (fail(r2), s4),
                            }
                        },
                        _ => (fail(r1), s3),
                    }
                } else {
                    match allowed_span {
                        Some(first) => (
                            Outcome::Failed(
                                error_noted(
                                    e,
                                    s1,
                                    "Operator with ambiguous precedence is not allowed here. Add parentheses to clarify.",
                                    first,
                                    "Without parenthesis, it is not clear whether this operator would take precedence.",
                                ),
                            ),
                            s1,
                        ),
                        None => (Outcome::Unhandled, s1),
                    }
                },
                None => (Outcome::Parsed(lhs), s1),
            }
        },
        _ => (fail(r0), s1),
    }
}

/// A term followed by calls and field accesses.
pub open spec fn notop(e: Env, s: PState) -> (Outcome<ExprModel>, PState)
    decreases remaining(e, s), 1nat,
{
    let (r, s1) = term(e, s);
    match r {
        Outcome::Parsed(t) => if !no_retreat(e, s, s1) {
            (Outcome::Unhandled, s1)
        } else {
            notop_loop(e, s1, t)
        },
        _ => (fail(r), s1),
    }
}

/// Calls and field accesses after `lhs`.
pub open spec fn notop_loop(e: Env, s: PState, lhs: ExprModel) -> (Outcome<ExprModel>, PState)
    decreases remaining(e, s), 0nat,
{
    let (r0, s1) = skip(e, s);
    proof {
        lemma_skip(e, s);
    }
    match r0 {
        Outcome::Parsed(_) => match peek(e, s1) {
            Some(Token::LParen) => {
                let (open, s2) = push(e, s1);
                let (r1, s3) = call_args(e, s2, Seq::empty());
                match r1 {
                    Outcome::Parsed(args) => if !no_retreat(e, s2, s3) {
                        (Outcome::Unhandled, s3)
                    } else {
                        let (r2, s4) = pop_bracket(e, s3);
                        match r2 {
                            Outcome::Parsed(close) => notop_loop(
                                e,
                                s4,
                                ExprModel::Call { open, close, function: Box::new(lhs), args },
                            ),
                            _ => (fail(r2), s4),
                        }
                    },
                    _ => (fail(r1), s3),
                }
            },
            Some(Token::Dot) => {
                let s2 = advance(s1);
                let (r1, s3) = skip(e, s2);
                proof {
                    lemma_skip(e, s2);
                }
                match r1 {
                    Outcome::Parsed(_) => {
                        let (r2, s4) = token(e, s3, Token::Ident, "Expected an identifier here.");
                        match r2 {
                            Outcome::Parsed(field) => notop_loop(
                                e,
                                s4,
                                ExprModel::Field { field, inner: Box::new(lhs) },
                            ),
                            _ => (fail(r2), s4),
                        }
                    },
                    _ => (fail(r1), s3),
                }
            },
            _ => (Outcome::Parsed(lhs), s1),
        },
        _ => (fail(r0), s1),
    }
}

/// A term: a collection literal, an expression in parentheses, a string
/// literal or a variable.
pub open spec fn term(e: Env, s: PState) -> (Outcome<ExprModel>, PState)
    decreases remaining(e, s), 0nat,
{
    match peek(e, s) {
        Some(Token::LBrace) => {
            let (open, s1) = push(e, s);
            let (r1, s2) = seqs(e, s1, Seq::empty());
            match r1 {
                Outcome::Parsed(elements) => {
                    let (r2, s3) = pop_bracket(e, s2);
                    match r2 {
                        Outcome::Parsed(close) => (
                            Outcome::Parsed(ExprModel::BraceLit { open, close, elements }),
                            s3,
                        ),
                        _ => (fail(r2), s3),
                    }
                },
                _ => (fail(r1), s2),
            }
        },
        Some(Token::LBracket) => {
            let (open, s1) = push(e, s);
            let (r1, s2) = seqs(e, s1, Seq::empty());
            match r1 {
                Outcome::Parsed(elements) => {
                    let (r2, s3) = pop_bracket(e, s2);
                    match r2 {
                        Outcome::Parsed(close) => (
                            Outcome::Parsed(ExprModel::BracketLit { open, close, elements }),
                            s3,
                        ),
                        _ => (fail(r2), s3),
                    }
                },
                _ => (fail(r1), s2),
            }
        },
        Some(Token::LParen) => {
            let (open, s1) = push(e, s);
            let (r1, s2) = expr(e, s1);
            match r1 {
                Outcome::Parsed(body) => {
                    let (r2, s3) = pop_bracket(e, s2);
                    match r2 {
                        Outcome::Parsed(close) => (
                            Outcome::Parsed(ExprModel::Parens { open, close, body: Box::new(body) }),
                            s3,
                        ),
                        _ => (fail(r2), s3),
                    }
                },
                _ => (fail(r1), s2),
            }
        },
        Some(Token::DoubleQuoted) => (Outcome::Parsed(ExprModel::StringLit(span_here(e, s))), advance(s)),
        Some(Token::Ident) => (Outcome::Parsed(ExprModel::Var(span_here(e, s))), advance(s)),
        _ => (Outcome::Failed(error_here(e, s, "Unexpected token, expected a term.")), s),
    }
}

/// The arguments of a call after `acc`, up to the closing parenthesis.
pub open spec fn call_args(e: Env, s: PState, acc: Seq<PrefixedModel<ExprModel>>) -> (
    Outcome<Seq<PrefixedModel<ExprModel>>>,
    PState,
)
    decreases remaining(e, s), 4nat,
{
    let (prefix, s1) = non_code(e, s);
    proof {
        lemma_non_code(e, s);
    }
    if peek(e, s1) == Some(Token::RParen) {
        (Outcome::Parsed(acc), s1)
    } else {
        let (r, s2) = expr(e, s1);
        match r {
            Outcome::Parsed(inner) => if !progressed(e, s1, s2) {
                (Outcome::Unhandled, s2)
            } else {
                let acc2 = acc.push(PrefixedModel { prefix, inner });
                let (r1, s3) = skip(e, s2);
                proof {
                    lemma_skip(e, s2);
                }
                match r1 {
                    Outcome::Parsed(_) => match peek(e, s3) {
                        Some(Token::RParen) => call_args(e, s3, acc2),
                        Some(Token::Comma) => call_args(e, advance(s3), acc2),
                        _ => {
                            let (r2, s4) = pop_bracket(e, s3);
                            match r2 {
                                Outcome::Parsed(_) => (Outcome::Unhandled, s4),
                                _ => (fail(r2), s4),
                            }
                        },
                    },
                    _ => (fail(r1), s3),
                }
            },
            _ => (fail(r), s2),
        }
    }
}

/// The separator that must follow a sequence element.
pub open spec fn terminator(item: SeqElemModel) -> Token {
    match item {
        SeqElemModel::AssocIdent { .. } => Token::Semicolon,
        _ => Token::Comma,
    }
}

/// Whether a token closes a collection literal.
pub open spec fn closes_collection(t: Option<Token>) -> bool {
    t == Some(Token::RBrace) || t == Some(Token::RBracket)
}

/// The elements of a collection literal after `acc`, up to the closing
/// bracket.
pub open spec fn seqs(e: Env, s: PState, acc: Seq<PrefixedModel<SeqElemModel>>) -> (
    Outcome<Seq<PrefixedModel<SeqElemModel>>>,
    PState,
)
    decreases remaining(e, s), 5nat,
{
    let (prefix, s1) = non_code(e, s);
    proof {
        lemma_non_code(e, s);
    }
    if closes_collection(peek(e, s1)) {
        (Outcome::Parsed(acc), s1)
    } else {
        let (r, s2) = seq(e, s1);
        match r {
            Outcome::Parsed(item) => if !progressed(e, s1, s2) {
                (Outcome::Unhandled, s2)
            } else {
                let expected = terminator(item);
                let acc2 = acc.push(PrefixedModel { prefix, inner: item });
                let (r1, s3) = skip(e, s2);
                proof {
                    lemma_skip(e, s2);
                }
                match r1 {
                    Outcome::Parsed(_) => {
                        let next = peek(e, s3);
                        if closes_collection(next) {
                            seqs(e, s3, acc2)
                        } else if next == Some(expected) {
                            seqs(e, advance(s3), acc2)
                        } else if next == Some(Token::Semicolon) && expected == Token::Comma {
                            (Outcome::Failed(error_here(e, s3, "Expected a ',' rather than a ';' here.")), s3)
                        } else if next == Some(Token::Comma) && expected == Token::Semicolon {
                            (Outcome::Failed(error_here(e, s3, "Expected a ';' rather than a ',' here.")), s3)
                        } else {
                            let (r2, s4) = pop_bracket(e, s3);
                            match r2 {
                                Outcome::Parsed(_) => (Outcome::Unhandled, s4),
                                _ => (fail(r2), s4),
                            }
                        }
                    },
                    _ => (fail(r1), s3),
                }
            },
            _ => (fail(r), s2),
        }
    }
}

/// A sequence element preceded by non-code.
pub open spec fn prefixed_seq(e: Env, s: PState) -> (Outcome<PrefixedModel<SeqElemModel>>, PState)
    decreases remaining(e, s), 5nat,
{
    let (prefix, s1) = non_code(e, s);
    proof {
        lemma_non_code(e, s);
    }
    let (r, s2) = seq(e, s1);
    match r {
        Outcome::Parsed(inner) => (Outcome::Parsed(PrefixedModel { prefix, inner }), s2),
        _ => (fail(r), s2),
    }
}

/// A sequence element: `ident = value`, a `for` or `if` comprehension,
/// `field: value`, or a single expression.
pub open spec fn seq(e: Env, s: PState) -> (Outcome<SeqElemModel>, PState)
    decreases remaining(e, s), 4nat,
{
    let next1 = peek(e, s);
    let next2 = peek_at(e, s.cursor + 1int);
    if next1 == Some(Token::Ident) && next2 == Some(Token::Eq) {
        assoc_ident(e, s)
    } else if next1 == Some(Token::KwLet) {
        (Outcome::Unhandled, s)
    } else if next1 == Some(Token::KwFor) {
        seq_for(e, s)
    } else if next1 == Some(Token::KwIf) {
        seq_if(e, s)
    } else {
        let (r, s1) = expr_op(e, s);
        match r {
            Outcome::Parsed(field) => if !no_retreat(e, s, s1) {
                (Outcome::Unhandled, s1)
            } else {
                let (r1, s2) = skip(e, s1);
                proof {
                    lemma_skip(e, s1);
                }
                match r1 {
                    Outcome::Parsed(_) => if peek(e, s2) == Some(Token::Colon) {
                        let (r2, s3) = skip(e, advance(s2));
                        proof {
                            lemma_skip(e, advance(s2));
                        }
                        match r2 {
                            Outcome::Parsed(_) => {
                                let (r3, s4) = expr(e, s3);
                                match r3 {
                                    Outcome::Parsed(value) => (
                                        Outcome::Parsed(
                                            SeqElemModel::AssocExpr {
                                                field: Box::new(field),
                                                value: Box::new(value),
                                            },
                                        ),
                                        s4,
                                    ),
                                    _ => (fail(r3), s4),
                                }
                            },
                            _ => (fail(r2), s3),
                        }
                    } else {
                        (Outcome::Parsed(SeqElemModel::Elem { value: Box::new(field) }), s2)
                    },
                    _ => (fail(r1), s2),
                }
            },
            _ => (fail(r), s1),
        }
    }
}

/// `field = value`, with the cursor on the identifier.
pub open spec fn assoc_ident(e: Env, s: PState) -> (Outcome<SeqElemModel>, PState)
    decreases remaining(e, s), 0nat,
{
    if s.cursor >= e.tokens.len() {
        (Outcome::Unhandled, s)
    } else {
        let field = span_here(e, s);
        let s1 = advance(s);
        let (r1, s2) = skip(e, s1);
        proof {
            lemma_skip(e, s1);
        }
        match r1 {
            Outcome::Parsed(_) => {
                let (r2, s3) = token(e, s2, Token::Eq, "Expected '=' here.");
                match r2 {
                    Outcome::Parsed(_) => {
                        let (r3, s4) = skip(e, s3);
                        proof {
                            lemma_skip(e, s3);
                        }
                        match r3 {
                            Outcome::Parsed(_) => {
                                let (r4, s5) = expr(e, s4);
                                match r4 {
                                    Outcome::Parsed(value) => (
                                        Outcome::Parsed(
                                            SeqElemModel::AssocIdent { field, value: Box::new(value) },
                                        ),
                                        s5,
                                    ),
                                    _ => (fail(r4), s5),
                                }
                            },
                            _ => (fail(r3), s4),
                        }
                    },
                    _ => (fail(r2), s3),
                }
            },
            _ => (fail(r1), s2),
        }
    }
}

/// `for idents in collection: body`, with the cursor on `for`.
pub open spec fn seq_for(e: Env, s: PState) -> (Outcome<SeqElemModel>, PState)
    decreases remaining(e, s), 0nat,
{
    if s.cursor >= e.tokens.len() {
        (Outcome::Unhandled, s)
    } else {
        let s1 = advance(s);
        let (r1, s2) = for_idents(e, s1, Seq::empty());
        proof {
            lemma_for_idents(e, s1, Seq::empty());
        }
        match r1 {
            Outcome::Parsed(idents) => {
                let (r2, s3) = skip(e, s2);
                proof {
                    lemma_skip(e, s2);
                }
                match r2 {
                    Outcome::Parsed(_) => {
                        let (r3, s4) = token(e, s3, Token::KwIn, "Expected 'in' here.");
                        match r3 {
                            Outcome::Parsed(_) => {
                                let (r4, s5) = skip(e, s4);
                                proof {
                                    lemma_skip(e, s4);
                                }
                                match r4 {
                                    Outcome::Parsed(_) => {
                                        let (r5, s6) = expr(e, s5);
                                        match r5 {
                                            Outcome::Parsed(collection) => if !no_retreat(e, s5, s6) {
                                                (Outcome::Unhandled, s6)
                                            } else {
                                                let (r6, body) = comprehension_body(e, s6);
                                                match r6 {
                                                    Outcome::Parsed(b) => (
                                                        Outcome::Parsed(
                                                            SeqElemModel::For {
                                                                idents,
                                                                collection: Box::new(collection),
                                                                body: Box::new(b),
                                                            },
                                                        ),
                                                        body,
                                                    ),
                                                    _ => (fail(r6), body),
                                                }
                                            },
                                            _ => (fail(r5), s6),
                                        }
                                    },
                                    _ => (fail(r4), s5),
                                }
                            },
                            _ => (fail(r3), s4),
                        }
                    },
                    _ => (fail(r2), s3),
                }
            },
            _ => (fail(r1), s2),
        }
    }
}

/// `if condition: body`, with the cursor on `if`.
pub open spec fn seq_if(e: Env, s: PState) -> (Outcome<SeqElemModel>, PState)
    decreases remaining(e, s), 0nat,
{
    if s.cursor >= e.tokens.len() {
        (Outcome::Unhandled, s)
    } else {
        let s1 = advance(s);
        let (r1, s2) = skip(e, s1);
        proof {
            lemma_skip(e, s1);
        }
        match r1 {
            Outcome::Parsed(_) => {
                let (r2, s3) = expr(e, s2);
                match r2 {
                    Outcome::Parsed(condition) => if !no_retreat(e, s2, s3) {
                        (Outcome::Unhandled, s3)
                    } else {
                        let (r3, s4) = comprehension_body(e, s3);
                        match r3 {
                            Outcome::Parsed(b) => (
                                Outcome::Parsed(
                                    SeqElemModel::If { condition: Box::new(condition), body: Box::new(b) },
                                ),
                                s4,
                            ),
                            _ => (fail(r3), s4),
                        }
                    },
                    _ => (fail(r2), s3),
                }
            },
            _ => (fail(r1), s2),
        }
    }
}

/// `: body` after the head of a comprehension.
pub open spec fn comprehension_body(e: Env, s: PState) -> (Outcome<PrefixedModel<SeqElemModel>>, PState)
    decreases remaining(e, s), 6nat,
{
    let (r1, s1) = skip(e, s);
    proof {
        lemma_skip(e, s);
    }
    match r1 {
        Outcome::Parsed(_) => {
            let (r2, s2) = token(e, s1, Token::Colon, "Expected ':' here.");
            match r2 {
                Outcome::Parsed(_) => prefixed_seq(e, s2),
                _ => (fail(r2), s2),
            }
        },
        _ => (fail(r1), s1),
    }
}

/// A closing bracket is accepted exactly when it matches the innermost open
/// bracket; then it is consumed and that bracket is closed.
pub proof fn lemma_pop_bracket_matches(e: Env, s: PState)
    requires
        forall|i: int| 0 <= i < s.brackets.len() ==> is_opening(#[trigger] s.brackets[i].0),
    ensures
        pop_bracket(e, s).0 is Parsed <==> {
            &&& s.cursor < e.tokens.len()
            &&& s.brackets.len() > 0
            &&& closing_of(s.brackets.last().0) == Some(e.tokens[s.cursor as int].0)
        },
        pop_bracket(e, s).0 is Parsed ==> pop_bracket(e, s).1 == (PState {
            cursor: s.cursor + 1,
            brackets: s.brackets.drop_last(),
            anchor: s.anchor,
        }),
{
}

/// `non_code` keeps the brackets and does not move back.
pub proof fn lemma_non_code(e: Env, s: PState)
    ensures
        no_retreat(e, s, non_code(e, s).1),
        non_code(e, s).1.cursor >= s.cursor,
        non_code(e, s).1.brackets == s.brackets,
    decreases remaining(e, s),
{
    match peek(e, s) {
        Some(Token::LineComment) => lemma_non_code(e, advance(s)),
        Some(Token::Blank) => lemma_non_code(e, advance(s)),
        _ => {},
    }
}

/// `for_idents` keeps the brackets and does not move back.
pub proof fn lemma_for_idents(e: Env, s: PState, acc: Seq<Span>)
    ensures
        no_retreat(e, s, for_idents(e, s, acc).1),
        for_idents(e, s, acc).1.cursor >= s.cursor,
        for_idents(e, s, acc).1.brackets == s.brackets,
    decreases remaining(e, s),
{
    let (r0, s1) = skip(e, s);
    lemma_skip(e, s);
    if r0 is Parsed {
        let (r1, s2) = token(e, s1, Token::Ident, "Expected identifier here.");
        if r1 is Parsed {
            let (r2, s3) = skip(e, s2);
            lemma_skip(e, s2);
            if r2 is Parsed && peek(e, s3) == Some(Token::Comma) {
                lemma_for_idents(e, advance(s3), acc.push(r1->Parsed_0));
            }
        }
    }
}

/// `skip` keeps the brackets and the anchor and does not move back.
pub proof fn lemma_skip(e: Env, s: PState)
    ensures
        no_retreat(e, s, skip(e, s).1),
        skip(e, s).1.cursor >= s.cursor,
        skip(e, s).1.brackets == s.brackets,
        skip(e, s).1.anchor == s.anchor,
    decreases remaining(e, s),
{
    match peek(e, s) {
        Some(Token::Blank) => lemma_skip(e, advance(s)),
        _ => {},
    }
}

/// A prefixed expression never moves back, and consumes a token when it
/// succeeds.
pub proof fn lemma_prefixed_expr_moves(e: Env, s: PState)
    ensures
        no_retreat(e, s, prefixed_expr(e, s).1),
        prefixed_expr(e, s).0 is Parsed ==> progressed(e, s, prefixed_expr(e, s).1),
    decreases remaining(e, s), 4nat,
{
    lemma_non_code(e, s);
    lemma_expr_moves(e, non_code(e, s).1);
}

/// An expression never moves back, and consumes a token when it succeeds.
pub proof fn lemma_expr_moves(e: Env, s: PState)
    ensures
        no_retreat(e, s, expr(e, s).1),
        expr(e, s).0 is Parsed ==> progressed(e, s, expr(e, s).1),
    decreases remaining(e, s), 3nat,
{
    match peek(e, s) {
        Some(Token::KwLet) => lemma_expr_let_moves(e, s),
        Some(Token::KwIf) => {},
        _ => lemma_expr_op_moves(e, s),
    }
}

/// A `let` expression never moves back, and consumes a token when it
/// succeeds.
pub proof fn lemma_expr_let_moves(e: Env, s: PState)
    ensures
        no_retreat(e, s, expr_let(e, s).1),
        expr_let(e, s).0 is Parsed ==> progressed(e, s, expr_let(e, s).1),
    decreases remaining(e, s), 0nat,
{
    if s.cursor < e.tokens.len() {
        let s1 = advance(s);
        lemma_skip(e, s1);
        let s2 = skip(e, s1).1;
        let s3 = ident(e, s2).1;
        lemma_skip(e, s3);
        let s4 = skip(e, s3).1;
        let s5 = token(e, s4, Token::Eq, "Expected '=' here.").1;
        lemma_skip(e, s5);
        let s6 = skip(e, s5).1;
        if let Outcome::Parsed(name) = ident(e, s2).0 {
            lemma_expr_let_body_moves(e, s6, span_here(e, s), name);
        }
    }
}

/// The rest of a `let` expression never moves back, and consumes a token
/// when it succeeds.
pub proof fn lemma_expr_let_body_moves(e: Env, s: PState, let_span: Span, name: Span)
    ensures
        no_retreat(e, s, expr_let_body(e, s, let_span, name).1),
        expr_let_body(e, s, let_span, name).0 is Parsed ==> progressed(
            e,
            s,
            expr_let_body(e, s, let_span, name).1,
        ),
    decreases remaining(e, s), 5nat,
{
    lemma_expr_moves(e, s);
    let s1 = expr(e, s).1;
    if no_retreat(e, s, s1) {
        lemma_skip(e, s1);
        let s2 = skip(e, s1).1;
        let s3 = token_noted(
            e,
            s2,
            Token::Semicolon,
            "Expected ';' here to close the let-binding.",
            let_span,
            "Let-binding opened here.",
        ).1;
        lemma_prefixed_expr_moves(e, s3);
    }
}

/// An operator expression never moves back, and consumes a token when it
/// succeeds.
pub proof fn lemma_expr_op_moves(e: Env, s: PState)
    ensures
        no_retreat(e, s, expr_op(e, s).1),
        expr_op(e, s).0 is Parsed ==> progressed(e, s, expr_op(e, s).1),
    decreases remaining(e, s), 2nat,
{
    let unop = match peek(e, s) {
        Some(t) => unop_of(t),
        None => None,
    };
    if unop is Some {
        let s1 = advance(s);
        lemma_skip(e, s1);
        lemma_notop_moves(e, skip(e, s1).1);
    } else {
        lemma_notop_moves(e, s);
        let s1 = notop(e, s).1;
        if no_retreat(e, s, s1) {
            if let Outcome::Parsed(lhs) = notop(e, s).0 {
                lemma_op_loop_moves(e, s1, lhs, None, None);
            }
        }
    }
}

/// Binary operators never move back.
pub proof fn lemma_op_loop_moves(
    e: Env,
    s: PState,
    lhs: ExprModel,
    allowed: Option<BinOp>,
    allowed_span: Option<Span>,
)
    ensures
        no_retreat(e, s, op_loop(e, s, lhs, allowed, allowed_span).1),
    decreases remaining(e, s), 0nat,
{
    lemma_skip(e, s);
    let s1 = skip(e, s).1;
    let binop = match peek(e, s1) {
        Some(t) => binop_of(t),
        None => None,
    };
    if let Some(op) = binop {
        let op_span = span_here(e, s1);
        let s2 = advance(s1);
        lemma_skip(e, s2);
        let s3 = skip(e, s2).1;
        lemma_notop_moves(e, s3);
        let s4 = notop(e, s3).1;
        if no_retreat(e, s3, s4) {
            if let Outcome::Parsed(rhs) = notop(e, s3).0 {
                lemma_op_loop_moves(
                    e,
                    s4,
                    ExprModel::BinOp { op, op_span, lhs: Box::new(lhs), rhs: Box::new(rhs) },
                    Some(op),
                    Some(op_span),
                );
            }
        }
    }
}

/// A term with its calls and field accesses never moves back, and consumes a
/// token when it succeeds.
pub proof fn lemma_notop_moves(e: Env, s: PState)
    ensures
        no_retreat(e, s, notop(e, s).1),
        notop(e, s).0 is Parsed ==> progressed(e, s, notop(e, s).1),
    decreases remaining(e, s), 1nat,
{
    lemma_term_moves(e, s);
    let s1 = term(e, s).1;
    if no_retreat(e, s, s1) {
        if let Outcome::Parsed(t) = term(e, s).0 {
            lemma_notop_loop_moves(e, s1, t);
        }
    }
}

/// Calls and field accesses never move back.
pub proof fn lemma_notop_loop_moves(e: Env, s: PState, lhs: ExprModel)
    ensures
        no_retreat(e, s, notop_loop(e, s, lhs).1),
    decreases remaining(e, s), 0nat,
{
    lemma_skip(e, s);
    let s1 = skip(e, s).1;
    match peek(e, s1) {
        Some(Token::LParen) => {
            let (open, s2) = push(e, s1);
            lemma_call_args_moves(e, s2, Seq::empty());
            let (r1, s3) = call_args(e, s2, Seq::empty());
            if no_retreat(e, s2, s3) {
                if let Outcome::Parsed(args) = r1 {
                    let (r2, s4) = pop_bracket(e, s3);
                    if let Outcome::Parsed(close) = r2 {
                        lemma_notop_loop_moves(
                            e,
                            s4,
                            ExprModel::Call { open, close, function: Box::new(lhs), args },
                        );
                    }
                }
            }
        },
        Some(Token::Dot) => {
            let s2 = advance(s1);
            lemma_skip(e, s2);
            let s3 = skip(e, s2).1;
            let (r2, s4) = token(e, s3, Token::Ident, "Expected an identifier here.");
            if let Outcome::Parsed(field) = r2 {
                lemma_notop_loop_moves(e, s4, ExprModel::Field { field, inner: Box::new(lhs) });
            }
        },
        _ => {},
    }
}

/// A term never moves back, and consumes a token when it succeeds.
pub proof fn lemma_term_moves(e: Env, s: PState)
    ensures
        no_retreat(e, s, term(e, s).1),
        term(e, s).0 is Parsed ==> progressed(e, s, term(e, s).1),
    decreases remaining(e, s), 0nat,
{
    match peek(e, s) {
        Some(Token::LBrace) => lemma_seqs_moves(e, push(e, s).1, Seq::empty()),
        Some(Token::LBracket) => lemma_seqs_moves(e, push(e, s).1, Seq::empty()),
        Some(Token::LParen) => lemma_expr_moves(e, push(e, s).1),
        _ => {},
    }
}

/// Call arguments never move back.
pub proof fn lemma_call_args_moves(e: Env, s: PState, acc: Seq<PrefixedModel<ExprModel>>)
    ensures
        no_retreat(e, s, call_args(e, s, acc).1),
    decreases remaining(e, s), 4nat,
{
    lemma_non_code(e, s);
    let (prefix, s1) = non_code(e, s);
    if peek(e, s1) != Some(Token::RParen) {
        lemma_expr_moves(e, s1);
        let (r, s2) = expr(e, s1);
        if progressed(e, s1, s2) {
            if let Outcome::Parsed(inner) = r {
                let acc2 = acc.push(PrefixedModel { prefix, inner });
                lemma_skip(e, s2);
                let s3 = skip(e, s2).1;
                match peek(e, s3) {
                    Some(Token::RParen) => lemma_call_args_moves(e, s3, acc2),
                    Some(Token::Comma) => lemma_call_args_moves(e, advance(s3), acc2),
                    _ => {},
                }
            }
        }
    }
}

/// Collection elements never move back.
pub proof fn lemma_seqs_moves(e: Env, s: PState, acc: Seq<PrefixedModel<SeqElemModel>>)
    ensures
        no_retreat(e, s, seqs(e, s, acc).1),
    decreases remaining(e, s), 5nat,
{
    lemma_non_code(e, s);
    let (prefix, s1) = non_code(e, s);
    if !closes_collection(peek(e, s1)) {
        lemma_seq_moves(e, s1);
        let (r, s2) = seq(e, s1);
        if progressed(e, s1, s2) {
            if let Outcome::Parsed(item) = r {
                let acc2 = acc.push(PrefixedModel { prefix, inner: item });
                lemma_skip(e, s2);
                let s3 = skip(e, s2).1;
                let next = peek(e, s3);
                if closes_collection(next) {
                    lemma_seqs_moves(e, s3, acc2);
                } else if next == Some(terminator(item)) {
                    lemma_seqs_moves(e, advance(s3), acc2);
                }
            }
        }
    }
}

/// A prefixed sequence element never moves back, and consumes a token when
/// it succeeds.
pub proof fn lemma_prefixed_seq_moves(e: Env, s: PState)
    ensures
        no_retreat(e, s, prefixed_seq(e, s).1),
        prefixed_seq(e, s).0 is Parsed ==> progressed(e, s, prefixed_seq(e, s).1),
    decreases remaining(e, s), 5nat,
{
    lemma_non_code(e, s);
    lemma_seq_moves(e, non_code(e, s).1);
}

/// A sequence element never moves back, and consumes a token when it
/// succeeds.
pub proof fn lemma_seq_moves(e: Env, s: PState)
    ensures
        no_retreat(e, s, seq(e, s).1),
        seq(e, s).0 is Parsed ==> progressed(e, s, seq(e, s).1),
    decreases remaining(e, s), 4nat,
{
    let next1 = peek(e, s);
    let next2 = peek_at(e, s.cursor + 1int);
    if next1 == Some(Token::Ident) && next2 == Some(Token::Eq) {
        lemma_assoc_ident_moves(e, s);
    } else if next1 == Some(Token::KwLet) {
    } else if next1 == Some(Token::KwFor) {
        lemma_seq_for_moves(e, s);
    } else if next1 == Some(Token::KwIf) {
        lemma_seq_if_moves(e, s);
    } else {
        lemma_expr_op_moves(e, s);
        let s1 = expr_op(e, s).1;
        if no_retreat(e, s, s1) {
            lemma_skip(e, s1);
            let s2 = skip(e, s1).1;
            if peek(e, s2) == Some(Token::Colon) {
                lemma_skip(e, advance(s2));
                lemma_expr_moves(e, skip(e, advance(s2)).1);
            }
        }
    }
}

/// `field = value` never moves back, and consumes a token when it succeeds.
pub proof fn lemma_assoc_ident_moves(e: Env, s: PState)
    ensures
        no_retreat(e, s, assoc_ident(e, s).1),
        assoc_ident(e, s).0 is Parsed ==> progressed(e, s, assoc_ident(e, s).1),
    decreases remaining(e, s), 0nat,
{
    if s.cursor < e.tokens.len() {
        let s1 = advance(s);
        lemma_skip(e, s1);
        let s2 = skip(e, s1).1;
        let s3 = token(e, s2, Token::Eq, "Expected '=' here.").1;
        lemma_skip(e, s3);
        lemma_expr_moves(e, skip(e, s3).1);
    }
}

/// A `for` comprehension never moves back, and consumes a token when it
/// succeeds.
pub proof fn lemma_seq_for_moves(e: Env, s: PState)
    ensures
        no_retreat(e, s, seq_for(e, s).1),
        seq_for(e, s).0 is Parsed ==> progressed(e, s, seq_for(e, s).1),
    decreases remaining(e, s), 0nat,
{
    if s.cursor < e.tokens.len() {
        let s1 = advance(s);
        lemma_for_idents(e, s1, Seq::empty());
        let s2 = for_idents(e, s1, Seq::empty()).1;
        lemma_skip(e, s2);
        let s3 = skip(e, s2).1;
        let s4 = token(e, s3, Token::KwIn, "Expected 'in' here.").1;
        lemma_skip(e, s4);
        let s5 = skip(e, s4).1;
        lemma_expr_moves(e, s5);
        let s6 = expr(e, s5).1;
        if no_retreat(e, s5, s6) {
            lemma_comprehension_body_moves(e, s6);
        }
    }
}

/// An `if` comprehension never moves back, and consumes a token when it
/// succeeds.
pub proof fn lemma_seq_if_moves(e: Env, s: PState)
    ensures
        no_retreat(e, s, seq_if(e, s).1),
        seq_if(e, s).0 is Parsed ==> progressed(e, s, seq_if(e, s).1),
    decreases remaining(e, s), 0nat,
{
    if s.cursor < e.tokens.len() {
        let s1 = advance(s);
        lemma_skip(e, s1);
        let s2 = skip(e, s1).1;
        lemma_expr_moves(e, s2);
        let s3 = expr(e, s2).1;
        if no_retreat(e, s2, s3) {
            lemma_comprehension_body_moves(e, s3);
        }
    }
}

/// The body of a comprehension never moves back, and consumes a token when
/// it succeeds.
pub proof fn lemma_comprehension_body_moves(e: Env, s: PState)
    ensures
        no_retreat(e, s, comprehension_body(e, s).1),
        comprehension_body(e, s).0 is Parsed ==> progressed(e, s, comprehension_body(e, s).1),
    decreases remaining(e, s), 6nat,
{
    lemma_skip(e, s);
    let s1 = skip(e, s).1;
    let s2 = token(e, s1, Token::Colon, "Expected ':' here.").1;
    lemma_prefixed_seq_moves(e, s2);
}

} // verus!
