//! The parser turns a sequence of tokens into a Concrete Syntax Tree.
//!
//! Each parsing function is proved to compute exactly what the function of
//! the same name in `grammar` states.

use crate::cst::{
    pexprs_model, pseqs_model, BinOp, Expr, NonCode, Prefixed, SeqElem, UnOp,
};
use crate::error::ParseError;
use crate::grammar;
use crate::grammar::{Env, Outcome, PState};
use crate::lexer::Token;
use crate::source::{DocId, Span};
use crate::spans::{
    embeds, expr_spans, lemma_embeds_join, lemma_embeds_token, lemma_embeds_widen, noncode_spans,
    pexpr_spans, pexprs_spans, pseq_spans, pseqs_spans, seq_spans,
};
use vstd::prelude::*;

verus! {

/// The result of a parsing step.
pub type Result<T> = std::result::Result<T, ParseError>;

/// The result of a step inside the parser: a value, a syntax error
/// (`Err(Some(..))`), or `Err(None)` where the parser does not handle the
/// input.
pub type Step<T> = std::result::Result<T, Option<ParseError>>;

/// `r` is the outcome `o`, with the value of a success taken by `model`.
pub open spec fn agrees_step<T, M>(r: Step<T>, o: Outcome<M>, model: spec_fn(T) -> M) -> bool {
    match r {
        Ok(v) => o == Outcome::Parsed(model(v)),
        Err(Some(err)) => o == Outcome::<M>::Failed(err),
        Err(None) => o is Unhandled,
    }
}

/// `r` is the outcome `o`, with the value of a success taken by `model`.
pub open spec fn agrees<T, M>(r: Result<T>, o: Outcome<M>, model: spec_fn(T) -> M) -> bool {
    match r {
        Ok(v) => o == Outcome::Parsed(model(v)),
        Err(err) => o == Outcome::<M>::Failed(err),
    }
}

/// Parse a document, given as its tokens, into a concrete syntax tree.
///
/// The document must be one expression: only comments and blank lines may
/// follow it.
pub fn parse(doc: DocId, input: &str, tokens: &[(Token, Span)]) -> (r: Result<Prefixed<Expr>>)
    requires
        !(grammar::document(grammar::env_of(doc, input.len(), tokens@), grammar::start(doc)).0 is Unhandled),
    ensures
        agrees(
            r,
            grammar::document(grammar::env_of(doc, input.len(), tokens@), grammar::start(doc)).0,
            |p: Prefixed<Expr>| p@,
        ),
        r is Ok ==> grammar::document(
            grammar::env_of(doc, input.len(), tokens@),
            grammar::start(doc),
        ).1.cursor == tokens@.len(),
        r matches Ok(v) ==> crate::cst::grouped(v.inner@),
        r matches Ok(v) ==> embeds(
            pexpr_spans(v@),
            grammar::env_of(doc, input.len(), tokens@),
            0,
            tokens@.len() as int,
        ),
{
    try_parse(doc, input, tokens).unwrap()
}

/// Parse a document as `parse` does, or return `None` where the parser does
/// not handle the input (`if` expressions, `let` inside a collection).
pub fn try_parse(doc: DocId, input: &str, tokens: &[(Token, Span)]) -> (r: Option<
    Result<Prefixed<Expr>>,
>)
    ensures
        r is None <==> grammar::document(
            grammar::env_of(doc, input.len(), tokens@),
            grammar::start(doc),
        ).0 is Unhandled,
        r matches Some(res) ==> agrees(
            res,
            grammar::document(grammar::env_of(doc, input.len(), tokens@), grammar::start(doc)).0,
            |p: Prefixed<Expr>| p@,
        ),
        r matches Some(Ok(_)) ==> grammar::document(
            grammar::env_of(doc, input.len(), tokens@),
            grammar::start(doc),
        ).1.cursor == tokens@.len(),
        r matches Some(Ok(v)) ==> crate::cst::grouped(v.inner@),
        r matches Some(Ok(v)) ==> embeds(
            pexpr_spans(v@),
            grammar::env_of(doc, input.len(), tokens@),
            0,
            tokens@.len() as int,
        ),
{
    let mut parser = Parser::new(doc, input, tokens);
    let result = match parser.step_prefixed_expr() {
        Ok(v) => v,
        Err(Some(err)) => return Some(Err(err)),
        Err(None) => return None,
    };
    let ghost c1 = parser.cursor as int;
    // Only non-code may follow the expression.
    parser.parse_non_code();
    if parser.peek().is_some() {
        let err = ParseError {
            span: parser.peek_span(),
            message: "Unexpected content after the main expression.",
            note: None,
        };
        return Some(Err(err));
    }
    proof {
        lemma_embeds_widen(pexpr_spans(result@), parser.env(), 0, c1, 0, tokens@.len() as int);
    }
    Some(Ok(result))
}

/// The operator that a token stands for in prefix position.
fn to_unop(token: Token) -> (r: Option<UnOp>)
    ensures
        r == grammar::unop_of(token),
{
    match token {
        Token::KwNot => Some(UnOp::Neg),
        _ => None,
    }
}

/// The operator that a token stands for in infix position.
fn to_binop(token: Token) -> (r: Option<BinOp>)
    ensures
        r == grammar::binop_of(token),
{
    match token {
        Token::Pipe => Some(BinOp::Union),
        Token::Plus => Some(BinOp::Add),
        _ => None,
    }
}

/// A recursive descent parser over a slice of tokens.
pub struct Parser<'a> {
    doc: DocId,
    input: &'a str,
    tokens: &'a [(Token, Span)],
    cursor: usize,
    /// The unclosed opening brackets (all of `()`, `[]`, `{}`) encountered.
    bracket_stack: Vec<(Token, Span)>,
    /// The last known valid location where a comment was allowed.
    ///
    /// This is used in error reporting to provide a hint for where to place the
    /// comment.
    comment_anchor: Span,
}

impl<'a> Parser<'a> {
    /// The tokens, the document and the length of the input.
    pub closed spec fn env(&self) -> Env {
        Env { tokens: self.tokens@, doc: self.doc, input_len: self.input.len() }
    }

    /// The cursor, the open brackets and the comment anchor.
    pub closed spec fn state(&self) -> PState {
        PState {
            cursor: self.cursor as nat,
            brackets: self.bracket_stack@,
            anchor: self.comment_anchor,
        }
    }

    /// The cursor is at most at the end of the tokens, and the stack holds
    /// opening brackets only.
    pub closed spec fn wf(&self) -> bool {
        &&& self.cursor <= self.tokens@.len()
        &&& forall|i: int|
            0 <= i < self.bracket_stack@.len() ==> grammar::is_opening(
                #[trigger] self.bracket_stack@[i].0,
            )
    }

    /// A parser at the first of `tokens`, with no open brackets.
    pub fn new(doc: DocId, input: &'a str, tokens: &'a [(Token, Span)]) -> (p: Parser<'a>)
        ensures
            p.wf(),
            p.env() == grammar::env_of(doc, input.len(), tokens@),
            p.state() == grammar::start(doc),
    {
        Parser {
            doc,
            input,
            tokens,
            cursor: 0,
            bracket_stack: Vec::new(),
            comment_anchor: Span { doc, start: 0, len: 0 },
        }
    }

    /// Build a parse error at the current cursor location.
    fn error<T>(&self, message: &'static str) -> (r: Step<T>)
        ensures
            r == Err::<T, Option<ParseError>>(
                Some(grammar::error_here(self.env(), self.state(), message)),
            ),
    {
        let err = ParseError { span: self.peek_span(), message, note: None };
        Err(Some(err))
    }

    /// Build a parse error at the current cursor location, and a note elsewhere.
    fn error_with_note<T>(&self, message: &'static str, note_span: Span, note: &'static str) -> (r:
        Step<T>)
        ensures
            r == Err::<T, Option<ParseError>>(
                Some(grammar::error_noted(self.env(), self.state(), message, note_span, note)),
            ),
    {
        let err = ParseError { span: self.peek_span(), message, note: Some((note, note_span)) };
        Err(Some(err))
    }

    /// Return the token under the cursor, if there is one.
    fn peek(&self) -> (r: Option<Token>)
        ensures
            r == grammar::peek(self.env(), self.state()),
    {
        self.peek_n(0)
    }

    /// Return the token `offset` tokens after the cursor, if there is one.
    fn peek_n(&self, offset: usize) -> (r: Option<Token>)
        ensures
            r == grammar::peek_at(self.env(), self.cursor + offset),
    {
        if self.cursor < self.tokens.len() && offset < self.tokens.len() - self.cursor {
            Some(self.tokens[self.cursor + offset].0)
        } else {
            None
        }
    }

    /// Return the span under the cursor, or end of document otherwise.
    fn peek_span(&self) -> (r: Span)
        ensures
            r == grammar::peek_span(self.env(), self.state()),
    {
        if self.cursor < self.tokens.len() {
            self.tokens[self.cursor].1
        } else {
            Span { doc: self.doc, start: self.input.len(), len: 0 }
        }
    }

    /// Advance the cursor by one token, consuming the token under the cursor.
    ///
    /// Returns the span of the consumed token.
    fn consume(&mut self) -> (r: Span)
        requires
            old(self).wf(),
            old(self).cursor < old(self).tokens@.len(),
        ensures
            final(self).wf(),
            final(self).env() == old(self).env(),
            r == grammar::span_here(old(self).env(), old(self).state()),
            final(self).state() == grammar::advance(old(self).state()),
    {
        let result = self.tokens[self.cursor].1;
        self.cursor += 1;
        result
    }

    /// Push an opening bracket onto the stack of brackets.
    ///
    /// Consumes the token under the cursor.
    fn push_bracket(&mut self) -> (r: Span)
        requires
            old(self).wf(),
            old(self).cursor < old(self).tokens@.len(),
            grammar::is_opening(old(self).tokens@[old(self).cursor as int].0),
        ensures
            final(self).wf(),
            final(self).env() == old(self).env(),
            (r, final(self).state()) == grammar::push(old(self).env(), old(self).state()),
    {
        let start_token = self.tokens[self.cursor];
        let result = self.consume();
        self.bracket_stack.push(start_token);
        proof {
            let st = self.bracket_stack@;
            assert forall|i: int| 0 <= i < st.len() implies grammar::is_opening(
                #[trigger] st[i].0,
            ) by {
                if i < st.len() - 1 {
                    assert(st[i] == old(self).bracket_stack@[i]);
                }
            }
        }
        result
    }

    /// Pop a closing bracket while verifying that it is the right one.
    ///
    /// Consumes the token under the cursor.
    fn pop_bracket(&mut self) -> (r: Step<Span>)
        requires
            old(self).wf(),
        ensures
            final(self).wf(),
            final(self).env() == old(self).env(),
            agrees_step(r, grammar::pop_bracket(old(self).env(), old(self).state()).0, |s: Span| s),
            final(self).state() == grammar::pop_bracket(old(self).env(), old(self).state()).1,
    {
        // At the end of the tokens there is no closing bracket; the innermost
        // open bracket is then reported as unmatched.
        let actual_end_token = self.peek();
        let top = match self.bracket_stack.pop() {
            None => match actual_end_token {
                Some(Token::RParen) => return self.error("Found unmatched ')'."),
                Some(Token::RBrace) => return self.error("Found unmatched '}'."),
                Some(Token::RBracket) => return self.error("Found unmatched ']'."),
                // Not a closing bracket: the callers never get here, as they
                // always have a bracket open.
                _ => return Err(None),
            },
            Some(t) => t,
        };
        proof {
            let st = self.bracket_stack@;
            assert forall|i: int| 0 <= i < st.len() implies grammar::is_opening(
                #[trigger] st[i].0,
            ) by {
                assert(st[i] == old(self).bracket_stack@[i]);
            }
            assert(grammar::is_opening(old(self).bracket_stack@[st.len() as int].0));
        }
        match top.0 {
            Token::LParen => if actual_end_token == Some(Token::RParen) {
                Ok(self.consume())
            } else {
                self.error_with_note("Expected ')'.", top.1, "Unmatched '(' opened here.")
            },
            Token::LBrace => if actual_end_token == Some(Token::RBrace) {
                Ok(self.consume())
            } else {
                self.error_with_note("Expected '}'.", top.1, "Unmatched '{' opened here.")
            },
            _ => if actual_end_token == Some(Token::RBracket) {
                Ok(self.consume())
            } else {
                self.error_with_note("Expected ']'.", top.1, "Unmatched '[' opened here.")
            },
        }
    }

    /// Eat comments and whitespace.
    ///
    /// This records the location after them as the comment anchor.
    fn parse_non_code(&mut self) -> (r: Vec<NonCode>)
        requires
            old(self).wf(),
        ensures
            final(self).wf(),
            final(self).env() == old(self).env(),
            (r@, final(self).state()) == grammar::non_code(old(self).env(), old(self).state()),
            grammar::no_retreat(old(self).env(), old(self).state(), final(self).state()),
            final(self).state().brackets == old(self).state().brackets,
            old(self).state().cursor <= final(self).state().cursor,
            embeds(
                noncode_spans(r@),
                old(self).env(),
                old(self).state().cursor as int,
                final(self).state().cursor as int,
            ),
    {
        proof {
            grammar::lemma_non_code(old(self).env(), old(self).state());
            crate::spans::lemma_embeds_empty(old(self).env(), old(self).cursor as int, old(self).cursor as int);
        }
        let mut result: Vec<NonCode> = Vec::new();
        assert(noncode_spans(result@) =~= Seq::<Span>::empty());
        loop
            invariant
                self.wf(),
                self.env() == old(self).env(),
                result@ + grammar::non_code(self.env(), self.state()).0 == grammar::non_code(
                    old(self).env(),
                    old(self).state(),
                ).0,
                grammar::non_code(self.env(), self.state()).1 == grammar::non_code(
                    old(self).env(),
                    old(self).state(),
                ).1,
                grammar::no_retreat(
                    old(self).env(),
                    old(self).state(),
                    grammar::non_code(old(self).env(), old(self).state()).1,
                ),
                grammar::non_code(old(self).env(), old(self).state()).1.brackets == old(
                    self,
                ).state().brackets,
                old(self).cursor <= self.cursor,
                embeds(noncode_spans(result@), old(self).env(), old(self).cursor as int, self.cursor as int),
            decreases grammar::remaining(self.env(), self.state()),
        {
            let ghost before = result@;
            let ghost s0 = self.state();
            match self.peek() {
                Some(Token::LineComment) => {
                    let ghost c = self.cursor as int;
                    let span = self.consume();
                    proof {
                        crate::spans::lemma_noncode_spans_push(result@, NonCode::LineComment(span), span);
                        lemma_embeds_token(self.env(), c);
                        lemma_embeds_join(
                            noncode_spans(result@),
                            seq![span],
                            self.env(),
                            old(self).cursor as int,
                            c,
                            c,
                            c + 1,
                        );
                    }
                    result.push(NonCode::LineComment(span));
                    assert(result@ + grammar::non_code(self.env(), self.state()).0 =~= before
                        + grammar::non_code(self.env(), s0).0);
                },
                Some(Token::Blank) => {
                    let ghost c = self.cursor as int;
                    let span = self.consume();
                    proof {
                        crate::spans::lemma_noncode_spans_push(result@, NonCode::Blank(span), span);
                        lemma_embeds_token(self.env(), c);
                        lemma_embeds_join(
                            noncode_spans(result@),
                            seq![span],
                            self.env(),
                            old(self).cursor as int,
                            c,
                            c,
                            c + 1,
                        );
                    }
                    result.push(NonCode::Blank(span));
                    assert(result@ + grammar::non_code(self.env(), self.state()).0 =~= before
                        + grammar::non_code(self.env(), s0).0);
                },
                _ => {
                    // If it's not a space, then this is the last location where
                    // a comment could have been inserted. Record that, so we
                    // can suggest this place in case an invalid comment is
                    // encountered.
                    self.comment_anchor = self.peek_span();
                    self.comment_anchor.len = 0;
                    assert(result@ =~= result@ + Seq::<NonCode>::empty());
                    return result;
                },
            }
        }
    }

    /// Skip over any non-code tokens.
    fn skip_non_code(&mut self) -> (r: Step<()>)
        requires
            old(self).wf(),
        ensures
            final(self).wf(),
            final(self).env() == old(self).env(),
            agrees_step(r, grammar::skip(old(self).env(), old(self).state()).0, |u: ()| u),
            final(self).state() == grammar::skip(old(self).env(), old(self).state()).1,
            grammar::no_retreat(old(self).env(), old(self).state(), final(self).state()),
            final(self).state().brackets == old(self).state().brackets,
    {
        proof {
            grammar::lemma_skip(old(self).env(), old(self).state());
        }
        loop
            invariant
                self.wf(),
                self.env() == old(self).env(),
                grammar::skip(self.env(), self.state()) == grammar::skip(
                    old(self).env(),
                    old(self).state(),
                ),
                grammar::no_retreat(
                    old(self).env(),
                    old(self).state(),
                    grammar::skip(old(self).env(), old(self).state()).1,
                ),
                grammar::skip(old(self).env(), old(self).state()).1.brackets == old(
                    self,
                ).state().brackets,
            decreases grammar::remaining(self.env(), self.state()),
        {
            match self.peek() {
                Some(Token::Blank) => {
                    self.consume();
                },
                Some(Token::LineComment) => {
                    return self.error_with_note(
                        "A comment is not allowed here.",
                        self.comment_anchor,
                        "Try inserting the comment before this instead.",
                    );
                },
                _ => return Ok(()),
            }
        }
    }

    /// Expect an identifier.
    fn parse_ident(&mut self) -> (r: Step<Span>)
        requires
            old(self).wf(),
        ensures
            final(self).wf(),
            final(self).env() == old(self).env(),
            agrees_step(r, grammar::ident(old(self).env(), old(self).state()).0, |s: Span| s),
            final(self).state() == grammar::ident(old(self).env(), old(self).state()).1,
    {
        match self.peek() {
            Some(Token::Ident) => Ok(self.consume()),
            _ => self.error("Expected an identifier here."),
        }
    }

    /// Consume the given token, report an error otherwise.
    fn parse_token(&mut self, expected: Token, error: &'static str) -> (r: Step<Span>)
        requires
            old(self).wf(),
        ensures
            final(self).wf(),
            final(self).env() == old(self).env(),
            agrees_step(
                r,
                grammar::token(old(self).env(), old(self).state(), expected, error).0,
                |s: Span| s,
            ),
            final(self).state() == grammar::token(
                old(self).env(),
                old(self).state(),
                expected,
                error,
            ).1,
    {
        match self.peek() {
            Some(token) => if token == expected {
                Ok(self.consume())
            } else {
                self.error(error)
            },
            None => self.error(error),
        }
    }

    /// Consume the given token, report an error with note otherwise.
    fn parse_token_with_note(
        &mut self,
        expected: Token,
        error: &'static str,
        note_span: Span,
        note: &'static str,
    ) -> (r: Step<Span>)
        requires
            old(self).wf(),
        ensures
            final(self).wf(),
            final(self).env() == old(self).env(),
            agrees_step(
                r,
                grammar::token_noted(
                    old(self).env(),
                    old(self).state(),
                    expected,
                    error,
                    note_span,
                    note,
                ).0,
                |s: Span| s,
            ),
            final(self).state() == grammar::token_noted(
                old(self).env(),
                old(self).state(),
                expected,
                error,
                note_span,
                note,
            ).1,
    {
        match self.peek() {
            Some(token) => if token == expected {
                Ok(self.consume())
            } else {
                self.error_with_note(error, note_span, note)
            },
            None => self.error_with_note(error, note_span, note),
        }
    }

    /// Parse an expression preceded by non-code.
    pub fn parse_prefixed_expr(&mut self) -> (r: Result<Prefixed<Expr>>)
        requires
            old(self).wf(),
            !(grammar::prefixed_expr(old(self).env(), old(self).state()).0 is Unhandled),
        ensures
            final(self).wf(),
            final(self).env() == old(self).env(),
            agrees(r, grammar::prefixed_expr(old(self).env(), old(self).state()).0, |p: Prefixed<Expr>| p@),
            final(self).state() == grammar::prefixed_expr(old(self).env(), old(self).state()).1,
            old(self).state().cursor <= final(self).state().cursor <= final(self).env().tokens.len(),
            r is Ok ==> final(self).state().cursor > old(self).state().cursor,
            r is Ok ==> final(self).state().brackets == old(self).state().brackets,
            r matches Ok(v) ==> crate::cst::grouped(v.inner@),
            r matches Ok(v) ==> embeds(
                pexpr_spans(v@),
                old(self).env(),
                old(self).state().cursor as int,
                final(self).state().cursor as int,
            ),
    {
        match self.step_prefixed_expr() {
            Ok(v) => Ok(v),
            Err(stop) => Err(stop.unwrap()),
        }
    }

    /// Parse a sequence element preceded by non-code.
    pub fn parse_prefixed_seq(&mut self) -> (r: Result<Prefixed<SeqElem>>)
        requires
            old(self).wf(),
            !(grammar::prefixed_seq(old(self).env(), old(self).state()).0 is Unhandled),
        ensures
            final(self).wf(),
            final(self).env() == old(self).env(),
            agrees(r, grammar::prefixed_seq(old(self).env(), old(self).state()).0, |p: Prefixed<SeqElem>| p@),
            final(self).state() == grammar::prefixed_seq(old(self).env(), old(self).state()).1,
            old(self).state().cursor <= final(self).state().cursor <= final(self).env().tokens.len(),
            r is Ok ==> final(self).state().cursor > old(self).state().cursor,
            r is Ok ==> final(self).state().brackets == old(self).state().brackets,
            r matches Ok(v) ==> crate::cst::grouped_seq(v.inner@),
            r matches Ok(v) ==> embeds(
                pseq_spans(v@),
                old(self).env(),
                old(self).state().cursor as int,
                final(self).state().cursor as int,
            ),
    {
        match self.step_prefixed_seq() {
            Ok(v) => Ok(v),
            Err(stop) => Err(stop.unwrap()),
        }
    }

    /// Parse an expression preceded by non-code, inside the parser.
    fn step_prefixed_expr(&mut self) -> (r: Step<Prefixed<Expr>>)
        requires
            old(self).wf(),
        ensures
            final(self).wf(),
            final(self).env() == old(self).env(),
            agrees_step(r, grammar::prefixed_expr(old(self).env(), old(self).state()).0, |p: Prefixed<Expr>| p@),
            final(self).state() == grammar::prefixed_expr(old(self).env(), old(self).state()).1,
            grammar::no_retreat(old(self).env(), old(self).state(), final(self).state()),
            r is Ok ==> grammar::progressed(old(self).env(), old(self).state(), final(self).state()),
            r is Ok ==> final(self).state().brackets == old(self).state().brackets,
            r matches Ok(v) ==> crate::cst::grouped(v.inner@),
            old(self).state().cursor <= final(self).state().cursor,
            r matches Ok(v) ==> embeds(pexpr_spans(v@), old(self).env(), old(self).state().cursor as int, final(self).state().cursor as int),
        decreases grammar::remaining(old(self).env(), old(self).state()), 4nat,
    {
        let ghost c0 = self.cursor as int;
        let prefix = self.parse_non_code();
        let ghost c1 = self.cursor as int;
        let inner = self.parse_expr()?;
        let result = Prefixed { prefix, inner };
        proof {
            lemma_embeds_join(noncode_spans(prefix@), expr_spans(inner@), self.env(), c0, c1, c1, self.cursor as int);
            assert(pexpr_spans(result@) == noncode_spans(prefix@) + expr_spans(inner@));
        }
        Ok(result)
    }

    /// Parse an expression.
    fn parse_expr(&mut self) -> (r: Step<Expr>)
        requires
            old(self).wf(),
        ensures
            final(self).wf(),
            final(self).env() == old(self).env(),
            agrees_step(r, grammar::expr(old(self).env(), old(self).state()).0, |x: Expr| x@),
            final(self).state() == grammar::expr(old(self).env(), old(self).state()).1,
            grammar::no_retreat(old(self).env(), old(self).state(), final(self).state()),
            r is Ok ==> grammar::progressed(old(self).env(), old(self).state(), final(self).state()),
            r is Ok ==> final(self).state().brackets == old(self).state().brackets,
            r matches Ok(v) ==> crate::cst::grouped(v@),
            old(self).state().cursor <= final(self).state().cursor,
            r matches Ok(v) ==> embeds(expr_spans(v@), old(self).env(), old(self).state().cursor as int, final(self).state().cursor as int),
        decreases grammar::remaining(old(self).env(), old(self).state()), 3nat,
    {
        match self.peek() {
            Some(Token::KwLet) => self.parse_expr_let(),
            // `if` expressions are not implemented.
            Some(Token::KwIf) => Err(None),
            _ => self.parse_expr_op(),
        }
    }

    /// Parse `let ident = value; body`.
    fn parse_expr_let(&mut self) -> (r: Step<Expr>)
        requires
            old(self).wf(),
            old(self).cursor < old(self).tokens@.len(),
        ensures
            final(self).wf(),
            final(self).env() == old(self).env(),
            agrees_step(r, grammar::expr_let(old(self).env(), old(self).state()).0, |x: Expr| x@),
            final(self).state() == grammar::expr_let(old(self).env(), old(self).state()).1,
            grammar::no_retreat(old(self).env(), old(self).state(), final(self).state()),
            r is Ok ==> grammar::progressed(old(self).env(), old(self).state(), final(self).state()),
            r is Ok ==> final(self).state().brackets == old(self).state().brackets,
            r matches Ok(v) ==> crate::cst::grouped(v@),
            old(self).state().cursor <= final(self).state().cursor,
            r matches Ok(v) ==> embeds(expr_spans(v@), old(self).env(), old(self).state().cursor as int, final(self).state().cursor as int),
        decreases grammar::remaining(old(self).env(), old(self).state()), 0nat,
    {
        // Consume the `let` keyword.
        let let_ = self.consume();

        self.skip_non_code()?;
        let ghost ci = self.cursor as int;
        let ident = self.parse_ident()?;

        self.skip_non_code()?;
        self.parse_token(Token::Eq, "Expected '=' here.")?;

        self.skip_non_code()?;
        let ghost cv = self.cursor as int;
        let value = self.parse_expr()?;
        let ghost cv2 = self.cursor as int;

        self.skip_non_code()?;
        self.parse_token_with_note(
            Token::Semicolon,
            "Expected ';' here to close the let-binding.",
            let_,
            "Let-binding opened here.",
        )?;

        let ghost cb = self.cursor as int;
        let body = self.step_prefixed_expr()?;

        let result = Expr::Let { ident, value: Box::new(value), body: Box::new(body) };
        proof {
            let e = self.env();
            lemma_embeds_token(e, ci);
            lemma_embeds_join(seq![ident], expr_spans(value@), e, ci, ci + 1, cv, cv2);
            lemma_embeds_join(seq![ident] + expr_spans(value@), pexpr_spans(body@), e, ci, cv2, cb, self.cursor as int);
            lemma_embeds_widen(seq![ident] + expr_spans(value@) + pexpr_spans(body@), e, ci, self.cursor as int, old(self).cursor as int, self.cursor as int);
            assert(expr_spans(result@) == seq![ident] + expr_spans(value@) + pexpr_spans(body@));
        }

        Ok(result)
    }

    /// Parse an operator expression.
    fn parse_expr_op(&mut self) -> (r: Step<Expr>)
        requires
            old(self).wf(),
        ensures
            final(self).wf(),
            final(self).env() == old(self).env(),
            agrees_step(r, grammar::expr_op(old(self).env(), old(self).state()).0, |x: Expr| x@),
            final(self).state() == grammar::expr_op(old(self).env(), old(self).state()).1,
            grammar::no_retreat(old(self).env(), old(self).state(), final(self).state()),
            r is Ok ==> grammar::progressed(old(self).env(), old(self).state(), final(self).state()),
            r is Ok ==> final(self).state().brackets == old(self).state().brackets,
            r matches Ok(v) ==> crate::cst::grouped(v@),
            old(self).state().cursor <= final(self).state().cursor,
            r matches Ok(v) ==> embeds(expr_spans(v@), old(self).env(), old(self).state().cursor as int, final(self).state().cursor as int),
        decreases grammar::remaining(old(self).env(), old(self).state()), 2nat,
    {
        let ghost e = self.env();
        let ghost s0 = self.state();
        // First we check all the rules for prefix unary operators.
        let unop = match self.peek() {
            Some(t) => to_unop(t),
            None => None,
        };
        if let Some(op) = unop {
            let span = self.consume();
            self.skip_non_code()?;
            let ghost cb = self.cursor as int;
            let body = self.parse_expr_notop()?;
            let result = Expr::UnOp { op, op_span: span, body: Box::new(body) };
            proof {
                lemma_embeds_token(e, s0.cursor as int);
                lemma_embeds_join(seq![span], expr_spans(body@), e, s0.cursor as int, s0.cursor + 1int, cb, self.cursor as int);
                assert(expr_spans(result@) == seq![span] + expr_spans(body@));
            }
            return Ok(result);
        }

        // If it was not a prefix unary operator, then we certainly have one
        // notop, but we may have an operator afterwards.
        let mut result = self.parse_expr_notop()?;

        // We might have binary operators following. If we find one, then
        // all the other ones must be of the same type, to avoid unclear
        // situations like whether "a and b or c" means "(a and b) or c"
        // or "a and (b or c)".
        let mut allowed_op: Option<BinOp> = None;
        let mut allowed_span: Option<Span> = None;
        loop
            invariant
                self.wf(),
                self.env() == e,
                e == old(self).env(),
                grammar::op_loop(e, self.state(), result@, allowed_op, allowed_span)
                    == grammar::expr_op(e, s0),
                crate::cst::grouped(result@),
                allowed_op is None ==> !crate::cst::is_op(result@),
                allowed_op is Some <==> allowed_span is Some,
                s0.cursor <= self.cursor,
                embeds(expr_spans(result@), e, s0.cursor as int, self.cursor as int),
                allowed_op matches Some(a) ==> (result@ matches crate::cst::ExprModel::BinOp {
                    op: o,
                    ..
                } && o == a),
                grammar::progressed(e, s0, self.state()),
                self.state().brackets == s0.brackets,
                s0 == old(self).state(),
            decreases grammar::remaining(self.env(), self.state()),
        {
            let ghost ci = self.cursor as int;
            self.skip_non_code()?;
            let binop = match self.peek() {
                Some(t) => to_binop(t),
                None => None,
            };
            match binop {
                Some(op) => if allowed_op.is_none() || allowed_op == Some(op) {
                    let ghost co = self.cursor as int;
                    let span = self.consume();
                    self.skip_non_code()?;
                    let ghost cr = self.cursor as int;
                    let rhs = self.parse_expr_notop()?;
                    allowed_span = Some(span);
                    allowed_op = Some(op);
                    let ghost lhs_spans = expr_spans(result@);
                    proof {
                        lemma_embeds_token(e, co);
                        lemma_embeds_join(lhs_spans, seq![span], e, s0.cursor as int, ci, co, co + 1);
                        lemma_embeds_join(lhs_spans + seq![span], expr_spans(rhs@), e, s0.cursor as int, co + 1, cr, self.cursor as int);
                    }
                    result = Expr::BinOp { op, op_span: span, lhs: Box::new(result), rhs: Box::new(rhs) };
                    assert(expr_spans(result@) == lhs_spans + seq![span] + expr_spans(rhs@));
                } else {
                    return self.error_with_note(
                        "Operator with ambiguous precedence is not allowed here. Add parentheses to clarify.",
                        allowed_span.expect("If we are here, allowed_span must be set."),
                        "Without parenthesis, it is not clear whether this operator would take precedence.",
                    );
                },
                None => {
                    proof {
                        lemma_embeds_widen(expr_spans(result@), e, s0.cursor as int, ci, s0.cursor as int, self.cursor as int);
                    }
                    return Ok(result);
                }
            }
        }
    }

    /// Parse a term followed by calls and field accesses.
    fn parse_expr_notop(&mut self) -> (r: Step<Expr>)
        requires
            old(self).wf(),
        ensures
            final(self).wf(),
            final(self).env() == old(self).env(),
            agrees_step(r, grammar::notop(old(self).env(), old(self).state()).0, |x: Expr| x@),
            final(self).state() == grammar::notop(old(self).env(), old(self).state()).1,
            grammar::no_retreat(old(self).env(), old(self).state(), final(self).state()),
            r is Ok ==> grammar::progressed(old(self).env(), old(self).state(), final(self).state()),
            r is Ok ==> final(self).state().brackets == old(self).state().brackets,
            r matches Ok(v) ==> crate::cst::grouped(v@),
            r matches Ok(v) ==> !crate::cst::is_op(v@),
            old(self).state().cursor <= final(self).state().cursor,
            r matches Ok(v) ==> embeds(expr_spans(v@), old(self).env(), old(self).state().cursor as int, final(self).state().cursor as int),
        decreases grammar::remaining(old(self).env(), old(self).state()), 1nat,
    {
        let ghost e = self.env();
        let ghost s0 = self.state();
        let mut result = self.parse_expr_term()?;
        proof {
            lemma_embeds_widen(expr_spans(result@), e, s0.cursor as int, self.cursor as int, s0.cursor as int, self.cursor as int);
        }
        loop
            invariant
                self.wf(),
                self.env() == e,
                e == old(self).env(),
                grammar::notop_loop(e, self.state(), result@) == grammar::notop(e, s0),
                crate::cst::grouped(result@),
                !crate::cst::is_op(result@),
                grammar::progressed(e, s0, self.state()),
                self.state().brackets == s0.brackets,
                s0 == old(self).state(),
                s0.cursor <= self.cursor,
                embeds(expr_spans(result@), e, s0.cursor as int, self.cursor as int),
            decreases grammar::remaining(self.env(), self.state()),
        {
            let ghost ci = self.cursor as int;
            self.skip_non_code()?;
            match self.peek() {
                Some(Token::LParen) => {
                    let ghost co = self.cursor as int;
                    let open = self.push_bracket();
                    let args = self.parse_call_args()?;
                    let ghost ca = self.cursor as int;
                    let close = self.pop_bracket()?;
                    let ghost f = expr_spans(result@);
                    let ghost a = pexprs_spans(pexprs_model(args@));
                    proof {
                        lemma_embeds_token(e, co);
                        lemma_embeds_token(e, ca);
                        lemma_embeds_join(f, seq![open], e, s0.cursor as int, ci, co, co + 1);
                        lemma_embeds_join(f + seq![open], a, e, s0.cursor as int, co + 1, co + 1, ca);
                        lemma_embeds_join(f + seq![open] + a, seq![close], e, s0.cursor as int, ca, ca, ca + 1);
                    }
                    result = Expr::Call { open, close, args, function: Box::new(result) };
                    assert(expr_spans(result@) == f + seq![open] + a + seq![close]);
                },
                Some(Token::Dot) => {
                    self.consume();
                    self.skip_non_code()?;
                    let ghost cf = self.cursor as int;
                    let field = self.parse_token(Token::Ident, "Expected an identifier here.")?;
                    let ghost f = expr_spans(result@);
                    proof {
                        lemma_embeds_token(e, cf);
                        lemma_embeds_join(f, seq![field], e, s0.cursor as int, ci, cf, cf + 1);
                    }
                    result = Expr::Field { field, inner: Box::new(result) };
                    assert(expr_spans(result@) == f + seq![field]);
                },
                _ => {
                    proof {
                        lemma_embeds_widen(expr_spans(result@), e, s0.cursor as int, ci, s0.cursor as int, self.cursor as int);
                    }
                    return Ok(result);
                }
            }
        }
    }

    /// Parse a term.
    fn parse_expr_term(&mut self) -> (r: Step<Expr>)
        requires
            old(self).wf(),
        ensures
            final(self).wf(),
            final(self).env() == old(self).env(),
            agrees_step(r, grammar::term(old(self).env(), old(self).state()).0, |x: Expr| x@),
            final(self).state() == grammar::term(old(self).env(), old(self).state()).1,
            grammar::no_retreat(old(self).env(), old(self).state(), final(self).state()),
            r is Ok ==> grammar::progressed(old(self).env(), old(self).state(), final(self).state()),
            r is Ok ==> final(self).state().brackets == old(self).state().brackets,
            r matches Ok(v) ==> crate::cst::grouped(v@),
            r matches Ok(v) ==> !crate::cst::is_op(v@),
            old(self).state().cursor <= final(self).state().cursor,
            r matches Ok(v) ==> embeds(expr_spans(v@), old(self).env(), old(self).state().cursor as int, final(self).state().cursor as int),
        decreases grammar::remaining(old(self).env(), old(self).state()), 0nat,
    {
        match self.peek() {
            Some(Token::LBrace) => {
                let ghost c0 = self.cursor as int;
                let open = self.push_bracket();
                let elements = self.parse_seqs()?;
                let ghost c2 = self.cursor as int;
                let close = self.pop_bracket()?;
                let result = Expr::BraceLit { open, close, elements };
                proof {
                    let e = self.env();
                    let m = pseqs_spans(crate::cst::pseqs_model(elements@));
                    lemma_embeds_token(e, c0);
                    lemma_embeds_token(e, c2);
                    lemma_embeds_join(seq![open], m, e, c0, c0 + 1, c0 + 1, c2);
                    lemma_embeds_join(seq![open] + m, seq![close], e, c0, c2, c2, c2 + 1);
                    assert(expr_spans(result@) == seq![open] + m + seq![close]);
                }
                Ok(result)
            },
            Some(Token::LBracket) => {
                let ghost c0 = self.cursor as int;
                let open = self.push_bracket();
                let elements = self.parse_seqs()?;
                let ghost c2 = self.cursor as int;
                let close = self.pop_bracket()?;
                let result = Expr::BracketLit { open, close, elements };
                proof {
                    let e = self.env();
                    let m = pseqs_spans(crate::cst::pseqs_model(elements@));
                    lemma_embeds_token(e, c0);
                    lemma_embeds_token(e, c2);
                    lemma_embeds_join(seq![open], m, e, c0, c0 + 1, c0 + 1, c2);
                    lemma_embeds_join(seq![open] + m, seq![close], e, c0, c2, c2, c2 + 1);
                    assert(expr_spans(result@) == seq![open] + m + seq![close]);
                }
                Ok(result)
            },
            Some(Token::LParen) => {
                let ghost c0 = self.cursor as int;
                let open = self.push_bracket();
                let body = self.parse_expr()?;
                let ghost c2 = self.cursor as int;
                let close = self.pop_bracket()?;
                let result = Expr::Parens { open, close, body: Box::new(body) };
                proof {
                    let e = self.env();
                    lemma_embeds_token(e, c0);
                    lemma_embeds_token(e, c2);
                    lemma_embeds_join(seq![open], expr_spans(body@), e, c0, c0 + 1, c0 + 1, c2);
                    lemma_embeds_join(seq![open] + expr_spans(body@), seq![close], e, c0, c2, c2, c2 + 1);
                    assert(expr_spans(result@) == seq![open] + expr_spans(body@) + seq![close]);
                }
                Ok(result)
            },
            Some(Token::DoubleQuoted) => {
                proof {
                    lemma_embeds_token(self.env(), self.cursor as int);
                }
                Ok(Expr::StringLit(self.consume()))
            },
            Some(Token::Ident) => {
                proof {
                    lemma_embeds_token(self.env(), self.cursor as int);
                }
                Ok(Expr::Var(self.consume()))
            },
            _ => self.error("Unexpected token, expected a term."),
        }
    }

    /// Parse arguments in a function call.
    #[verifier::rlimit(60)]
    #[verifier::spinoff_prover]
    fn parse_call_args(&mut self) -> (r: Step<Vec<Prefixed<Expr>>>)
        requires
            old(self).wf(),
        ensures
            final(self).wf(),
            final(self).env() == old(self).env(),
            agrees_step(r, grammar::call_args(old(self).env(), old(self).state(), Seq::empty()).0, |v: Vec<Prefixed<Expr>>| pexprs_model(v@)),
            final(self).state() == grammar::call_args(old(self).env(), old(self).state(), Seq::empty()).1,
            grammar::no_retreat(old(self).env(), old(self).state(), final(self).state()),
            r is Ok ==> final(self).state().brackets == old(self).state().brackets,
            r matches Ok(v) ==> forall|i: int| 0 <= i < pexprs_model(v@).len() ==> crate::cst::grouped(#[trigger] pexprs_model(v@)[i].inner),
            old(self).state().cursor <= final(self).state().cursor,
            r matches Ok(v) ==> embeds(pexprs_spans(pexprs_model(v@)), old(self).env(), old(self).state().cursor as int, final(self).state().cursor as int),
        decreases grammar::remaining(old(self).env(), old(self).state()), 4nat,
    {
        let ghost e = self.env();
        let ghost s0 = self.state();
        let mut result: Vec<Prefixed<Expr>> = Vec::new();
        proof {
            crate::cst::lemma_models_empty();
            crate::spans::lemma_embeds_empty(e, s0.cursor as int, s0.cursor as int);
        }
        loop
            invariant
                self.wf(),
                self.env() == e,
                e == old(self).env(),
                grammar::call_args(e, self.state(), pexprs_model(result@)) == grammar::call_args(
                    e,
                    s0,
                    Seq::empty(),
                ),
                forall|i: int|
                    0 <= i < pexprs_model(result@).len() ==> crate::cst::grouped(
                        #[trigger] pexprs_model(result@)[i].inner,
                    ),
                grammar::no_retreat(e, s0, self.state()),
                self.state().brackets == s0.brackets,
                s0 == old(self).state(),
                s0.cursor <= self.cursor,
                embeds(pexprs_spans(pexprs_model(result@)), e, s0.cursor as int, self.cursor as int),
            decreases grammar::remaining(self.env(), self.state()),
        {
            let ghost ci = self.cursor as int;
            let prefix = self.parse_non_code();
            let ghost c1 = self.cursor as int;
            if matches!(self.peek(), Some(Token::RParen)) {
                proof {
                    lemma_embeds_widen(pexprs_spans(pexprs_model(result@)), e, s0.cursor as int, ci, s0.cursor as int, self.cursor as int);
                }
                return Ok(result);
            }
            let expr = self.parse_expr()?;
            let prefixed = Prefixed { prefix, inner: expr };
            proof {
                crate::cst::lemma_pexprs_model_push(result@, prefixed);
                crate::spans::lemma_pexprs_spans_push(pexprs_model(result@), prefixed@);
                let old_spans = pexprs_spans(pexprs_model(result@));
                lemma_embeds_join(noncode_spans(prefix@), expr_spans(expr@), e, ci, c1, c1, self.cursor as int);
                assert(pexpr_spans(prefixed@) == noncode_spans(prefix@) + expr_spans(expr@));
                lemma_embeds_join(old_spans, pexpr_spans(prefixed@), e, s0.cursor as int, ci, ci, self.cursor as int);
            }
            result.push(prefixed);
            let ghost cx = self.cursor as int;

            self.skip_non_code()?;
            match self.peek() {
                Some(Token::RParen) => {
                    proof {
                        lemma_embeds_widen(pexprs_spans(pexprs_model(result@)), e, s0.cursor as int, cx, s0.cursor as int, self.cursor as int);
                    }
                    continue;
                }
                Some(Token::Comma) => {
                    self.consume();
                    proof {
                        lemma_embeds_widen(pexprs_spans(pexprs_model(result@)), e, s0.cursor as int, cx, s0.cursor as int, self.cursor as int);
                    }
                    continue;
                },
                _ => {
                    // If we don't find a separator, nor the end of the args,
                    // that's an error. We can report an unmatched bracket
                    // as the problem, because it is: the innermost bracket is
                    // the `(` of this call, and the token is not `)`.
                    self.pop_bracket()?;
                    // The pop fails: the token is not the closing `)`.
                    return Err(None);
                },
            }
        }
    }

    /// Parse sequence elements, up to the closing bracket.
    #[verifier::rlimit(60)]
    #[verifier::spinoff_prover]
    fn parse_seqs(&mut self) -> (r: Step<Vec<Prefixed<SeqElem>>>)
        requires
            old(self).wf(),
        ensures
            final(self).wf(),
            final(self).env() == old(self).env(),
            agrees_step(r, grammar::seqs(old(self).env(), old(self).state(), Seq::empty()).0, |v: Vec<Prefixed<SeqElem>>| pseqs_model(v@)),
            final(self).state() == grammar::seqs(old(self).env(), old(self).state(), Seq::empty()).1,
            grammar::no_retreat(old(self).env(), old(self).state(), final(self).state()),
            r is Ok ==> final(self).state().brackets == old(self).state().brackets,
            r matches Ok(v) ==> forall|i: int| 0 <= i < pseqs_model(v@).len() ==> crate::cst::grouped_seq(#[trigger] pseqs_model(v@)[i].inner),
            old(self).state().cursor <= final(self).state().cursor,
            r matches Ok(v) ==> embeds(pseqs_spans(pseqs_model(v@)), old(self).env(), old(self).state().cursor as int, final(self).state().cursor as int),
        decreases grammar::remaining(old(self).env(), old(self).state()), 5nat,
    {
        let ghost e = self.env();
        let ghost s0 = self.state();
        let mut result: Vec<Prefixed<SeqElem>> = Vec::new();
        proof {
            crate::cst::lemma_models_empty();
            crate::spans::lemma_embeds_empty(e, s0.cursor as int, s0.cursor as int);
        }
        loop
            invariant
                self.wf(),
                self.env() == e,
                e == old(self).env(),
                grammar::seqs(e, self.state(), pseqs_model(result@)) == grammar::seqs(
                    e,
                    s0,
                    Seq::empty(),
                ),
                forall|i: int|
                    0 <= i < pseqs_model(result@).len() ==> crate::cst::grouped_seq(
                        #[trigger] pseqs_model(result@)[i].inner,
                    ),
                grammar::no_retreat(e, s0, self.state()),
                self.state().brackets == s0.brackets,
                s0 == old(self).state(),
                s0.cursor <= self.cursor,
                embeds(pseqs_spans(pseqs_model(result@)), e, s0.cursor as int, self.cursor as int),
            decreases grammar::remaining(self.env(), self.state()),
        {
            let ghost ci = self.cursor as int;
            let prefix = self.parse_non_code();
            let ghost c1 = self.cursor as int;
            if matches!(self.peek(), Some(Token::RBrace) | Some(Token::RBracket)) {
                proof {
                    lemma_embeds_widen(pseqs_spans(pseqs_model(result@)), e, s0.cursor as int, ci, s0.cursor as int, self.cursor as int);
                }
                return Ok(result);
            }

            let seq = self.parse_seq()?;
            let expected_terminator = match seq {
                SeqElem::Elem { .. } => Token::Comma,
                SeqElem::AssocExpr { .. } => Token::Comma,
                SeqElem::AssocIdent { .. } => Token::Semicolon,
                SeqElem::Let { .. } => Token::Comma,
                SeqElem::For { .. } => Token::Comma,
                SeqElem::If { .. } => Token::Comma,
            };

            let prefixed = Prefixed { prefix, inner: seq };
            proof {
                crate::cst::lemma_pseqs_model_push(result@, prefixed);
                crate::spans::lemma_pseqs_spans_push(pseqs_model(result@), prefixed@);
                let old_spans = pseqs_spans(pseqs_model(result@));
                lemma_embeds_join(noncode_spans(prefix@), seq_spans(seq@), e, ci, c1, c1, self.cursor as int);
                assert(pseq_spans(prefixed@) == noncode_spans(prefix@) + seq_spans(seq@));
                lemma_embeds_join(old_spans, pseq_spans(prefixed@), e, s0.cursor as int, ci, ci, self.cursor as int);
            }
            result.push(prefixed);
            let ghost cx = self.cursor as int;

            self.skip_non_code()?;
            let next = self.peek();
            let is_expected = match next {
                Some(t) => t == expected_terminator,
                None => false,
            };
            if matches!(next, Some(Token::RBrace) | Some(Token::RBracket)) {
                proof {
                    lemma_embeds_widen(pseqs_spans(pseqs_model(result@)), e, s0.cursor as int, cx, s0.cursor as int, self.cursor as int);
                }
                continue;
            } else if is_expected {
                self.consume();
                proof {
                    lemma_embeds_widen(pseqs_spans(pseqs_model(result@)), e, s0.cursor as int, cx, s0.cursor as int, self.cursor as int);
                }
                continue;
            } else if matches!(next, Some(Token::Semicolon)) && expected_terminator == Token::Comma {
                return self.error("Expected a ',' rather than a ';' here.");
            } else if matches!(next, Some(Token::Comma)) && expected_terminator == Token::Semicolon {
                return self.error("Expected a ';' rather than a ',' here.");
            } else {
                // If we don't find a separator, nor the end of the collection
                // literal, that's an error. We can report an unmatched bracket
                // as the problem, because it is. The pop will fail.
                self.pop_bracket()?;
                // The pop fails: the token is not the closing bracket.
                return Err(None);
            }
        }
    }

    /// Parse a sequence element preceded by non-code, inside the parser.
    fn step_prefixed_seq(&mut self) -> (r: Step<Prefixed<SeqElem>>)
        requires
            old(self).wf(),
        ensures
            final(self).wf(),
            final(self).env() == old(self).env(),
            agrees_step(r, grammar::prefixed_seq(old(self).env(), old(self).state()).0, |p: Prefixed<SeqElem>| p@),
            final(self).state() == grammar::prefixed_seq(old(self).env(), old(self).state()).1,
            grammar::no_retreat(old(self).env(), old(self).state(), final(self).state()),
            r is Ok ==> grammar::progressed(old(self).env(), old(self).state(), final(self).state()),
            r is Ok ==> final(self).state().brackets == old(self).state().brackets,
            r matches Ok(v) ==> crate::cst::grouped_seq(v.inner@),
            old(self).state().cursor <= final(self).state().cursor,
            r matches Ok(v) ==> embeds(pseq_spans(v@), old(self).env(), old(self).state().cursor as int, final(self).state().cursor as int),
        decreases grammar::remaining(old(self).env(), old(self).state()), 5nat,
    {
        let ghost c0 = self.cursor as int;
        let prefix = self.parse_non_code();
        let ghost c1 = self.cursor as int;
        let inner = self.parse_seq()?;
        let result = Prefixed { prefix, inner };
        proof {
            lemma_embeds_join(noncode_spans(prefix@), seq_spans(inner@), self.env(), c0, c1, c1, self.cursor as int);
            assert(pseq_spans(result@) == noncode_spans(prefix@) + seq_spans(inner@));
        }
        Ok(result)
    }

    /// Parse a sequence element.
    fn parse_seq(&mut self) -> (r: Step<SeqElem>)
        requires
            old(self).wf(),
        ensures
            final(self).wf(),
            final(self).env() == old(self).env(),
            agrees_step(r, grammar::seq(old(self).env(), old(self).state()).0, |x: SeqElem| x@),
            final(self).state() == grammar::seq(old(self).env(), old(self).state()).1,
            grammar::no_retreat(old(self).env(), old(self).state(), final(self).state()),
            r is Ok ==> grammar::progressed(old(self).env(), old(self).state(), final(self).state()),
            r is Ok ==> final(self).state().brackets == old(self).state().brackets,
            r matches Ok(v) ==> crate::cst::grouped_seq(v@),
            old(self).state().cursor <= final(self).state().cursor,
            r matches Ok(v) ==> embeds(seq_spans(v@), old(self).env(), old(self).state().cursor as int, final(self).state().cursor as int),
        decreases grammar::remaining(old(self).env(), old(self).state()), 4nat,
    {
        // Here we have a lookahead of two tokens ... not great if we want to
        // keep the grammar simple, but for making the syntax prettier it is
        // worth some complications to allow { a = b; p = q } notation.
        let next1 = self.peek();
        let next2 = self.peek_n(1);

        match (next1, next2) {
            (Some(Token::Ident), Some(Token::Eq)) => self.parse_seq_assoc_ident(),
            (Some(Token::KwFor), _) => self.parse_seq_for(),
            (Some(Token::KwIf), _) => self.parse_seq_if(),
            // `let` inside a collection is not implemented.
            (Some(Token::KwLet), _) => Err(None),
            _ => {
                let ghost c0 = self.cursor as int;
                let expr = self.parse_expr_op()?;
                let ghost c1 = self.cursor as int;
                self.skip_non_code()?;
                let result = match self.peek() {
                    Some(Token::Colon) => {
                        self.consume();
                        self.skip_non_code()?;
                        let ghost c3 = self.cursor as int;
                        let value = self.parse_expr()?;
                        proof {
                            lemma_embeds_join(expr_spans(expr@), expr_spans(value@), self.env(), c0, c1, c3, self.cursor as int);
                        }
                        let r = SeqElem::AssocExpr { field: Box::new(expr), value: Box::new(value) };
                        assert(seq_spans(r@) == expr_spans(expr@) + expr_spans(value@));
                        r
                    },
                    _ => {
                        proof {
                            lemma_embeds_widen(expr_spans(expr@), self.env(), c0, c1, c0, self.cursor as int);
                        }
                        let r = SeqElem::Elem { value: Box::new(expr) };
                        assert(seq_spans(r@) == expr_spans(expr@));
                        r
                    },
                };
                Ok(result)
            },
        }
    }

    /// Parse `field = value`.
    fn parse_seq_assoc_ident(&mut self) -> (r: Step<SeqElem>)
        requires
            old(self).wf(),
            old(self).cursor < old(self).tokens@.len(),
        ensures
            final(self).wf(),
            final(self).env() == old(self).env(),
            agrees_step(r, grammar::assoc_ident(old(self).env(), old(self).state()).0, |x: SeqElem| x@),
            final(self).state() == grammar::assoc_ident(old(self).env(), old(self).state()).1,
            grammar::no_retreat(old(self).env(), old(self).state(), final(self).state()),
            r is Ok ==> grammar::progressed(old(self).env(), old(self).state(), final(self).state()),
            r is Ok ==> final(self).state().brackets == old(self).state().brackets,
            r matches Ok(v) ==> crate::cst::grouped_seq(v@),
            old(self).state().cursor <= final(self).state().cursor,
            r matches Ok(v) ==> embeds(seq_spans(v@), old(self).env(), old(self).state().cursor as int, final(self).state().cursor as int),
        decreases grammar::remaining(old(self).env(), old(self).state()), 0nat,
    {
        let ghost c0 = self.cursor as int;
        let ident = self.consume();

        self.skip_non_code()?;
        self.parse_token(Token::Eq, "Expected '=' here.")?;

        self.skip_non_code()?;
        let ghost cv = self.cursor as int;
        let value = self.parse_expr()?;

        let result = SeqElem::AssocIdent { field: ident, value: Box::new(value) };
        proof {
            lemma_embeds_token(self.env(), c0);
            lemma_embeds_join(seq![ident], expr_spans(value@), self.env(), c0, c0 + 1, cv, self.cursor as int);
            assert(seq_spans(result@) == seq![ident] + expr_spans(value@));
        }

        Ok(result)
    }

    /// Parse `for idents in collection: body`.
    #[verifier::rlimit(60)]
    #[verifier::spinoff_prover]
    fn parse_seq_for(&mut self) -> (r: Step<SeqElem>)
        requires
            old(self).wf(),
            old(self).cursor < old(self).tokens@.len(),
        ensures
            final(self).wf(),
            final(self).env() == old(self).env(),
            agrees_step(r, grammar::seq_for(old(self).env(), old(self).state()).0, |x: SeqElem| x@),
            final(self).state() == grammar::seq_for(old(self).env(), old(self).state()).1,
            grammar::no_retreat(old(self).env(), old(self).state(), final(self).state()),
            r is Ok ==> grammar::progressed(old(self).env(), old(self).state(), final(self).state()),
            r is Ok ==> final(self).state().brackets == old(self).state().brackets,
            r matches Ok(v) ==> crate::cst::grouped_seq(v@),
            old(self).state().cursor <= final(self).state().cursor,
            r matches Ok(v) ==> embeds(seq_spans(v@), old(self).env(), old(self).state().cursor as int, final(self).state().cursor as int),
        decreases grammar::remaining(old(self).env(), old(self).state()), 0nat,
    {
        let _for = self.consume();
        let ghost e = self.env();
        let ghost s1 = self.state();

        // Parse the loop variables. Here a trailing comma is not allowed.
        let mut idents: Vec<Span> = Vec::new();
        proof {
            crate::spans::lemma_embeds_empty(e, s1.cursor as int, s1.cursor as int);
        }
        loop
            invariant_except_break
                self.wf(),
                self.env() == e,
                e == old(self).env(),
                grammar::for_idents(e, self.state(), idents@) == grammar::for_idents(
                    e,
                    s1,
                    Seq::empty(),
                ),
                grammar::no_retreat(e, s1, self.state()),
                self.state().brackets == s1.brackets,
                s1 == grammar::advance(old(self).state()),
                old(self).state().cursor < e.tokens.len(),
                s1.cursor <= self.cursor,
                embeds(idents@, e, s1.cursor as int, self.cursor as int),
            ensures
                self.wf(),
                self.env() == e,
                e == old(self).env(),
                grammar::for_idents(e, s1, Seq::empty()) == (
                    Outcome::Parsed(idents@),
                    self.state(),
                ),
                grammar::no_retreat(e, s1, self.state()),
                self.state().brackets == s1.brackets,
                s1.cursor <= self.cursor,
                embeds(idents@, e, s1.cursor as int, self.cursor as int),
            decreases grammar::remaining(self.env(), self.state()),
        {
            let ghost ci = self.cursor as int;
            self.skip_non_code()?;
            let ghost cid = self.cursor as int;
            let ident = self.parse_token(Token::Ident, "Expected identifier here.")?;
            let ghost before = idents@;
            proof {
                lemma_embeds_token(e, cid);
                lemma_embeds_join(before, seq![ident], e, s1.cursor as int, ci, cid, cid + 1);
            }
            idents.push(ident);
            assert(idents@ =~= before + seq![ident]);
            let ghost cx = self.cursor as int;

            self.skip_non_code()?;
            match self.peek() {
                Some(Token::Comma) => {
                    self.consume();
                    proof {
                        lemma_embeds_widen(idents@, e, s1.cursor as int, cx, s1.cursor as int, self.cursor as int);
                    }
                    continue;
                },
                _ => {
                    proof {
                        lemma_embeds_widen(idents@, e, s1.cursor as int, cx, s1.cursor as int, self.cursor as int);
                    }
                    break;
                }
            }
        }

        let ghost ce = self.cursor as int;
        self.skip_non_code()?;
        self.parse_token(Token::KwIn, "Expected 'in' here.")?;

        self.skip_non_code()?;
        let ghost cc = self.cursor as int;
        let collection = self.parse_expr()?;
        let ghost cc2 = self.cursor as int;

        self.skip_non_code()?;
        self.parse_token(Token::Colon, "Expected ':' here.")?;

        let ghost cb = self.cursor as int;
        let body = self.step_prefixed_seq()?;

        let result = SeqElem::For { idents, collection: Box::new(collection), body: Box::new(body) };
        proof {
            let i = idents@;
            lemma_embeds_join(i, expr_spans(collection@), e, s1.cursor as int, ce, cc, cc2);
            lemma_embeds_join(i + expr_spans(collection@), pseq_spans(body@), e, s1.cursor as int, cc2, cb, self.cursor as int);
            lemma_embeds_widen(i + expr_spans(collection@) + pseq_spans(body@), e, s1.cursor as int, self.cursor as int, old(self).cursor as int, self.cursor as int);
            assert(seq_spans(result@) == i + expr_spans(collection@) + pseq_spans(body@));
        }

        Ok(result)
    }

    /// Parse `if condition: body`.
    fn parse_seq_if(&mut self) -> (r: Step<SeqElem>)
        requires
            old(self).wf(),
            old(self).cursor < old(self).tokens@.len(),
        ensures
            final(self).wf(),
            final(self).env() == old(self).env(),
            agrees_step(r, grammar::seq_if(old(self).env(), old(self).state()).0, |x: SeqElem| x@),
            final(self).state() == grammar::seq_if(old(self).env(), old(self).state()).1,
            grammar::no_retreat(old(self).env(), old(self).state(), final(self).state()),
            r is Ok ==> grammar::progressed(old(self).env(), old(self).state(), final(self).state()),
            r is Ok ==> final(self).state().brackets == old(self).state().brackets,
            r matches Ok(v) ==> crate::cst::grouped_seq(v@),
            old(self).state().cursor <= final(self).state().cursor,
            r matches Ok(v) ==> embeds(seq_spans(v@), old(self).env(), old(self).state().cursor as int, final(self).state().cursor as int),
        decreases grammar::remaining(old(self).env(), old(self).state()), 0nat,
    {
        let _if = self.consume();

        self.skip_non_code()?;
        let ghost cc = self.cursor as int;
        let condition = self.parse_expr()?;
        let ghost cc2 = self.cursor as int;

        self.skip_non_code()?;
        self.parse_token(Token::Colon, "Expected ':' here.")?;

        let ghost cb = self.cursor as int;
        let body = self.step_prefixed_seq()?;

        let result = SeqElem::If { condition: Box::new(condition), body: Box::new(body) };
        proof {
            lemma_embeds_join(expr_spans(condition@), pseq_spans(body@), self.env(), cc, cc2, cb, self.cursor as int);
            lemma_embeds_widen(expr_spans(condition@) + pseq_spans(body@), self.env(), cc, self.cursor as int, old(self).cursor as int, self.cursor as int);
            assert(seq_spans(result@) == expr_spans(condition@) + pseq_spans(body@));
        }

        Ok(result)
    }
}

} // verus!
