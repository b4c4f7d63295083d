//! Laws of the grammar: how the parse of a construct relates to the parses
//! of its parts, and how far each parse reaches.

use crate::cst::{is_op, BinOp, ExprModel, PrefixedModel, SeqElemModel, UnOp};
use crate::error::ParseError;
use crate::grammar::{
    advance, binop_of, unop_of, seq_if, assoc_ident, op_loop, push, pop_bracket, comprehension_body, expr, expr_let, expr_op, for_idents, lemma_notop_moves,
    lemma_seq_moves, lemma_skip, call_args, non_code, notop, notop_loop, peek, prefixed_expr, seq_for,
    seqs, skip, span_here, term, closes_collection, Env, Outcome, PState,
};
use crate::lexer::Token;
use crate::source::Span;
use vstd::prelude::*;

verus! {

/// Whether a token can start a term.
pub open spec fn starts_term(t: Token) -> bool {
    t == Token::LBrace || t == Token::LBracket || t == Token::LParen || t == Token::DoubleQuoted
        || t == Token::Ident
}

/// A term, with or without suffixes, starts with a token that can start a
/// term.
pub proof fn lemma_notop_starts_with_term(e: Env, s: PState)
    ensures
        term(e, s).0 is Parsed ==> (peek(e, s) matches Some(t) && starts_term(t)),
        notop(e, s).0 is Parsed ==> (peek(e, s) matches Some(t) && starts_term(t)),
{
}

/// An expression starts with a term, `let` or `not`; in particular it does
/// not start with non-code.
pub proof fn lemma_expr_starts_with_code(e: Env, s: PState)
    ensures
        expr(e, s).0 is Parsed ==> (peek(e, s) matches Some(t) && (starts_term(t) || t
            == Token::KwLet || t == Token::KwNot)),
{
    lemma_notop_starts_with_term(e, s);
    lemma_notop_starts_with_term(e, advance(s));
}

/// An operator expression starts with a term or a unary operator.
pub proof fn lemma_expr_op_starts_with_code(e: Env, s: PState)
    ensures
        expr_op(e, s).0 is Parsed ==> (peek(e, s) matches Some(t) && (starts_term(t) || unop_of(
            t,
        ) is Some)),
{
    lemma_notop_starts_with_term(e, s);
}

/// Skipping non-code where the cursor is on code does nothing.
pub proof fn lemma_skip_on_code(e: Env, s: PState)
    requires
        peek(e, s) is None || (peek(e, s) != Some(Token::Blank) && peek(e, s) != Some(
            Token::LineComment,
        )),
    ensures
        skip(e, s) == (Outcome::Parsed(()), s),
{
}

/// Skipping stops on code: after a successful skip the next token is no
/// blank line and no comment.
pub proof fn lemma_skip_stops(e: Env, s: PState)
    ensures
        skip(e, s).0 is Parsed ==> peek(e, skip(e, s).1) != Some(Token::Blank) && peek(
            e,
            skip(e, s).1,
        ) != Some(Token::LineComment),
    decreases crate::grammar::remaining(e, s),
{
    if peek(e, s) == Some(Token::Blank) {
        lemma_skip_stops(e, advance(s));
    }
}

/// Both operands of a binary operator are parsed by one rule: a term with
/// its calls and field accesses. When `x` parses by that rule up to an
/// operator, and `y` after the operator parses by it too, up to a token that
/// is no binary operator, then `x OP y` is the operator applied to the two.
pub proof fn lemma_binop_operands(
    e: Env,
    s: PState,
    lhs: ExprModel,
    s1: PState,
    rhs: ExprModel,
    q: PState,
    op: BinOp,
)
    requires
        notop(e, s) == (Outcome::Parsed(lhs), s1),
        peek(e, s1) matches Some(t) && binop_of(t) == Some(op),
        notop(e, advance(s1)) == (Outcome::Parsed(rhs), q),
        !(peek(e, q) matches Some(u) && binop_of(u) is Some),
    ensures
        expr(e, s) == (
            Outcome::Parsed(
                ExprModel::BinOp {
                    op,
                    op_span: span_here(e, s1),
                    lhs: Box::new(lhs),
                    rhs: Box::new(rhs),
                },
            ),
            q,
        ),
{
    lemma_notop_starts_with_term(e, s);
    lemma_notop_starts_with_term(e, advance(s1));
    lemma_notop_moves(e, s);
    lemma_notop_moves(e, advance(s1));
    lemma_notop_maximal(e, advance(s1));
    lemma_skip_on_code(e, s1);
    lemma_skip_on_code(e, advance(s1));
    lemma_skip_on_code(e, q);
    assert(expr(e, s) == expr_op(e, s));
}

/// A term with suffixes is parsed as far as it goes: after it, the next token
/// is neither a call's `(` nor a field access's `.`, and no comment.
pub proof fn lemma_notop_maximal(e: Env, s: PState)
    ensures
        notop(e, s).0 is Parsed ==> {
            let next = peek(e, notop(e, s).1);
            next != Some(Token::LParen) && next != Some(Token::Dot) && next != Some(
                Token::Blank,
            ) && next != Some(Token::LineComment)
        },
{
    crate::grammar::lemma_term_moves(e, s);
    let (r, s1) = term(e, s);
    if let Outcome::Parsed(t) = r {
        if crate::grammar::no_retreat(e, s, s1) {
            lemma_notop_loop_maximal(e, s1, t);
        }
    }
}

/// The suffix loop of a term stops only where no suffix follows.
pub proof fn lemma_notop_loop_maximal(e: Env, s: PState, lhs: ExprModel)
    ensures
        notop_loop(e, s, lhs).0 is Parsed ==> {
            let next = peek(e, notop_loop(e, s, lhs).1);
            next != Some(Token::LParen) && next != Some(Token::Dot) && next != Some(
                Token::Blank,
            ) && next != Some(Token::LineComment)
        },
    decreases crate::grammar::remaining(e, s),
{
    lemma_skip(e, s);
    let s1 = skip(e, s).1;
    lemma_skip_stops(e, s);
    match peek(e, s1) {
        Some(Token::LParen) => {
            let (open, s2) = crate::grammar::push(e, s1);
            crate::grammar::lemma_call_args_moves(e, s2, Seq::empty());
            let (r1, s3) = crate::grammar::call_args(e, s2, Seq::empty());
            if crate::grammar::no_retreat(e, s2, s3) {
                if let Outcome::Parsed(args) = r1 {
                    let (r2, s4) = crate::grammar::pop_bracket(e, s3);
                    if let Outcome::Parsed(close) = r2 {
                        lemma_notop_loop_maximal(
                            e,
                            s4,
                            ExprModel::Call { open, close, function: Box::new(lhs), args },
                        );
                    }
                }
            }
        },
        Some(Token::Dot) => {
            let s2 = advance(s1);
            lemma_skip(e, s2);
            let s3 = skip(e, s2).1;
            let (r2, s4) = crate::grammar::token(
                e,
                s3,
                Token::Ident,
                "Expected an identifier here.",
            );
            if let Outcome::Parsed(field) = r2 {
                lemma_notop_loop_maximal(e, s4, ExprModel::Field { field, inner: Box::new(lhs) });
            }
        },
        _ => {},
    }
}

/// In a collection literal, an element other than `k = v` is separated from
/// the next by a comma: after such an element and its `,`, parsing goes on
/// with the rest of the elements.
pub proof fn lemma_comma_separates_elements(
    e: Env,
    s: PState,
    acc: Seq<PrefixedModel<SeqElemModel>>,
    item: SeqElemModel,
    s2: PState,
    s3: PState,
)
    requires
        !closes_collection(peek(e, non_code(e, s).1)),
        crate::grammar::seq(e, non_code(e, s).1) == (Outcome::Parsed(item), s2),
        !(item is AssocIdent),
        skip(e, s2) == (Outcome::Parsed(()), s3),
        peek(e, s3) == Some(Token::Comma),
    ensures
        seqs(e, s, acc) == seqs(
            e,
            advance(s3),
            acc.push(PrefixedModel { prefix: non_code(e, s).0, inner: item }),
        ),
{
    lemma_seq_moves(e, non_code(e, s).1);
}

/// In a collection literal, a `k = v` element is separated from the next by
/// a semicolon: after it and its `;`, parsing goes on with the rest.
pub proof fn lemma_semicolon_separates_assignments(
    e: Env,
    s: PState,
    acc: Seq<PrefixedModel<SeqElemModel>>,
    item: SeqElemModel,
    s2: PState,
    s3: PState,
)
    requires
        !closes_collection(peek(e, non_code(e, s).1)),
        crate::grammar::seq(e, non_code(e, s).1) == (Outcome::Parsed(item), s2),
        item is AssocIdent,
        skip(e, s2) == (Outcome::Parsed(()), s3),
        peek(e, s3) == Some(Token::Semicolon),
    ensures
        seqs(e, s, acc) == seqs(
            e,
            advance(s3),
            acc.push(PrefixedModel { prefix: non_code(e, s).0, inner: item }),
        ),
{
    lemma_seq_moves(e, non_code(e, s).1);
}

/// The collection of a `for` comprehension is a whole expression: when the
/// loop variables are followed by `in`, an expression `c`, and a body, the
/// comprehension loops over `c`.
pub proof fn lemma_for_collection_is_expression(
    e: Env,
    s: PState,
    idents: Seq<Span>,
    s2: PState,
    collection: ExprModel,
    q: PState,
    body: PrefixedModel<SeqElemModel>,
    r: PState,
)
    requires
        s.cursor < e.tokens.len(),
        for_idents(e, advance(s), Seq::empty()) == (Outcome::Parsed(idents), s2),
        peek(e, s2) == Some(Token::KwIn),
        expr(e, advance(s2)) == (Outcome::Parsed(collection), q),
        comprehension_body(e, q) == (Outcome::Parsed(body), r),
    ensures
        seq_for(e, s) == (
            Outcome::Parsed(
                SeqElemModel::For {
                    idents,
                    collection: Box::new(collection),
                    body: Box::new(body),
                },
            ),
            r,
        ),
{
    crate::grammar::lemma_for_idents(e, advance(s), Seq::empty());
    lemma_skip_on_code(e, s2);
    lemma_expr_starts_with_code(e, advance(s2));
    lemma_skip_on_code(e, advance(s2));
    crate::grammar::lemma_expr_moves(e, advance(s2));
}

/// The value bound by `let` is a whole expression: in `let x = v; body`,
/// when `v` parses as an expression up to the `;`, the binding has that
/// value.
pub proof fn lemma_let_value_is_expression(
    e: Env,
    s: PState,
    value: ExprModel,
    q: PState,
    body: PrefixedModel<ExprModel>,
    r: PState,
)
    requires
        s.cursor < e.tokens.len(),
        peek(e, advance(s)) == Some(Token::Ident),
        peek(e, advance(advance(s))) == Some(Token::Eq),
        expr(e, advance(advance(advance(s)))) == (Outcome::Parsed(value), q),
        peek(e, q) == Some(Token::Semicolon),
        prefixed_expr(e, advance(q)) == (Outcome::Parsed(body), r),
    ensures
        expr_let(e, s) == (
            Outcome::Parsed(
                ExprModel::Let {
                    ident: span_here(e, advance(s)),
                    value: Box::new(value),
                    body: Box::new(body),
                },
            ),
            r,
        ),
{
    let s3 = advance(advance(advance(s)));
    lemma_skip_on_code(e, advance(s));
    lemma_skip_on_code(e, advance(advance(s)));
    lemma_expr_starts_with_code(e, s3);
    lemma_skip_on_code(e, s3);
    lemma_skip_on_code(e, q);
    crate::grammar::lemma_expr_moves(e, s3);
}

/// The condition of an `if` comprehension is a whole expression.
pub proof fn lemma_if_condition_is_expression(
    e: Env,
    s: PState,
    condition: ExprModel,
    q: PState,
    body: PrefixedModel<SeqElemModel>,
    r: PState,
)
    requires
        s.cursor < e.tokens.len(),
        expr(e, advance(s)) == (Outcome::Parsed(condition), q),
        comprehension_body(e, q) == (Outcome::Parsed(body), r),
    ensures
        seq_if(e, s) == (
            Outcome::Parsed(
                SeqElemModel::If { condition: Box::new(condition), body: Box::new(body) },
            ),
            r,
        ),
{
    lemma_expr_starts_with_code(e, advance(s));
    lemma_skip_on_code(e, advance(s));
    crate::grammar::lemma_expr_moves(e, advance(s));
}

/// The value of `k = v` is a whole expression.
pub proof fn lemma_assignment_value_is_expression(
    e: Env,
    s: PState,
    value: ExprModel,
    q: PState,
)
    requires
        s.cursor < e.tokens.len(),
        peek(e, advance(s)) == Some(Token::Eq),
        expr(e, advance(advance(s))) == (Outcome::Parsed(value), q),
    ensures
        assoc_ident(e, s) == (
            Outcome::Parsed(SeqElemModel::AssocIdent { field: span_here(e, s), value: Box::new(value) }),
            q,
        ),
{
    lemma_skip_on_code(e, advance(s));
    lemma_expr_starts_with_code(e, advance(advance(s)));
    lemma_skip_on_code(e, advance(advance(s)));
}

/// `k: v` associates the operator expression `k` with the whole expression
/// `v`.
pub proof fn lemma_key_value(
    e: Env,
    s: PState,
    key: ExprModel,
    s1: PState,
    value: ExprModel,
    q: PState,
)
    requires
        !(peek(e, s) == Some(Token::Ident) && crate::grammar::peek_at(e, s.cursor + 1int) == Some(
            Token::Eq,
        )),
        expr_op(e, s) == (Outcome::Parsed(key), s1),
        peek(e, s1) == Some(Token::Colon),
        expr(e, advance(s1)) == (Outcome::Parsed(value), q),
    ensures
        crate::grammar::seq(e, s) == (
            Outcome::Parsed(SeqElemModel::AssocExpr { field: Box::new(key), value: Box::new(value) }),
            q,
        ),
{
    lemma_expr_op_starts_with_code(e, s);
    crate::grammar::lemma_expr_op_moves(e, s);
    lemma_skip_on_code(e, s1);
    lemma_expr_starts_with_code(e, advance(s1));
    lemma_skip_on_code(e, advance(s1));
}

/// The operand of a unary operator is a term with its calls and field
/// accesses.
pub proof fn lemma_unary_operand(e: Env, s: PState, op: UnOp, body: ExprModel, q: PState)
    requires
        peek(e, s) matches Some(t) && unop_of(t) == Some(op),
        notop(e, advance(s)) == (Outcome::Parsed(body), q),
    ensures
        expr_op(e, s) == (
            Outcome::Parsed(ExprModel::UnOp { op, op_span: span_here(e, s), body: Box::new(body) }),
            q,
        ),
{
    lemma_notop_starts_with_term(e, advance(s));
    lemma_skip_on_code(e, advance(s));
}

/// An expression in parentheses is a whole expression.
pub proof fn lemma_parenthesized(e: Env, s: PState, body: ExprModel, q: PState)
    requires
        peek(e, s) == Some(Token::LParen),
        expr(e, push(e, s).1) == (Outcome::Parsed(body), q),
        q.brackets == push(e, s).1.brackets,
        peek(e, q) == Some(Token::RParen),
    ensures
        term(e, s) == (
            Outcome::Parsed(
                ExprModel::Parens { open: span_here(e, s), close: span_here(e, q), body: Box::new(body) },
            ),
            advance(PState { cursor: q.cursor, brackets: q.brackets.drop_last(), anchor: q.anchor }),
        ),
{
}

/// Binary operators of one kind chain to the left: `x OP y OP z` is
/// `(x OP y) OP z`, each operand a term with its suffixes.
pub proof fn lemma_binop_chain(
    e: Env,
    s: PState,
    x: ExprModel,
    s1: PState,
    y: ExprModel,
    s2: PState,
    z: ExprModel,
    q: PState,
    op: BinOp,
)
    requires
        notop(e, s) == (Outcome::Parsed(x), s1),
        peek(e, s1) matches Some(t) && binop_of(t) == Some(op),
        notop(e, advance(s1)) == (Outcome::Parsed(y), s2),
        peek(e, s2) matches Some(t) && binop_of(t) == Some(op),
        notop(e, advance(s2)) == (Outcome::Parsed(z), q),
        !(peek(e, q) matches Some(u) && binop_of(u) is Some),
    ensures
        expr(e, s) == (
            Outcome::Parsed(
                ExprModel::BinOp {
                    op,
                    op_span: span_here(e, s2),
                    lhs: Box::new(
                        ExprModel::BinOp {
                            op,
                            op_span: span_here(e, s1),
                            lhs: Box::new(x),
                            rhs: Box::new(y),
                        },
                    ),
                    rhs: Box::new(z),
                },
            ),
            q,
        ),
{
    lemma_notop_starts_with_term(e, s);
    lemma_notop_starts_with_term(e, advance(s1));
    lemma_notop_starts_with_term(e, advance(s2));
    lemma_notop_moves(e, s);
    lemma_notop_moves(e, advance(s1));
    lemma_notop_moves(e, advance(s2));
    lemma_notop_maximal(e, advance(s1));
    lemma_notop_maximal(e, advance(s2));
    lemma_skip_on_code(e, s1);
    lemma_skip_on_code(e, s2);
    lemma_skip_on_code(e, advance(s1));
    lemma_skip_on_code(e, advance(s2));
    lemma_skip_on_code(e, q);
    assert(expr(e, s) == expr_op(e, s));
}

/// Two different binary operators without parentheses are ambiguous: in
/// `x OP1 y OP2 z` the second operator is an error, with a note at the first.
pub proof fn lemma_mixed_operators_are_ambiguous(
    e: Env,
    s: PState,
    x: ExprModel,
    s1: PState,
    y: ExprModel,
    s2: PState,
    op1: BinOp,
    op2: BinOp,
)
    requires
        notop(e, s) == (Outcome::Parsed(x), s1),
        peek(e, s1) matches Some(t) && binop_of(t) == Some(op1),
        notop(e, advance(s1)) == (Outcome::Parsed(y), s2),
        peek(e, s2) matches Some(t) && binop_of(t) == Some(op2),
        op1 != op2,
    ensures
        expr(e, s) == (
            Outcome::<ExprModel>::Failed(
                ParseError {
                    span: span_here(e, s2),
                    message: "Operator with ambiguous precedence is not allowed here. Add parentheses to clarify.",
                    note: Some(
                        (
                            "Without parenthesis, it is not clear whether this operator would take precedence.",
                            span_here(e, s1),
                        ),
                    ),
                },
            ),
            s2,
        ),
{
    lemma_notop_starts_with_term(e, s);
    lemma_notop_starts_with_term(e, advance(s1));
    lemma_notop_moves(e, s);
    lemma_notop_moves(e, advance(s1));
    lemma_skip_on_code(e, s1);
    lemma_skip_on_code(e, s2);
    lemma_skip_on_code(e, advance(s1));
    assert(expr(e, s) == expr_op(e, s));
}

/// An operator expression is parsed as far as it goes: after it comes no
/// call, field access or non-code, and, unless it started with a unary
/// operator, no binary operator.
pub proof fn lemma_expr_op_maximal(e: Env, s: PState)
    ensures
        expr_op(e, s).0 is Parsed ==> {
            let next = peek(e, expr_op(e, s).1);
            &&& next != Some(Token::LParen)
            &&& next != Some(Token::Dot)
            &&& next != Some(Token::Blank)
            &&& next != Some(Token::LineComment)
            &&& (!(peek(e, s) matches Some(t) && unop_of(t) is Some) ==> !(next matches Some(u)
                && binop_of(u) is Some))
        },
{
    if peek(e, s) matches Some(t) && unop_of(t) is Some {
        let s1 = advance(s);
        lemma_skip(e, s1);
        lemma_notop_maximal(e, skip(e, s1).1);
    } else {
        lemma_notop_maximal(e, s);
        lemma_notop_moves(e, s);
        let (r, s1) = notop(e, s);
        if let Outcome::Parsed(lhs) = r {
            lemma_op_loop_maximal(e, s1, lhs, None, None);
        }
    }
}

/// The operator loop stops only where no operator follows.
pub proof fn lemma_op_loop_maximal(
    e: Env,
    s: PState,
    lhs: ExprModel,
    allowed: Option<BinOp>,
    allowed_span: Option<Span>,
)
    requires
        peek(e, s) != Some(Token::LParen),
        peek(e, s) != Some(Token::Dot),
        peek(e, s) != Some(Token::Blank),
        peek(e, s) != Some(Token::LineComment),
    ensures
        op_loop(e, s, lhs, allowed, allowed_span).0 is Parsed ==> {
            let next = peek(e, op_loop(e, s, lhs, allowed, allowed_span).1);
            &&& next != Some(Token::LParen)
            &&& next != Some(Token::Dot)
            &&& next != Some(Token::Blank)
            &&& next != Some(Token::LineComment)
            &&& !(next matches Some(u) && binop_of(u) is Some)
        },
    decreases crate::grammar::remaining(e, s),
{
    lemma_skip_on_code(e, s);
    if peek(e, s) matches Some(t) && binop_of(t) is Some {
        let op = binop_of(peek(e, s).unwrap()).unwrap();
        if allowed.is_none() || allowed == Some(op) {
            let s2 = advance(s);
            lemma_skip(e, s2);
            let s3 = skip(e, s2).1;
            lemma_notop_moves(e, s3);
            lemma_notop_maximal(e, s3);
            let (r2, s4) = notop(e, s3);
            if crate::grammar::no_retreat(e, s3, s4) {
                if let Outcome::Parsed(rhs) = r2 {
                    lemma_op_loop_maximal(
                        e,
                        s4,
                        ExprModel::BinOp {
                            op,
                            op_span: span_here(e, s),
                            lhs: Box::new(lhs),
                            rhs: Box::new(rhs),
                        },
                        Some(op),
                        Some(span_here(e, s)),
                    );
                }
            }
        }
    }
}

/// The arguments of a call are whole expressions separated by commas: after
/// an argument and its `,`, parsing goes on with the rest of the arguments.
pub proof fn lemma_call_arguments_are_expressions(
    e: Env,
    s: PState,
    acc: Seq<PrefixedModel<ExprModel>>,
    arg: ExprModel,
    s2: PState,
)
    requires
        peek(e, non_code(e, s).1) != Some(Token::RParen),
        expr(e, non_code(e, s).1) == (Outcome::Parsed(arg), s2),
        peek(e, s2) == Some(Token::Comma),
    ensures
        call_args(e, s, acc) == call_args(
            e,
            advance(s2),
            acc.push(PrefixedModel { prefix: non_code(e, s).0, inner: arg }),
        ),
{
    crate::grammar::lemma_expr_moves(e, non_code(e, s).1);
    lemma_skip_on_code(e, s2);
}

/// The last argument of a call is a whole expression, followed by `)`.
pub proof fn lemma_last_call_argument(
    e: Env,
    s: PState,
    acc: Seq<PrefixedModel<ExprModel>>,
    arg: ExprModel,
    s2: PState,
)
    requires
        peek(e, non_code(e, s).1) != Some(Token::RParen),
        expr(e, non_code(e, s).1) == (Outcome::Parsed(arg), s2),
        peek(e, s2) == Some(Token::RParen),
    ensures
        call_args(e, s, acc) == (
            Outcome::Parsed(acc.push(PrefixedModel { prefix: non_code(e, s).0, inner: arg })),
            non_code(e, s2).1,
        ),
{
    crate::grammar::lemma_expr_moves(e, non_code(e, s).1);
    lemma_skip_on_code(e, s2);
    let acc2 = acc.push(PrefixedModel { prefix: non_code(e, s).0, inner: arg });
    assert(call_args(e, s2, acc2) == (Outcome::Parsed(acc2), non_code(e, s2).1));
}

/// The loop variables of a `for` are identifiers separated by commas: an
/// identifier followed by `,` is one of them, and more follow.
pub proof fn lemma_for_idents_continue(e: Env, s: PState, acc: Seq<Span>)
    requires
        peek(e, s) == Some(Token::Ident),
        peek(e, advance(s)) == Some(Token::Comma),
    ensures
        for_idents(e, s, acc) == for_idents(e, advance(advance(s)), acc.push(span_here(e, s))),
{
    lemma_skip_on_code(e, s);
    lemma_skip_on_code(e, advance(s));
}

/// An identifier followed by code other than `,` is the last loop variable.
pub proof fn lemma_for_idents_last(e: Env, s: PState, acc: Seq<Span>)
    requires
        peek(e, s) == Some(Token::Ident),
        peek(e, advance(s)) != Some(Token::Comma),
        peek(e, advance(s)) != Some(Token::Blank),
        peek(e, advance(s)) != Some(Token::LineComment),
    ensures
        for_idents(e, s, acc) == (Outcome::Parsed(acc.push(span_here(e, s))), advance(s)),
{
    lemma_skip_on_code(e, s);
    lemma_skip_on_code(e, advance(s));
}

} // verus!
