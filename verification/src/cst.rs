//! The Concrete Syntax Tree: what the parser produces.
//!
//! The tree records the spans of the tokens that make up each node, and the
//! comments and blank lines that precede expressions and sequence elements.
//! Each tree type has a mathematical model (its view), in which vectors
//! become sequences; the parser's contracts are stated over these models.

use crate::source::Span;
use vstd::prelude::*;

verus! {

/// A binary operator.
#[derive(Clone, Copy, Debug, PartialEq, Eq, Structural)]
pub enum BinOp {
    /// `|`, the union of two collections.
    Union,
    /// `+`, addition.
    Add,
}

/// A unary operator.
#[derive(Clone, Copy, Debug, PartialEq, Eq, Structural)]
pub enum UnOp {
    /// `not`, negation.
    Neg,
}

/// Source text that is not code, but that is preserved in the tree.
#[derive(Clone, Copy, Debug, PartialEq, Eq, Structural)]
pub enum NonCode {
    /// A blank line.
    Blank(Span),
    /// A line comment.
    LineComment(Span),
}

/// A node, preceded by the non-code that came before it.
#[derive(Debug)]
pub struct Prefixed<T> {
    pub prefix: Vec<NonCode>,
    pub inner: T,
}

/// An expression.
#[derive(Debug)]
pub enum Expr {
    /// `let ident = value; body`.
    Let { ident: Span, value: Box<Expr>, body: Box<Prefixed<Expr>> },
    /// A collection literal in braces.
    BraceLit { open: Span, close: Span, elements: Vec<Prefixed<SeqElem>> },
    /// A collection literal in square brackets.
    BracketLit { open: Span, close: Span, elements: Vec<Prefixed<SeqElem>> },
    /// An expression in parentheses.
    Parens { open: Span, close: Span, body: Box<Expr> },
    /// A string literal.
    StringLit(Span),
    /// A variable.
    Var(Span),
    /// A field access, `inner.field`.
    Field { field: Span, inner: Box<Expr> },
    /// A function call, `function(args)`.
    Call { open: Span, close: Span, function: Box<Expr>, args: Vec<Prefixed<Expr>> },
    /// A unary operator applied to an expression.
    UnOp { op: UnOp, op_span: Span, body: Box<Expr> },
    /// A binary operator applied to two expressions.
    BinOp { op: BinOp, op_span: Span, lhs: Box<Expr>, rhs: Box<Expr> },
}

/// One element of a collection literal.
#[derive(Debug)]
pub enum SeqElem {
    /// A single element.
    Elem { value: Box<Expr> },
    /// `field: value`.
    AssocExpr { field: Box<Expr>, value: Box<Expr> },
    /// `field = value`.
    AssocIdent { field: Span, value: Box<Expr> },
    /// `let ident = value; body`.
    Let { ident: Span, value: Box<Expr>, body: Box<Prefixed<SeqElem>> },
    /// `for idents in collection: body`.
    For { idents: Vec<Span>, collection: Box<Expr>, body: Box<Prefixed<SeqElem>> },
    /// `if condition: body`.
    If { condition: Box<Expr>, body: Box<Prefixed<SeqElem>> },
}

/// The model of a `Prefixed` node.
pub struct PrefixedModel<T> {
    pub prefix: Seq<NonCode>,
    pub inner: T,
}

/// The model of an `Expr`.
pub enum ExprModel {
    Let { ident: Span, value: Box<ExprModel>, body: Box<PrefixedModel<ExprModel>> },
    BraceLit { open: Span, close: Span, elements: Seq<PrefixedModel<SeqElemModel>> },
    BracketLit { open: Span, close: Span, elements: Seq<PrefixedModel<SeqElemModel>> },
    Parens { open: Span, close: Span, body: Box<ExprModel> },
    StringLit(Span),
    Var(Span),
    Field { field: Span, inner: Box<ExprModel> },
    Call { open: Span, close: Span, function: Box<ExprModel>, args: Seq<PrefixedModel<ExprModel>> },
    UnOp { op: UnOp, op_span: Span, body: Box<ExprModel> },
    BinOp { op: BinOp, op_span: Span, lhs: Box<ExprModel>, rhs: Box<ExprModel> },
}

/// The model of a `SeqElem`.
pub enum SeqElemModel {
    Elem { value: Box<ExprModel> },
    AssocExpr { field: Box<ExprModel>, value: Box<ExprModel> },
    AssocIdent { field: Span, value: Box<ExprModel> },
    Let { ident: Span, value: Box<ExprModel>, body: Box<PrefixedModel<SeqElemModel>> },
    For { idents: Seq<Span>, collection: Box<ExprModel>, body: Box<PrefixedModel<SeqElemModel>> },
    If { condition: Box<ExprModel>, body: Box<PrefixedModel<SeqElemModel>> },
}

/// The model of an expression.
pub open spec fn expr_model(e: Expr) -> ExprModel
    decreases e,
{
    match e {
        Expr::Let { ident, value, body } => ExprModel::Let {
            ident,
            value: Box::new(expr_model(*value)),
            body: Box::new(pexpr_model(*body)),
        },
        Expr::BraceLit { open, close, elements } => ExprModel::BraceLit {
            open,
            close,
            elements: pseqs_model(elements@),
        },
        Expr::BracketLit { open, close, elements } => ExprModel::BracketLit {
            open,
            close,
            elements: pseqs_model(elements@),
        },
        Expr::Parens { open, close, body } => ExprModel::Parens {
            open,
            close,
            body: Box::new(expr_model(*body)),
        },
        Expr::StringLit(s) => ExprModel::StringLit(s),
        Expr::Var(s) => ExprModel::Var(s),
        Expr::Field { field, inner } => ExprModel::Field {
            field,
            inner: Box::new(expr_model(*inner)),
        },
        Expr::Call { open, close, function, args } => ExprModel::Call {
            open,
            close,
            function: Box::new(expr_model(*function)),
            args: pexprs_model(args@),
        },
        Expr::UnOp { op, op_span, body } => ExprModel::UnOp {
            op,
            op_span,
            body: Box::new(expr_model(*body)),
        },
        Expr::BinOp { op, op_span, lhs, rhs } => ExprModel::BinOp {
            op,
            op_span,
            lhs: Box::new(expr_model(*lhs)),
            rhs: Box::new(expr_model(*rhs)),
        },
    }
}

/// The model of a prefixed expression.
pub open spec fn pexpr_model(p: Prefixed<Expr>) -> PrefixedModel<ExprModel>
    decreases p,
{
    PrefixedModel { prefix: p.prefix@, inner: expr_model(p.inner) }
}

/// The models of a sequence of prefixed expressions.
pub open spec fn pexprs_model(s: Seq<Prefixed<Expr>>) -> Seq<PrefixedModel<ExprModel>>
    decreases s,
{
    if s.len() == 0 {
        Seq::empty()
    } else {
        pexprs_model(s.subrange(0, s.len() - 1)).push(pexpr_model(s[s.len() - 1]))
    }
}

/// The model of a sequence element.
pub open spec fn seq_model(e: SeqElem) -> SeqElemModel
    decreases e,
{
    match e {
        SeqElem::Elem { value } => SeqElemModel::Elem { value: Box::new(expr_model(*value)) },
        SeqElem::AssocExpr { field, value } => SeqElemModel::AssocExpr {
            field: Box::new(expr_model(*field)),
            value: Box::new(expr_model(*value)),
        },
        SeqElem::AssocIdent { field, value } => SeqElemModel::AssocIdent {
            field,
            value: Box::new(expr_model(*value)),
        },
        SeqElem::Let { ident, value, body } => SeqElemModel::Let {
            ident,
            value: Box::new(expr_model(*value)),
            body: Box::new(pseq_model(*body)),
        },
        SeqElem::For { idents, collection, body } => SeqElemModel::For {
            idents: idents@,
            collection: Box::new(expr_model(*collection)),
            body: Box::new(pseq_model(*body)),
        },
        SeqElem::If { condition, body } => SeqElemModel::If {
            condition: Box::new(expr_model(*condition)),
            body: Box::new(pseq_model(*body)),
        },
    }
}

/// The model of a prefixed sequence element.
pub open spec fn pseq_model(p: Prefixed<SeqElem>) -> PrefixedModel<SeqElemModel>
    decreases p,
{
    PrefixedModel { prefix: p.prefix@, inner: seq_model(p.inner) }
}

/// The models of a sequence of prefixed sequence elements.
pub open spec fn pseqs_model(s: Seq<Prefixed<SeqElem>>) -> Seq<PrefixedModel<SeqElemModel>>
    decreases s,
{
    if s.len() == 0 {
        Seq::empty()
    } else {
        pseqs_model(s.subrange(0, s.len() - 1)).push(pseq_model(s[s.len() - 1]))
    }
}

/// Appending a node appends its model.
pub proof fn lemma_pexprs_model_push(s: Seq<Prefixed<Expr>>, p: Prefixed<Expr>)
    ensures
        pexprs_model(s.push(p)) == pexprs_model(s).push(pexpr_model(p)),
{
    assert(s.push(p).subrange(0, s.len() as int) =~= s);
}

/// Appending a node appends its model.
pub proof fn lemma_pseqs_model_push(s: Seq<Prefixed<SeqElem>>, p: Prefixed<SeqElem>)
    ensures
        pseqs_model(s.push(p)) == pseqs_model(s).push(pseq_model(p)),
{
    assert(s.push(p).subrange(0, s.len() as int) =~= s);
}

/// The model of a sequence of prefixed expressions is taken element-wise.
pub proof fn lemma_pexprs_model(s: Seq<Prefixed<Expr>>)
    ensures
        pexprs_model(s).len() == s.len(),
        forall|i: int| 0 <= i < s.len() ==> #[trigger] pexprs_model(s)[i] == pexpr_model(s[i]),
    decreases s.len(),
{
    if s.len() > 0 {
        lemma_pexprs_model(s.subrange(0, s.len() - 1));
    }
}

/// The model of a sequence of prefixed sequence elements is taken
/// element-wise.
pub proof fn lemma_pseqs_model(s: Seq<Prefixed<SeqElem>>)
    ensures
        pseqs_model(s).len() == s.len(),
        forall|i: int| 0 <= i < s.len() ==> #[trigger] pseqs_model(s)[i] == pseq_model(s[i]),
    decreases s.len(),
{
    if s.len() > 0 {
        lemma_pseqs_model(s.subrange(0, s.len() - 1));
    }
}

/// The empty sequence has the empty model.
pub proof fn lemma_models_empty()
    ensures
        pexprs_model(Seq::empty()) == Seq::<PrefixedModel<ExprModel>>::empty(),
        pseqs_model(Seq::empty()) == Seq::<PrefixedModel<SeqElemModel>>::empty(),
{
}

/// Whether an expression is an operator application without parentheses.
pub open spec fn is_op(e: ExprModel) -> bool {
    e is UnOp || e is BinOp
}

/// Operators in `e` are never mixed without parentheses: the operand of a
/// unary operator, the right operand of a binary operator, and the function
/// or object of a call or field access are no operator applications, and the
/// left operand of a binary operator is one only with the same operator.
pub open spec fn grouped(e: ExprModel) -> bool
    decreases e,
{
    match e {
        ExprModel::Let { value, body, .. } => grouped(*value) && grouped(body.inner),
        ExprModel::BraceLit { elements, .. } => forall|i: int|
            0 <= i < elements.len() ==> grouped_seq(#[trigger] elements[i].inner),
        ExprModel::BracketLit { elements, .. } => forall|i: int|
            0 <= i < elements.len() ==> grouped_seq(#[trigger] elements[i].inner),
        ExprModel::Parens { body, .. } => grouped(*body),
        ExprModel::StringLit(_) => true,
        ExprModel::Var(_) => true,
        ExprModel::Field { inner, .. } => !is_op(*inner) && grouped(*inner),
        ExprModel::Call { function, args, .. } => {
            &&& !is_op(*function)
            &&& grouped(*function)
            &&& forall|i: int| 0 <= i < args.len() ==> grouped(#[trigger] args[i].inner)
        },
        ExprModel::UnOp { body, .. } => !is_op(*body) && grouped(*body),
        ExprModel::BinOp { op, lhs, rhs, .. } => {
            &&& match *lhs {
                ExprModel::BinOp { op: lhs_op, .. } => lhs_op == op,
                ExprModel::UnOp { .. } => false,
                _ => true,
            }
            &&& !is_op(*rhs)
            &&& grouped(*lhs)
            &&& grouped(*rhs)
        },
    }
}

/// Operators are never mixed without parentheses in the expressions of a
/// sequence element.
pub open spec fn grouped_seq(s: SeqElemModel) -> bool
    decreases s,
{
    match s {
        SeqElemModel::Elem { value } => grouped(*value),
        SeqElemModel::AssocExpr { field, value } => grouped(*field) && grouped(*value),
        SeqElemModel::AssocIdent { value, .. } => grouped(*value),
        SeqElemModel::Let { value, body, .. } => grouped(*value) && grouped_seq(body.inner),
        SeqElemModel::For { collection, body, .. } => grouped(*collection) && grouped_seq(
            body.inner,
        ),
        SeqElemModel::If { condition, body } => grouped(*condition) && grouped_seq(body.inner),
    }
}

impl View for Expr {
    type V = ExprModel;

    open spec fn view(&self) -> ExprModel {
        expr_model(*self)
    }
}

impl View for SeqElem {
    type V = SeqElemModel;

    open spec fn view(&self) -> SeqElemModel {
        seq_model(*self)
    }
}

impl View for Prefixed<Expr> {
    type V = PrefixedModel<ExprModel>;

    open spec fn view(&self) -> PrefixedModel<ExprModel> {
        pexpr_model(*self)
    }
}

impl View for Prefixed<SeqElem> {
    type V = PrefixedModel<SeqElemModel>;

    open spec fn view(&self) -> PrefixedModel<SeqElemModel> {
        pseq_model(*self)
    }
}

} // verus!
