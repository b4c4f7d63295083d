//! The Abstract Syntax Tree.

pub use crate::cst::{BinOp, UnOp};
use vstd::prelude::*;

verus! {

/// An identifier.
pub type Ident = String;

/// An expression.
#[derive(Debug)]
pub enum Expr {
    /// A map or set literal, depending on the element types.
    MapLit(Vec<SeqElem>),
    /// A list literal.
    ListLit(Vec<SeqElem>),
    /// A string literal.
    StringLit(String),
    /// An conditional choice (if, then, else).
    IfThenElse(Box<Expr>, Box<Expr>, Box<Expr>),
    /// Access a variable.
    Var(Ident),
    /// Access a field or key.
    Field(Ident, Box<Expr>),
    /// A let-binding. First is the bound value, then the result expression.
    Let(Ident, Box<Expr>, Box<Expr>),
    /// Call a function.
    Call(Box<Expr>, Vec<Expr>),
    /// Define a function.
    Lam(Vec<Ident>, Box<Expr>),
    /// Apply a unary operator.
    UnOp(UnOp, Box<Expr>),
    /// Apply a binary operator.
    BinOp(BinOp, Box<Expr>, Box<Expr>),
}

/// One or more elements of a sequence.
#[derive(Debug)]
pub enum SeqElem {
    /// A single element.
    Elem(Box<Expr>),
    /// A `key: value` mapping.
    Assoc(Box<Expr>, Box<Expr>),
    /// A comprehension that loops over the collection.
    For { collection: Box<Expr>, elements: Vec<Ident>, body: Box<SeqElem> },
    /// Enter the loop only if the condition is true.
    If { condition: Box<Expr>, body: Box<SeqElem> },
    /// Let in the middle of a comprehension.
    ///
    /// This is syntactically different from a let before an expression, because
    /// associations are not first-class values.
    Let { name: Ident, value: Box<Expr>, body: Box<SeqElem> },
}

/// The model of an `Expr`: strings become sequences of characters, vectors
/// become sequences.
pub enum ExprModel {
    MapLit(Seq<SeqElemModel>),
    ListLit(Seq<SeqElemModel>),
    StringLit(Seq<char>),
    IfThenElse(Box<ExprModel>, Box<ExprModel>, Box<ExprModel>),
    Var(Seq<char>),
    Field(Seq<char>, Box<ExprModel>),
    Let(Seq<char>, Box<ExprModel>, Box<ExprModel>),
    Call(Box<ExprModel>, Seq<ExprModel>),
    Lam(Seq<Seq<char>>, Box<ExprModel>),
    UnOp(UnOp, Box<ExprModel>),
    BinOp(BinOp, Box<ExprModel>, Box<ExprModel>),
}

/// The model of a `SeqElem`.
pub enum SeqElemModel {
    Elem(Box<ExprModel>),
    Assoc(Box<ExprModel>, Box<ExprModel>),
    For { collection: Box<ExprModel>, elements: Seq<Seq<char>>, body: Box<SeqElemModel> },
    If { condition: Box<ExprModel>, body: Box<SeqElemModel> },
    Let { name: Seq<char>, value: Box<ExprModel>, body: Box<SeqElemModel> },
}

/// The models of identifiers.
pub open spec fn idents_model(s: Seq<Ident>) -> Seq<Seq<char>> {
    s.map_values(|i: Ident| i@)
}

/// The model of an expression.
pub open spec fn expr_model(e: Expr) -> ExprModel
    decreases e,
{
    match e {
        Expr::MapLit(items) => ExprModel::MapLit(seqs_model(items@)),
        Expr::ListLit(items) => ExprModel::ListLit(seqs_model(items@)),
        Expr::StringLit(s) => ExprModel::StringLit(s@),
        Expr::IfThenElse(c, t, f) => ExprModel::IfThenElse(
            Box::new(expr_model(*c)),
            Box::new(expr_model(*t)),
            Box::new(expr_model(*f)),
        ),
        Expr::Var(name) => ExprModel::Var(name@),
        Expr::Field(name, inner) => ExprModel::Field(name@, Box::new(expr_model(*inner))),
        Expr::Let(name, value, body) => ExprModel::Let(
            name@,
            Box::new(expr_model(*value)),
            Box::new(expr_model(*body)),
        ),
        Expr::Call(function, args) => ExprModel::Call(
            Box::new(expr_model(*function)),
            exprs_model(args@),
        ),
        Expr::Lam(params, body) => ExprModel::Lam(idents_model(params@), Box::new(expr_model(*body))),
        Expr::UnOp(op, body) => ExprModel::UnOp(op, Box::new(expr_model(*body))),
        Expr::BinOp(op, lhs, rhs) => ExprModel::BinOp(
            op,
            Box::new(expr_model(*lhs)),
            Box::new(expr_model(*rhs)),
        ),
    }
}

/// The models of a sequence of expressions.
pub open spec fn exprs_model(s: Seq<Expr>) -> Seq<ExprModel>
    decreases s,
{
    if s.len() == 0 {
        Seq::empty()
    } else {
        exprs_model(s.subrange(0, s.len() - 1)).push(expr_model(s[s.len() - 1]))
    }
}

/// The model of a sequence element.
pub open spec fn seq_model(e: SeqElem) -> SeqElemModel
    decreases e,
{
    match e {
        SeqElem::Elem(value) => SeqElemModel::Elem(Box::new(expr_model(*value))),
        SeqElem::Assoc(key, value) => SeqElemModel::Assoc(
            Box::new(expr_model(*key)),
            Box::new(expr_model(*value)),
        ),
        SeqElem::For { collection, elements, body } => SeqElemModel::For {
            collection: Box::new(expr_model(*collection)),
            elements: idents_model(elements@),
            body: Box::new(seq_model(*body)),
        },
        SeqElem::If { condition, body } => SeqElemModel::If {
            condition: Box::new(expr_model(*condition)),
            body: Box::new(seq_model(*body)),
        },
        SeqElem::Let { name, value, body } => SeqElemModel::Let {
            name: name@,
            value: Box::new(expr_model(*value)),
            body: Box::new(seq_model(*body)),
        },
    }
}

/// The models of a sequence of sequence elements.
pub open spec fn seqs_model(s: Seq<SeqElem>) -> Seq<SeqElemModel>
    decreases s,
{
    if s.len() == 0 {
        Seq::empty()
    } else {
        seqs_model(s.subrange(0, s.len() - 1)).push(seq_model(s[s.len() - 1]))
    }
}

/// Appending an element appends its model.
pub proof fn lemma_seqs_model_push(s: Seq<SeqElem>, x: SeqElem)
    ensures
        seqs_model(s.push(x)) == seqs_model(s).push(seq_model(x)),
{
    assert(s.push(x).subrange(0, s.len() as int) =~= s);
}

impl View for Expr {
    type V = ExprModel;

    open spec fn view(&self) -> ExprModel {
        expr_model(*self)
    }
}

impl View for SeqElem {
    type V = SeqElemModel;

    open spec fn view(&self) -> SeqElemModel {
        seq_model(*self)
    }
}

} // verus!
