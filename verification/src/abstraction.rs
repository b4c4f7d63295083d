//! Abstraction converts a Concrete Syntax Tree into an Abstract Syntax Tree.
//!
//! It is responsible for a few things:
//!
//! * Forgetting about non-code such as blank lines and comments.
//! * Converting literals in the source code into values in the runtime.
//! * Removing syntactical differences (e.g. converting `k = v;` into `"k": v`).
//!
//! Of the concrete syntax, `let` expressions and brace literals of single
//! elements and `k = v` associations can be abstracted so far.

use crate::ast::{Expr as AExpr, ExprModel as AExprModel, SeqElem as ASeq, SeqElemModel as ASeqModel};
use crate::cst::{Expr as CExpr, ExprModel, Prefixed, PrefixedModel, SeqElem as CSeq, SeqElemModel};
use crate::source::{span_bytes, span_fits, Span};
use vstd::prelude::*;
use vstd::string::StringSliceAdditionalSpecFns;

verus! {

/// The text that `span` covers in the source `src`.
pub open spec fn span_text(src: Seq<u8>, span: Span) -> Seq<char> {
    vstd::utf8::decode_utf8(span_bytes(src, span))
}

/// Whether an expression can be abstracted: it is made of `let` expressions
/// and brace literals whose elements can be abstracted, and its identifiers
/// lie on character boundaries of the source.
pub open spec fn supported_expr(src: Seq<u8>, e: ExprModel) -> bool
    decreases e,
{
    match e {
        ExprModel::Let { ident, value, body } => {
            &&& span_fits(src, ident)
            &&& supported_expr(src, *value)
            &&& supported_expr(src, body.inner)
        },
        ExprModel::BraceLit { elements, .. } => forall|i: int|
            0 <= i < elements.len() ==> supported_seq(src, #[trigger] elements[i].inner),
        _ => false,
    }
}

/// Whether a sequence element can be abstracted: a single element or a
/// `k = v` association.
pub open spec fn supported_seq(src: Seq<u8>, s: SeqElemModel) -> bool
    decreases s,
{
    match s {
        SeqElemModel::Elem { value } => supported_expr(src, *value),
        SeqElemModel::AssocIdent { field, value } => {
            &&& span_fits(src, field)
            &&& supported_expr(src, *value)
        },
        _ => false,
    }
}

/// The abstraction of the concrete expression `c` in the source `src`:
/// `let` keeps its name, value and body; a brace literal becomes a map
/// literal of the abstracted elements, in order. Outside `supported_expr`
/// the value is left unspecified.
pub open spec fn abstraction(src: Seq<u8>, c: ExprModel) -> AExprModel
    decreases c,
{
    match c {
        ExprModel::Let { ident, value, body } => AExprModel::Let(
            span_text(src, ident),
            Box::new(abstraction(src, *value)),
            Box::new(abstraction(src, body.inner)),
        ),
        ExprModel::BraceLit { elements, .. } => AExprModel::MapLit(abstract_elements(src, elements)),
        _ => vstd::pervasive::arbitrary(),
    }
}

/// The abstractions of the elements of a collection literal, in order.
pub open spec fn abstract_elements(src: Seq<u8>, s: Seq<PrefixedModel<SeqElemModel>>) -> Seq<
    ASeqModel,
>
    decreases s,
{
    if s.len() == 0 {
        Seq::empty()
    } else {
        abstract_elements(src, s.subrange(0, s.len() - 1)).push(
            abstract_seq(src, s[s.len() - 1].inner),
        )
    }
}

/// The abstraction of the concrete sequence element `c` in the source
/// `src`: a single element stays one, and `k = v` becomes `"k": v`.
pub open spec fn abstract_seq(src: Seq<u8>, c: SeqElemModel) -> ASeqModel
    decreases c,
{
    match c {
        SeqElemModel::Elem { value } => ASeqModel::Elem(Box::new(abstraction(src, *value))),
        SeqElemModel::AssocIdent { field, value } => ASeqModel::Assoc(
            Box::new(AExprModel::StringLit(span_text(src, field))),
            Box::new(abstraction(src, *value)),
        ),
        _ => vstd::pervasive::arbitrary(),
    }
}

/// `a` and `b` are the same code: they differ at most in the non-code
/// (comments and blank lines) that precedes their parts, and in the spans of
/// their brackets.
pub open spec fn same_code(a: ExprModel, b: ExprModel) -> bool
    decreases a,
{
    match (a, b) {
        (
            ExprModel::Let { ident: i1, value: v1, body: b1 },
            ExprModel::Let { ident: i2, value: v2, body: b2 },
        ) => i1 == i2 && same_code(*v1, *v2) && same_code(b1.inner, b2.inner),
        (
            ExprModel::BraceLit { elements: e1, .. },
            ExprModel::BraceLit { elements: e2, .. },
        ) => {
            &&& e1.len() == e2.len()
            &&& forall|i: int|
                0 <= i < e1.len() ==> same_code_seq(#[trigger] e1[i].inner, e2[i].inner)
        },
        (
            ExprModel::BracketLit { elements: e1, .. },
            ExprModel::BracketLit { elements: e2, .. },
        ) => {
            &&& e1.len() == e2.len()
            &&& forall|i: int|
                0 <= i < e1.len() ==> same_code_seq(#[trigger] e1[i].inner, e2[i].inner)
        },
        (
            ExprModel::Parens { body: b1, .. },
            ExprModel::Parens { body: b2, .. },
        ) => same_code(*b1, *b2),
        (ExprModel::StringLit(s1), ExprModel::StringLit(s2)) => s1 == s2,
        (ExprModel::Var(s1), ExprModel::Var(s2)) => s1 == s2,
        (
            ExprModel::Field { field: f1, inner: n1 },
            ExprModel::Field { field: f2, inner: n2 },
        ) => f1 == f2 && same_code(*n1, *n2),
        (
            ExprModel::Call { function: f1, args: a1, .. },
            ExprModel::Call { function: f2, args: a2, .. },
        ) => {
            &&& same_code(*f1, *f2)
            &&& a1.len() == a2.len()
            &&& forall|i: int| 0 <= i < a1.len() ==> same_code(#[trigger] a1[i].inner, a2[i].inner)
        },
        (
            ExprModel::UnOp { op: p1, op_span: s1, body: b1 },
            ExprModel::UnOp { op: p2, op_span: s2, body: b2 },
        ) => p1 == p2 && s1 == s2 && same_code(*b1, *b2),
        (
            ExprModel::BinOp { op: p1, op_span: s1, lhs: l1, rhs: r1 },
            ExprModel::BinOp { op: p2, op_span: s2, lhs: l2, rhs: r2 },
        ) => p1 == p2 && s1 == s2 && same_code(*l1, *l2) && same_code(*r1, *r2),
        _ => false,
    }
}

/// `a` and `b` are the same code: they differ at most in the non-code that
/// precedes their parts.
pub open spec fn same_code_seq(a: SeqElemModel, b: SeqElemModel) -> bool
    decreases a,
{
    match (a, b) {
        (SeqElemModel::Elem { value: v1 }, SeqElemModel::Elem { value: v2 }) => same_code(*v1, *v2),
        (
            SeqElemModel::AssocExpr { field: f1, value: v1 },
            SeqElemModel::AssocExpr { field: f2, value: v2 },
        ) => same_code(*f1, *f2) && same_code(*v1, *v2),
        (
            SeqElemModel::AssocIdent { field: f1, value: v1 },
            SeqElemModel::AssocIdent { field: f2, value: v2 },
        ) => f1 == f2 && same_code(*v1, *v2),
        (
            SeqElemModel::Let { ident: i1, value: v1, body: b1 },
            SeqElemModel::Let { ident: i2, value: v2, body: b2 },
        ) => i1 == i2 && same_code(*v1, *v2) && same_code_seq(b1.inner, b2.inner),
        (
            SeqElemModel::For { idents: i1, collection: c1, body: b1 },
            SeqElemModel::For { idents: i2, collection: c2, body: b2 },
        ) => i1 == i2 && same_code(*c1, *c2) && same_code_seq(b1.inner, b2.inner),
        (
            SeqElemModel::If { condition: c1, body: b1 },
            SeqElemModel::If { condition: c2, body: b2 },
        ) => same_code(*c1, *c2) && same_code_seq(b1.inner, b2.inner),
        _ => false,
    }
}

/// Abstraction forgets non-code: two expressions that are the same code can
/// both be abstracted or neither, and have the same abstraction.
pub proof fn lemma_abstraction_forgets_non_code(src: Seq<u8>, c1: ExprModel, c2: ExprModel)
    requires
        same_code(c1, c2),
    ensures
        supported_expr(src, c1) == supported_expr(src, c2),
        abstraction(src, c1) == abstraction(src, c2),
    decreases c1,
{
    match (c1, c2) {
        (
            ExprModel::Let { value: v1, body: b1, .. },
            ExprModel::Let { value: v2, body: b2, .. },
        ) => {
            lemma_abstraction_forgets_non_code(src, *v1, *v2);
            lemma_abstraction_forgets_non_code(src, b1.inner, b2.inner);
        },
        (ExprModel::BraceLit { elements: e1, .. }, ExprModel::BraceLit { elements: e2, .. }) => {
            lemma_elements_forget_non_code(src, e1, e2);
            if supported_expr(src, c1) {
                assert forall|i: int| 0 <= i < e2.len() implies supported_seq(
                    src,
                    #[trigger] e2[i].inner,
                ) by {
                    assert(supported_seq(src, e1[i].inner));
                }
            }
            if supported_expr(src, c2) {
                assert forall|i: int| 0 <= i < e1.len() implies supported_seq(
                    src,
                    #[trigger] e1[i].inner,
                ) by {
                    assert(supported_seq(src, e2[i].inner));
                }
            }
        },
        _ => {},
    }
}

/// The elements of two collection literals that are the same code have the
/// same abstractions, and each can be abstracted exactly when the other can.
pub proof fn lemma_elements_forget_non_code(
    src: Seq<u8>,
    e1: Seq<PrefixedModel<SeqElemModel>>,
    e2: Seq<PrefixedModel<SeqElemModel>>,
)
    requires
        e1.len() == e2.len(),
        forall|i: int| 0 <= i < e1.len() ==> same_code_seq(#[trigger] e1[i].inner, e2[i].inner),
    ensures
        abstract_elements(src, e1) == abstract_elements(src, e2),
        forall|i: int|
            0 <= i < e1.len() ==> supported_seq(src, #[trigger] e1[i].inner) == supported_seq(
                src,
                e2[i].inner,
            ),
    decreases e1,
{
    if e1.len() > 0 {
        let n = e1.len() - 1;
        let p1 = e1.subrange(0, n);
        let p2 = e2.subrange(0, n);
        assert forall|i: int| 0 <= i < p1.len() implies same_code_seq(#[trigger] p1[i].inner, p2[i].inner) by {
            assert(p1[i] == e1[i] && p2[i] == e2[i]);
        }
        lemma_elements_forget_non_code(src, p1, p2);
        lemma_seq_abstraction_forgets_non_code(src, e1[n].inner, e2[n].inner);
        assert forall|i: int| 0 <= i < e1.len() implies supported_seq(src, #[trigger] e1[i].inner)
            == supported_seq(src, e2[i].inner) by {
            if i < n {
                assert(p1[i] == e1[i] && p2[i] == e2[i]);
            }
        }
    }
}

/// Abstraction forgets non-code in sequence elements, as in expressions.
pub proof fn lemma_seq_abstraction_forgets_non_code(src: Seq<u8>, c1: SeqElemModel, c2: SeqElemModel)
    requires
        same_code_seq(c1, c2),
    ensures
        supported_seq(src, c1) == supported_seq(src, c2),
        abstract_seq(src, c1) == abstract_seq(src, c2),
    decreases c1,
{
    match (c1, c2) {
        (SeqElemModel::Elem { value: v1 }, SeqElemModel::Elem { value: v2 }) => {
            lemma_abstraction_forgets_non_code(src, *v1, *v2);
        },
        (
            SeqElemModel::AssocIdent { value: v1, .. },
            SeqElemModel::AssocIdent { value: v2, .. },
        ) => {
            lemma_abstraction_forgets_non_code(src, *v1, *v2);
        },
        _ => {},
    }
}

/// Abstract an expression.
pub fn abstract_expr(input: &str, expr: &Prefixed<CExpr>) -> (r: AExpr)
    requires
        supported_expr(input.spec_bytes(), expr.inner@),
    ensures
        r@ == abstraction(input.spec_bytes(), expr.inner@),
{
    Abstractor::new(input).expr(&expr.inner)
}

/// The abstractor can convert CST nodes to AST nodes for a given document.
pub struct Abstractor<'a> {
    input: &'a str,
}

impl<'a> Abstractor<'a> {
    /// The bytes of the document.
    pub closed spec fn source(&self) -> Seq<u8> {
        self.input.spec_bytes()
    }

    /// An abstractor for the document `input`.
    pub fn new(input: &'a str) -> (r: Self)
        ensures
            r.source() == input.spec_bytes(),
    {
        Self { input }
    }

    /// The text of `span` as a string.
    fn text(&self, span: &Span) -> (r: String)
        requires
            span_fits(self.source(), *span),
        ensures
            r@ == span_text(self.source(), *span),
    {
        let s = span.resolve(self.input);
        proof {
            vstd::utf8::encode_utf8_decode_utf8(s@);
        }
        s.to_owned()
    }

    /// Abstract an expression.
    pub fn expr(&self, expr: &CExpr) -> (r: AExpr)
        requires
            supported_expr(self.source(), expr@),
        ensures
            r@ == abstraction(self.source(), expr@),
        decreases expr,
    {
        match expr {
            CExpr::Let { ident, value, body } => {
                assert(crate::cst::pexpr_model(**body).inner == body.inner@);
                AExpr::Let(
                    self.text(ident),
                    Box::new(self.expr(&**value)),
                    Box::new(self.expr(&body.inner)),
                )
            },
            CExpr::BraceLit { elements, .. } => {
                let mut items: Vec<ASeq> = Vec::new();
                proof {
                    crate::cst::lemma_pseqs_model(elements@);
                    assert(decreases_to!(*expr => *elements));
                }
                let n = elements.len();
                for i in 0..n
                    invariant
                        n == elements@.len(),
                        supported_expr(self.source(), expr@),
                        match expr@ {
                            ExprModel::BraceLit { elements: m, .. } => m == crate::cst::pseqs_model(
                                elements@,
                            ),
                            _ => false,
                        },
                        crate::cst::pseqs_model(elements@).len() == n,
                        decreases_to!(*expr => *elements),
                        forall|j: int|
                            0 <= j < n ==> #[trigger] crate::cst::pseqs_model(elements@)[j]
                                == crate::cst::pseq_model(elements@[j]),
                        crate::ast::seqs_model(items@) == abstract_elements(
                            self.source(),
                            crate::cst::pseqs_model(elements@).subrange(0, i as int),
                        ),
                {
                    proof {
                        let m = crate::cst::pseqs_model(elements@);
                        assert(m[i as int].inner == elements@[i as int].inner@);
                        assert(decreases_to!(*elements => elements@));
                        assert(decreases_to!(elements@ => elements@[i as int]));
                        assert(decreases_to!(elements@[i as int] => elements@[i as int].inner));
                    }
                    let item = self.seq(&elements[i].inner);
                    proof {
                        let m = crate::cst::pseqs_model(elements@);
                        crate::ast::lemma_seqs_model_push(items@, item);
                        assert(m.subrange(0, i + 1).subrange(0, i as int) =~= m.subrange(0, i as int));
                    }
                    items.push(item);
                }
                proof {
                    let m = crate::cst::pseqs_model(elements@);
                    assert(m.subrange(0, n as int) =~= m);
                }
                AExpr::MapLit(items)
            },
            // Never taken: `requires` admits only the two forms above.
            _ => AExpr::MapLit(Vec::new()),
        }
    }

    /// Abstract a sequence element.
    pub fn seq(&self, seq: &CSeq) -> (r: ASeq)
        requires
            supported_seq(self.source(), seq@),
        ensures
            r@ == abstract_seq(self.source(), seq@),
        decreases seq,
    {
        match seq {
            CSeq::Elem { value } => {
                let v = self.expr(&**value);
                let r = ASeq::Elem(Box::new(v));
                assert(r@ == ASeqModel::Elem(Box::new(v@)));
                r
            },
            CSeq::AssocIdent { field, value } => {
                // We convert the `key = value` as if it had been written
                // `"key": value` so we can treat them uniformly from here on.
                let key_str = self.text(field);
                let key_expr = AExpr::StringLit(key_str);
                let v = self.expr(&**value);
                let r = ASeq::Assoc(Box::new(key_expr), Box::new(v));
                assert(r@ == ASeqModel::Assoc(Box::new(key_expr@), Box::new(v@)));
                r
            },
            // Never taken: `requires` admits only the two forms above.
            _ => ASeq::Elem(Box::new(AExpr::MapLit(Vec::new()))),
        }
    }
}

} // verus!
