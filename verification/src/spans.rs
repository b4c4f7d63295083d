//! Which source locations a concrete syntax tree records.
//!
//! The spans of a tree, in source order, are spans of tokens that the parser
//! consumed for it, in the order of the tokens.

use crate::cst::{ExprModel, NonCode, PrefixedModel, SeqElemModel};
use crate::grammar::Env;
use crate::source::Span;
use vstd::prelude::*;

verus! {

/// The spans of non-code.
pub open spec fn noncode_spans(s: Seq<NonCode>) -> Seq<Span> {
    s.map_values(
        |n: NonCode|
            match n {
                NonCode::Blank(sp) => sp,
                NonCode::LineComment(sp) => sp,
            },
    )
}

/// The spans that an expression records, in source order.
pub open spec fn expr_spans(e: ExprModel) -> Seq<Span>
    decreases e,
{
    match e {
        ExprModel::Let { ident, value, body } => seq![ident] + expr_spans(*value) + pexpr_spans(
            *body,
        ),
        ExprModel::BraceLit { open, close, elements } => seq![open] + pseqs_spans(elements)
            + seq![close],
        ExprModel::BracketLit { open, close, elements } => seq![open] + pseqs_spans(elements)
            + seq![close],
        ExprModel::Parens { open, close, body } => seq![open] + expr_spans(*body) + seq![close],
        ExprModel::StringLit(s) => seq![s],
        ExprModel::Var(s) => seq![s],
        ExprModel::Field { field, inner } => expr_spans(*inner) + seq![field],
        ExprModel::Call { open, close, function, args } => expr_spans(*function) + seq![open]
            + pexprs_spans(args) + seq![close],
        ExprModel::UnOp { op_span, body, .. } => seq![op_span] + expr_spans(*body),
        ExprModel::BinOp { op_span, lhs, rhs, .. } => expr_spans(*lhs) + seq![op_span]
            + expr_spans(*rhs),
    }
}

/// The spans that a prefixed expression records: its non-code, then the
/// expression.
pub open spec fn pexpr_spans(p: PrefixedModel<ExprModel>) -> Seq<Span>
    decreases p,
{
    noncode_spans(p.prefix) + expr_spans(p.inner)
}

/// The spans of a sequence of prefixed expressions, one after another.
pub open spec fn pexprs_spans(s: Seq<PrefixedModel<ExprModel>>) -> Seq<Span>
    decreases s,
{
    if s.len() == 0 {
        Seq::empty()
    } else {
        pexprs_spans(s.subrange(0, s.len() - 1)) + pexpr_spans(s[s.len() - 1])
    }
}

/// The spans that a sequence element records, in source order.
pub open spec fn seq_spans(e: SeqElemModel) -> Seq<Span>
    decreases e,
{
    match e {
        SeqElemModel::Elem { value } => expr_spans(*value),
        SeqElemModel::AssocExpr { field, value } => expr_spans(*field) + expr_spans(*value),
        SeqElemModel::AssocIdent { field, value } => seq![field] + expr_spans(*value),
        SeqElemModel::Let { ident, value, body } => seq![ident] + expr_spans(*value) + pseq_spans(
            *body,
        ),
        SeqElemModel::For { idents, collection, body } => idents + expr_spans(*collection)
            + pseq_spans(*body),
        SeqElemModel::If { condition, body } => expr_spans(*condition) + pseq_spans(*body),
    }
}

/// The spans that a prefixed sequence element records.
pub open spec fn pseq_spans(p: PrefixedModel<SeqElemModel>) -> Seq<Span>
    decreases p,
{
    noncode_spans(p.prefix) + seq_spans(p.inner)
}

/// The spans of a sequence of prefixed sequence elements.
pub open spec fn pseqs_spans(s: Seq<PrefixedModel<SeqElemModel>>) -> Seq<Span>
    decreases s,
{
    if s.len() == 0 {
        Seq::empty()
    } else {
        pseqs_spans(s.subrange(0, s.len() - 1)) + pseq_spans(s[s.len() - 1])
    }
}

/// `idx` shows that `spans` are the spans of tokens at increasing indices in
/// `lo..hi`.
pub open spec fn picks(spans: Seq<Span>, e: Env, lo: int, hi: int, idx: Seq<int>) -> bool {
    &&& idx.len() == spans.len()
    &&& forall|k: int|
        0 <= k < idx.len() ==> lo <= #[trigger] idx[k] < hi && 0 <= idx[k] < e.tokens.len()
            && e.tokens[idx[k]].1 == spans[k]
    &&& forall|k: int, l: int| 0 <= k < l < idx.len() ==> #[trigger] idx[k] < #[trigger] idx[l]
}

/// `spans` are the spans of some of the tokens in `lo..hi`, in the order of
/// the tokens.
pub open spec fn embeds(spans: Seq<Span>, e: Env, lo: int, hi: int) -> bool {
    exists|idx: Seq<int>| picks(spans, e, lo, hi, idx)
}

/// No spans are embedded anywhere.
pub proof fn lemma_embeds_empty(e: Env, lo: int, hi: int)
    ensures
        embeds(Seq::empty(), e, lo, hi),
{
    assert(picks(Seq::empty(), e, lo, hi, Seq::empty()));
}

/// The span of one token is embedded at its index.
pub proof fn lemma_embeds_token(e: Env, i: int)
    requires
        0 <= i < e.tokens.len(),
    ensures
        embeds(seq![e.tokens[i].1], e, i, i + 1),
{
    assert(picks(seq![e.tokens[i].1], e, i, i + 1, seq![i]));
}

/// Spans embedded in a range are embedded in a wider one.
pub proof fn lemma_embeds_widen(s: Seq<Span>, e: Env, lo: int, hi: int, lo2: int, hi2: int)
    requires
        embeds(s, e, lo, hi),
        lo2 <= lo,
        hi <= hi2,
    ensures
        embeds(s, e, lo2, hi2),
{
    let idx = choose|idx: Seq<int>| picks(s, e, lo, hi, idx);
    assert(picks(s, e, lo2, hi2, idx));
}

/// Spans embedded in two adjacent ranges are, one after the other, embedded
/// in their union.
pub proof fn lemma_embeds_concat(a: Seq<Span>, b: Seq<Span>, e: Env, lo: int, mid: int, hi: int)
    requires
        embeds(a, e, lo, mid),
        embeds(b, e, mid, hi),
        lo <= mid <= hi,
    ensures
        embeds(a + b, e, lo, hi),
{
    let ia = choose|idx: Seq<int>| picks(a, e, lo, mid, idx);
    let ib = choose|idx: Seq<int>| picks(b, e, mid, hi, idx);
    let idx = ia + ib;
    assert forall|k: int| 0 <= k < idx.len() implies lo <= #[trigger] idx[k] < hi && 0 <= idx[k]
        < e.tokens.len() && e.tokens[idx[k]].1 == (a + b)[k] by {
        if k < ia.len() {
            assert(idx[k] == ia[k]);
            assert((a + b)[k] == a[k]);
            assert(lo <= ia[k] < mid);
            assert(0 <= ia[k] < e.tokens.len());
            assert(e.tokens[ia[k]].1 == a[k]);
        } else {
            assert(idx[k] == ib[k - ia.len()]);
            assert((a + b)[k] == b[k - ia.len()]);
            assert(mid <= ib[k - ia.len()] < hi);
            assert(e.tokens[ib[k - ia.len()]].1 == b[k - ia.len()]);
        }
    }
    assert forall|k: int, l: int| 0 <= k < l < idx.len() implies #[trigger] idx[k]
        < #[trigger] idx[l] by {
        if l < ia.len() {
            assert(idx[k] == ia[k] && idx[l] == ia[l]);
        } else if k >= ia.len() {
            assert(idx[k] == ib[k - ia.len()] && idx[l] == ib[l - ia.len()]);
        } else {
            assert(idx[k] == ia[k] && idx[l] == ib[l - ia.len()]);
            assert(ia[k] < mid && mid <= ib[l - ia.len()]);
        }
    }
    assert(picks(a + b, e, lo, hi, idx));
}

/// Spans embedded in a range, and spans embedded in a later range, are one
/// after the other embedded from the start of the first to the end of the
/// second.
pub proof fn lemma_embeds_join(
    a: Seq<Span>,
    b: Seq<Span>,
    e: Env,
    lo: int,
    m1: int,
    m2: int,
    hi: int,
)
    requires
        embeds(a, e, lo, m1),
        embeds(b, e, m2, hi),
        lo <= m1 <= m2 <= hi,
    ensures
        embeds(a + b, e, lo, hi),
{
    lemma_embeds_widen(b, e, m2, hi, m1, hi);
    lemma_embeds_concat(a, b, e, lo, m1, hi);
}

/// Appending an expression appends its spans.
pub proof fn lemma_pexprs_spans_push(s: Seq<PrefixedModel<ExprModel>>, p: PrefixedModel<ExprModel>)
    ensures
        pexprs_spans(s.push(p)) == pexprs_spans(s) + pexpr_spans(p),
{
    assert(s.push(p).subrange(0, s.len() as int) =~= s);
}

/// Appending a sequence element appends its spans.
pub proof fn lemma_pseqs_spans_push(
    s: Seq<PrefixedModel<SeqElemModel>>,
    p: PrefixedModel<SeqElemModel>,
)
    ensures
        pseqs_spans(s.push(p)) == pseqs_spans(s) + pseq_spans(p),
{
    assert(s.push(p).subrange(0, s.len() as int) =~= s);
}

/// Appending non-code appends its span.
pub proof fn lemma_noncode_spans_push(s: Seq<NonCode>, n: NonCode, sp: Span)
    requires
        n == NonCode::Blank(sp) || n == NonCode::LineComment(sp),
    ensures
        noncode_spans(s.push(n)) == noncode_spans(s) + seq![sp],
{
    assert(noncode_spans(s.push(n)) =~= noncode_spans(s) + seq![sp]);
}

} // verus!
