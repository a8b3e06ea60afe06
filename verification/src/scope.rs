//! The identifiers that the code of a node uses.
use crate::expand_spec::{
    accumulate_toks, comma_idents, for_loop_toks, index_names, nest_loops_toks, node_code,
    node_terms, product_code, product_expr_toks, summed_axes, term_axes, term_element_toks,
};
use crate::grammar::{SNode, STerm};
use crate::laws::{lemma_occurrences_contains, law_summed_axes};
use crate::text::{index_name, length_name};
use crate::tokens::STok;
use vstd::prelude::*;

verus! {

/// Every identifier of the token, inside groups too, satisfies `p`.
pub open spec fn tok_idents_all(t: STok, p: spec_fn(Seq<char>) -> bool) -> bool
    decreases t,
{
    match t {
        STok::Ident(x) => p(x),
        STok::Group(_, inner) => forall|i: int|
            0 <= i < inner.len() ==> tok_idents_all(#[trigger] inner[i], p),
        _ => true,
    }
}

/// Every identifier of the tokens, inside groups too, satisfies `p`.
pub open spec fn idents_all(ts: Seq<STok>, p: spec_fn(Seq<char>) -> bool) -> bool {
    forall|i: int| 0 <= i < ts.len() ==> tok_idents_all(#[trigger] ts[i], p)
}

/// The fixed words that the code of a node writes.
pub open spec fn code_word(x: Seq<char>) -> bool {
    ||| x == "let"@
    ||| x == "mut"@
    ||| x == "term_product_accum"@
    ||| x == "for"@
    ||| x == "in"@
    ||| x == "lhs_accum"@
    ||| x == "rhs_accum"@
}

/// `x` is the name of the array of one of the terms.
pub open spec fn names_array(all: Seq<STerm>, x: Seq<char>) -> bool {
    exists|k: int| 0 <= k < all.len() && #[trigger] all[k].name == x
}

/// `x` is the loop variable of an axis of one of the terms.
pub open spec fn names_index(all: Seq<STerm>, x: Seq<char>) -> bool {
    exists|k: int, f: int|
        0 <= k < all.len() && 0 <= f < all[k].fields.len() && x == index_name(
            #[trigger] all[k].fields[f],
        )
}

/// `x` is the length variable of an axis of one of the terms that is not an output axis.
pub open spec fn names_summed_length(all: Seq<STerm>, out: Seq<Seq<char>>, x: Seq<char>) -> bool {
    exists|k: int, f: int|
        0 <= k < all.len() && 0 <= f < all[k].fields.len() && !out.contains(all[k].fields[f])
            && x == length_name(#[trigger] all[k].fields[f])
}

/// An identifier that the code of a node over the terms `all` may use.
pub open spec fn code_ident(all: Seq<STerm>, out: Seq<Seq<char>>, x: Seq<char>) -> bool {
    code_word(x) || names_array(all, x) || names_index(all, x) || names_summed_length(all, out, x)
}

pub proof fn lemma_idents_concat(a: Seq<STok>, b: Seq<STok>, p: spec_fn(Seq<char>) -> bool)
    requires
        idents_all(a, p),
        idents_all(b, p),
    ensures
        idents_all(a + b, p),
{
    assert forall|i: int| 0 <= i < (a + b).len() implies tok_idents_all(#[trigger] (a + b)[i], p) by {
        if i < a.len() {
            assert((a + b)[i] == a[i]);
        } else {
            assert((a + b)[i] == b[i - a.len()]);
        }
    }
}

pub proof fn lemma_comma_idents(xs: Seq<Seq<char>>, p: spec_fn(Seq<char>) -> bool)
    requires
        forall|i: int| 0 <= i < xs.len() ==> p(#[trigger] xs[i]),
    ensures
        idents_all(comma_idents(xs), p),
    decreases xs.len(),
{
    if xs.len() == 1 {
        assert(tok_idents_all(STok::Ident(xs[0]), p));
    } else if xs.len() > 1 {
        let d = xs.drop_last();
        assert forall|i: int| 0 <= i < d.len() implies p(#[trigger] d[i]) by {
            assert(d[i] == xs[i]);
        }
        lemma_comma_idents(d, p);
        assert(tok_idents_all(STok::Ident(xs.last()), p));
        lemma_idents_concat(comma_idents(d), seq![STok::Punct(',', false), STok::Ident(xs.last())], p);
    }
}

/// The terms of `ts` are among `all`.
pub open spec fn terms_among(ts: Seq<STerm>, all: Seq<STerm>) -> bool {
    forall|i: int| 0 <= i < ts.len() ==> all.contains(#[trigger] ts[i])
}

proof fn lemma_term_element(t: STerm, all: Seq<STerm>, out: Seq<Seq<char>>)
    requires
        all.contains(t),
    ensures
        idents_all(term_element_toks(t), |x: Seq<char>| code_ident(all, out, x)),
{
    let p = |x: Seq<char>| code_ident(all, out, x);
    let k = choose|k: int| 0 <= k < all.len() && all[k] == t;
    assert(names_array(all, t.name));
    let xs = index_names(t.fields);
    assert forall|i: int| 0 <= i < xs.len() implies p(#[trigger] xs[i]) by {
        assert(all[k].fields[i] == t.fields[i]);
        assert(names_index(all, xs[i]));
    }
    lemma_comma_idents(xs, p);
    let inner = seq![STok::Group(crate::tokens::Delim::Bracket, comma_idents(xs))];
    assert(tok_idents_all(inner[0], p));
    assert(idents_all(inner, p));
    let toks = term_element_toks(t);
    assert(tok_idents_all(toks[0], p));
    assert(tok_idents_all(toks[1], p));
}

proof fn lemma_product_expr(ts: Seq<STerm>, all: Seq<STerm>, out: Seq<Seq<char>>)
    requires
        terms_among(ts, all),
    ensures
        idents_all(product_expr_toks(ts), |x: Seq<char>| code_ident(all, out, x)),
    decreases ts.len(),
{
    let p = |x: Seq<char>| code_ident(all, out, x);
    if ts.len() == 1 {
        assert(all.contains(ts[0]));
        lemma_term_element(ts[0], all, out);
    } else if ts.len() > 1 {
        let d = ts.drop_last();
        assert forall|i: int| 0 <= i < d.len() implies all.contains(#[trigger] d[i]) by {
            assert(d[i] == ts[i]);
        }
        lemma_product_expr(d, all, out);
        assert(all.contains(ts[ts.len() - 1]));
        lemma_term_element(ts.last(), all, out);
        lemma_idents_concat(product_expr_toks(d), seq![STok::Punct('*', false)], p);
        lemma_idents_concat(
            product_expr_toks(d) + seq![STok::Punct('*', false)],
            term_element_toks(ts.last()),
            p,
        );
    }
}

proof fn lemma_loop_nest(body: Seq<STok>, axes: Seq<Seq<char>>, p: spec_fn(Seq<char>) -> bool)
    requires
        idents_all(body, p),
        p("for"@),
        p("in"@),
        forall|i: int| 0 <= i < axes.len() ==> p(index_name(#[trigger] axes[i])),
        forall|i: int| 0 <= i < axes.len() ==> p(length_name(#[trigger] axes[i])),
    ensures
        idents_all(nest_loops_toks(body, axes), p),
    decreases axes.len(),
{
    if axes.len() > 0 {
        let d = axes.drop_last();
        assert forall|i: int| 0 <= i < d.len() implies p(index_name(#[trigger] d[i])) by {
            assert(d[i] == axes[i]);
        }
        assert forall|i: int| 0 <= i < d.len() implies p(length_name(#[trigger] d[i])) by {
            assert(d[i] == axes[i]);
        }
        lemma_loop_nest(body, d, p);
        let inner = nest_loops_toks(body, d);
        let a = axes.last();
        assert(p(index_name(axes[axes.len() - 1])));
        assert(p(length_name(axes[axes.len() - 1])));
        let toks = for_loop_toks(a, inner);
        assert forall|i: int| 0 <= i < toks.len() implies tok_idents_all(#[trigger] toks[i], p) by {
            if i == 7 {
                assert(toks[7] == STok::Group(crate::tokens::Delim::Brace, inner));
            }
        }
    }
}

/// An axis of the terms occurs in one of them.
pub proof fn lemma_term_axes_witness(ts: Seq<STerm>, a: Seq<char>)
    requires
        term_axes(ts).contains(a),
    ensures
        exists|k: int, f: int| 0 <= k < ts.len() && 0 <= f < ts[k].fields.len() && #[trigger] ts[k].fields[f] == a,
    decreases ts.len(),
{
    let prefix = term_axes(ts.drop_last());
    let m = choose|m: int| 0 <= m < term_axes(ts).len() && term_axes(ts)[m] == a;
    if m < prefix.len() {
        assert(prefix[m] == a);
        lemma_term_axes_witness(ts.drop_last(), a);
        let (k, f) = choose|k: int, f: int|
            0 <= k < ts.drop_last().len() && 0 <= f < ts.drop_last()[k].fields.len()
                && #[trigger] ts.drop_last()[k].fields[f] == a;
        assert(ts[k].fields[f] == a);
    } else {
        let f = m - prefix.len();
        assert(ts[ts.len() - 1].fields[f] == a);
    }
}

proof fn lemma_product_code(ts: Seq<STerm>, all: Seq<STerm>, out: Seq<Seq<char>>)
    requires
        terms_among(ts, all),
    ensures
        idents_all(product_code(ts, out), |x: Seq<char>| code_ident(all, out, x)),
{
    let p = |x: Seq<char>| code_ident(all, out, x);
    lemma_product_expr(ts, all, out);
    let head = seq![STok::Ident("term_product_accum"@), STok::Punct('+', true), STok::Punct('=', false)];
    assert(tok_idents_all(head[0], p));
    assert(idents_all(head, p));
    lemma_idents_concat(head, product_expr_toks(ts), p);
    lemma_idents_concat(head + product_expr_toks(ts), seq![STok::Punct(';', false)], p);
    assert(accumulate_toks(ts) == head + product_expr_toks(ts) + seq![STok::Punct(';', false)]);
    let axes = summed_axes(ts, out);
    assert forall|i: int| 0 <= i < axes.len() implies p(index_name(#[trigger] axes[i])) && p(
        length_name(axes[i]),
    ) by {
        let a = axes[i];
        assert(axes.contains(a));
        lemma_occurrences_contains(axes, a);
        law_summed_axes(ts, out, a);
        lemma_term_axes_witness(ts, a);
        let (k, f) = choose|k: int, f: int|
            0 <= k < ts.len() && 0 <= f < ts[k].fields.len() && #[trigger] ts[k].fields[f] == a;
        assert(all.contains(ts[k]));
        let kk = choose|kk: int| 0 <= kk < all.len() && all[kk] == ts[k];
        assert(all[kk].fields[f] == a);
        assert(names_index(all, index_name(a)));
        assert(names_summed_length(all, out, length_name(a)));
    }
    lemma_loop_nest(accumulate_toks(ts), axes, p);
    let start = seq![
        STok::Ident("let"@),
        STok::Ident("mut"@),
        STok::Ident("term_product_accum"@),
        STok::Punct('=', false),
        STok::Lit("0f32"@),
        STok::Punct(';', false),
    ];
    assert(tok_idents_all(start[0], p));
    assert(tok_idents_all(start[1], p));
    assert(tok_idents_all(start[2], p));
    assert(idents_all(start, p));
    let end = seq![STok::Ident("term_product_accum"@)];
    assert(tok_idents_all(end[0], p));
    lemma_idents_concat(start, nest_loops_toks(accumulate_toks(ts), axes), p);
    lemma_idents_concat(start + nest_loops_toks(accumulate_toks(ts), axes), end, p);
}

proof fn lemma_node_code(n: SNode, all: Seq<STerm>, out: Seq<Seq<char>>)
    requires
        terms_among(node_terms(n), all),
    ensures
        idents_all(node_code(n, out), |x: Seq<char>| code_ident(all, out, x)),
    decreases n,
{
    let p = |x: Seq<char>| code_ident(all, out, x);
    match n {
        SNode::Product(ts) => lemma_product_code(ts, all, out),
        SNode::Op(l, op, r) => {
            let lt = node_terms(*l);
            let rt = node_terms(*r);
            assert forall|i: int| 0 <= i < lt.len() implies all.contains(#[trigger] lt[i]) by {
                assert((lt + rt)[i] == lt[i]);
            }
            assert forall|i: int| 0 <= i < rt.len() implies all.contains(#[trigger] rt[i]) by {
                assert((lt + rt)[lt.len() + i] == rt[i]);
            }
            lemma_node_code(*l, all, out);
            lemma_node_code(*r, all, out);
            let toks = node_code(n, out);
            assert forall|i: int| 0 <= i < toks.len() implies tok_idents_all(#[trigger] toks[i], p) by {
                if i == 3 {
                    assert(toks[3] == STok::Group(crate::tokens::Delim::Brace, node_code(*l, out)));
                } else if i == 8 {
                    assert(toks[8] == STok::Group(crate::tokens::Delim::Brace, node_code(*r, out)));
                }
            }
        },
    }
}

/// The code of a node uses no identifier but its fixed words, the names of
/// its terms' arrays, the loop variables of its terms' axes, and the length
/// variables of those of its axes that are not output axes: the lengths of
/// the output axes are never read inside it.
pub proof fn law_node_code_identifiers(n: SNode, out: Seq<Seq<char>>)
    ensures
        idents_all(node_code(n, out), |x: Seq<char>| code_ident(node_terms(n), out, x)),
{
    let ts = node_terms(n);
    assert forall|i: int| 0 <= i < ts.len() implies ts.contains(#[trigger] ts[i]) by {}
    lemma_node_code(n, ts, out);
}

} // verus!
