//! The free identifiers of the code of a node: those that no loop of the
//! code binds.
//!
//! A loop `for v in a..b { body }` binds `v` in its body; every other
//! identifier is read where it stands.
use crate::expand_spec::{
    accumulate_toks, for_loop_toks, index_names, nest_loops_toks, node_code, node_terms, op_puncts,
    product_code, product_expr_toks, summed_axes, term_axes, term_element_toks,
};
use crate::grammar::{ident_at, node_at, product_at, term_at, SNode, STerm};
use crate::laws::{law_summed_axes, lemma_occurrences_contains};
use crate::outside::is_plain_ident;
use crate::scope::{
    code_word, idents_all, lemma_comma_idents, lemma_idents_concat, lemma_term_axes_witness,
    names_array, names_summed_length, terms_among, tok_idents_all,
};
use crate::text::{index_name, length_name};
use crate::tokens::{Delim, STok, Tok};
use vstd::prelude::*;

verus! {

/// The text of an identifier token (empty for other tokens).
pub open spec fn ident_text(t: STok) -> Seq<char> {
    match t {
        STok::Ident(x) => x,
        _ => Seq::empty(),
    }
}

/// The tokens start with a loop `for v in a .. b { body }`.
pub open spec fn loop_head(ts: Seq<STok>) -> bool {
    &&& ts.len() >= 8
    &&& ts[0] == STok::Ident("for"@)
    &&& ts[1] is Ident
    &&& ts[2] == STok::Ident("in"@)
    &&& ts[7] matches STok::Group(Delim::Brace, _)
}

/// `p`, or the name `v` bound by a loop.
pub open spec fn with_bound(p: spec_fn(Seq<char>) -> bool, v: Seq<char>) -> spec_fn(Seq<char>) -> bool {
    |x: Seq<char>| p(x) || x == v
}

/// Every identifier of the tokens that no loop among them binds satisfies `p`.
pub open spec fn free_all(ts: Seq<STok>, p: spec_fn(Seq<char>) -> bool) -> bool
    decreases ts, 0int,
{
    if ts.len() == 0 {
        true
    } else if loop_head(ts) {
        let v = ident_text(ts[1]);
        &&& free_all(ts.subrange(2, 7), p)
        &&& free_tok(ts[7], with_bound(p, v))
        &&& free_all(ts.skip(8), p)
    } else {
        free_tok(ts[0], p) && free_all(ts.skip(1), p)
    }
}

/// Every identifier of the token that no loop inside it binds satisfies `p`.
pub open spec fn free_tok(t: STok, p: spec_fn(Seq<char>) -> bool) -> bool
    decreases t, 0int,
{
    match t {
        STok::Ident(x) => p(x),
        STok::Group(_, inner) => free_all(inner, p),
        _ => true,
    }
}

pub proof fn lemma_free_mono(ts: Seq<STok>, p: spec_fn(Seq<char>) -> bool, q: spec_fn(Seq<char>) -> bool)
    requires
        free_all(ts, p),
        forall|x: Seq<char>| #[trigger] p(x) ==> q(x),
    ensures
        free_all(ts, q),
    decreases ts, 0int,
{
    if ts.len() > 0 {
        if loop_head(ts) {
            let v = ident_text(ts[1]);
            lemma_free_mono(ts.subrange(2, 7), p, q);
            let p1 = with_bound(p, v);
            let q1 = with_bound(q, v);
            assert forall|x: Seq<char>| #[trigger] p1(x) implies q1(x) by {
                if p(x) {
                    assert(q(x));
                }
            }
            lemma_free_tok_mono(ts[7], p1, q1);
            lemma_free_mono(ts.skip(8), p, q);
        } else {
            lemma_free_tok_mono(ts[0], p, q);
            lemma_free_mono(ts.skip(1), p, q);
        }
    }
}

pub proof fn lemma_free_tok_mono(t: STok, p: spec_fn(Seq<char>) -> bool, q: spec_fn(Seq<char>) -> bool)
    requires
        free_tok(t, p),
        forall|x: Seq<char>| #[trigger] p(x) ==> q(x),
    ensures
        free_tok(t, q),
    decreases t, 0int,
{
    match t {
        STok::Group(_, inner) => lemma_free_mono(inner, p, q),
        _ => {},
    }
}

/// Where every identifier satisfies `p`, every free one does.
pub proof fn lemma_idents_free(ts: Seq<STok>, p: spec_fn(Seq<char>) -> bool)
    requires
        idents_all(ts, p),
    ensures
        free_all(ts, p),
    decreases ts, 0int,
{
    if ts.len() > 0 {
        if loop_head(ts) {
            let v = ident_text(ts[1]);
            let sub = ts.subrange(2, 7);
            assert forall|i: int| 0 <= i < sub.len() implies tok_idents_all(#[trigger] sub[i], p) by {
                assert(sub[i] == ts[i + 2]);
            }
            lemma_idents_free(sub, p);
            assert(tok_idents_all(ts[7], p));
            lemma_tok_idents_free(ts[7], p);
            lemma_free_tok_mono(ts[7], p, with_bound(p, v));
            let rest = ts.skip(8);
            assert forall|i: int| 0 <= i < rest.len() implies tok_idents_all(#[trigger] rest[i], p) by {
                assert(rest[i] == ts[i + 8]);
            }
            lemma_idents_free(rest, p);
        } else {
            assert(tok_idents_all(ts[0], p));
            lemma_tok_idents_free(ts[0], p);
            let rest = ts.skip(1);
            assert forall|i: int| 0 <= i < rest.len() implies tok_idents_all(#[trigger] rest[i], p) by {
                assert(rest[i] == ts[i + 1]);
            }
            lemma_idents_free(rest, p);
        }
    }
}

pub proof fn lemma_tok_idents_free(t: STok, p: spec_fn(Seq<char>) -> bool)
    requires
        tok_idents_all(t, p),
    ensures
        free_tok(t, p),
    decreases t, 0int,
{
    match t {
        STok::Group(_, inner) => {
            assert(idents_all(inner, p));
            lemma_idents_free(inner, p);
        },
        _ => {},
    }
}

/// Tokens none of which starts a loop, before other tokens.
pub proof fn lemma_free_flat_prefix(a: Seq<STok>, b: Seq<STok>, p: spec_fn(Seq<char>) -> bool)
    requires
        forall|i: int| 0 <= i < a.len() ==> #[trigger] a[i] != STok::Ident("for"@),
        forall|i: int| 0 <= i < a.len() ==> free_tok(#[trigger] a[i], p),
        free_all(b, p),
    ensures
        free_all(a + b, p),
    decreases a.len(),
{
    if a.len() == 0 {
        assert(a + b =~= b);
    } else {
        let ab = a + b;
        assert(ab[0] == a[0]);
        assert(!loop_head(ab));
        let a1 = a.skip(1);
        assert forall|i: int| 0 <= i < a1.len() implies #[trigger] a1[i] != STok::Ident("for"@) && free_tok(a1[i], p) by {
            assert(a1[i] == a[i + 1]);
        }
        lemma_free_flat_prefix(a1, b, p);
        assert(ab.skip(1) =~= a1 + b);
    }
}


/// The fixed words of the code other than `for` are not `for`.
pub proof fn lemma_words_not_for()
    ensures
        "for"@.len() == 3,
        "in"@ != "for"@,
        "let"@ != "for"@,
        "mut"@ != "for"@,
        "term_product_accum"@ != "for"@,
        "lhs_accum"@ != "for"@,
        "rhs_accum"@ != "for"@,
{
    reveal_strlit("for");
    reveal_strlit("in");
    reveal_strlit("let");
    reveal_strlit("mut");
    reveal_strlit("term_product_accum");
    reveal_strlit("lhs_accum");
    reveal_strlit("rhs_accum");
    assert("for"@.len() == 3);
    assert("in"@.len() == 2);
    assert("let"@[0] == 'l');
    assert("for"@[0] == 'f');
    assert("mut"@[0] == 'm');
    assert("term_product_accum"@.len() == 18);
    assert("lhs_accum"@.len() == 9);
    assert("rhs_accum"@.len() == 9);
}

/// `for <axis>_index in 0..<axis>_length { body }` followed by `rest`.
pub proof fn lemma_free_for_then(
    axis: Seq<char>,
    body: Seq<STok>,
    rest: Seq<STok>,
    p: spec_fn(Seq<char>) -> bool,
)
    requires
        p("in"@),
        p(length_name(axis)),
        free_all(body, |x: Seq<char>| p(x) || x == index_name(axis)),
        free_all(rest, p),
    ensures
        free_all(for_loop_toks(axis, body) + rest, p),
{
    lemma_words_not_for();
    let ts = for_loop_toks(axis, body) + rest;
    assert(ts[0] == STok::Ident("for"@));
    assert(ts[1] == STok::Ident(index_name(axis)));
    assert(ts[2] == STok::Ident("in"@));
    assert(ts[7] == STok::Group(Delim::Brace, body));
    assert(loop_head(ts));
    let sub = ts.subrange(2, 7);
    assert(sub =~= seq![
        STok::Ident("in"@),
        STok::Lit("0"@),
        STok::Punct('.', true),
        STok::Punct('.', false),
        STok::Ident(length_name(axis)),
    ]);
    assert(length_name(axis).len() >= 7);
    assert(length_name(axis) != "for"@);
    assert("in"@ != "for"@);
    assert forall|i: int| 0 <= i < sub.len() implies #[trigger] sub[i] != STok::Ident("for"@) && free_tok(
        sub[i],
        p,
    ) by {}
    assert(free_all(Seq::<STok>::empty(), p));
    lemma_free_flat_prefix(sub, Seq::<STok>::empty(), p);
    assert(sub + Seq::<STok>::empty() =~= sub);
    let v = ident_text(ts[1]);
    lemma_free_mono(body, |x: Seq<char>| p(x) || x == index_name(axis), with_bound(p, v));
    assert(ts.skip(8) =~= rest);
    assert(free_all(ts.subrange(2, 7), p));
    assert(free_tok(ts[7], with_bound(p, v)));
    assert(free_all(ts.skip(8), p));
}

/// Loops over `axes` around `body`: the loop variables of the axes are bound in `body`.
pub proof fn lemma_free_nest(body: Seq<STok>, axes: Seq<Seq<char>>, p: spec_fn(Seq<char>) -> bool)
    requires
        axes.len() > 0,
        p("in"@),
        forall|i: int| 0 <= i < axes.len() ==> p(length_name(#[trigger] axes[i])),
        free_all(
            body,
            |x: Seq<char>| p(x) || exists|i: int| 0 <= i < axes.len() && x == index_name(#[trigger] axes[i]),
        ),
    ensures
        free_all(nest_loops_toks(body, axes), p),
    decreases axes.len(),
{
    let last = axes.last();
    let d = axes.drop_last();
    let p1 = |x: Seq<char>| p(x) || x == index_name(last);
    let inner = nest_loops_toks(body, d);
    let given = |x: Seq<char>| p(x) || exists|i: int| 0 <= i < axes.len() && x == index_name(#[trigger] axes[i]);
    if d.len() == 0 {
        assert forall|x: Seq<char>| #[trigger] given(x) implies p1(x) by {
            if !p(x) {
                let i = choose|i: int| 0 <= i < axes.len() && x == index_name(#[trigger] axes[i]);
                assert(i == 0);
            }
        }
        lemma_free_mono(body, given, p1);
    } else {
        let want = |x: Seq<char>| p1(x) || exists|i: int| 0 <= i < d.len() && x == index_name(#[trigger] d[i]);
        assert forall|x: Seq<char>| #[trigger] given(x) implies want(x) by {
            if !p(x) {
                let i = choose|i: int| 0 <= i < axes.len() && x == index_name(#[trigger] axes[i]);
                if i < d.len() {
                    assert(d[i] == axes[i]);
                }
            }
        }
        lemma_free_mono(body, given, want);
        assert forall|i: int| 0 <= i < d.len() implies p1(length_name(#[trigger] d[i])) by {
            assert(d[i] == axes[i]);
        }
        lemma_free_nest(body, d, p1);
    }
    assert(p(length_name(axes[axes.len() - 1])));
    lemma_free_for_then(last, inner, Seq::empty(), p);
    assert(for_loop_toks(last, inner) + Seq::<STok>::empty() =~= for_loop_toks(last, inner));
}

/// `x` is the loop variable of an axis of one of the terms that is an output axis.
pub open spec fn names_output_index(all: Seq<STerm>, out: Seq<Seq<char>>, x: Seq<char>) -> bool {
    exists|k: int, f: int|
        0 <= k < all.len() && 0 <= f < all[k].fields.len() && out.contains(all[k].fields[f])
            && x == index_name(#[trigger] all[k].fields[f])
}

/// An identifier that the code of a node over the terms `all` may leave free.
pub open spec fn free_ident(all: Seq<STerm>, out: Seq<Seq<char>>, x: Seq<char>) -> bool {
    ||| code_word(x)
    ||| names_array(all, x)
    ||| names_output_index(all, out, x)
    ||| names_summed_length(all, out, x)
}

/// No term's array is named `for`.
pub open spec fn names_avoid_for(ts: Seq<STerm>) -> bool {
    forall|k: int| 0 <= k < ts.len() ==> #[trigger] ts[k].name != "for"@
}

proof fn lemma_term_element_idents(t: STerm, p: spec_fn(Seq<char>) -> bool)
    requires
        p(t.name),
        forall|f: int| 0 <= f < t.fields.len() ==> p(index_name(#[trigger] t.fields[f])),
    ensures
        idents_all(term_element_toks(t), p),
{
    let xs = index_names(t.fields);
    assert forall|i: int| 0 <= i < xs.len() implies p(#[trigger] xs[i]) by {
        assert(xs[i] == index_name(t.fields[i]));
    }
    lemma_comma_idents(xs, p);
    let inner = seq![STok::Group(Delim::Bracket, crate::expand_spec::comma_idents(xs))];
    assert(tok_idents_all(inner[0], p));
    let toks = term_element_toks(t);
    assert(tok_idents_all(toks[0], p));
    assert(tok_idents_all(toks[1], p));
}

proof fn lemma_product_expr_idents(ts: Seq<STerm>, p: spec_fn(Seq<char>) -> bool)
    requires
        forall|k: int| 0 <= k < ts.len() ==> p(#[trigger] ts[k].name),
        forall|k: int, f: int|
            0 <= k < ts.len() && 0 <= f < ts[k].fields.len() ==> p(index_name(#[trigger] ts[k].fields[f])),
    ensures
        idents_all(product_expr_toks(ts), p),
    decreases ts.len(),
{
    if ts.len() == 1 {
        assert(p(ts[0].name));
        assert forall|f: int| 0 <= f < ts[0].fields.len() implies p(index_name(#[trigger] ts[0].fields[f])) by {}
        lemma_term_element_idents(ts[0], p);
    } else if ts.len() > 1 {
        let d = ts.drop_last();
        assert forall|k: int| 0 <= k < d.len() implies p(#[trigger] d[k].name) by {
            assert(d[k] == ts[k]);
        }
        assert forall|k: int, f: int| 0 <= k < d.len() && 0 <= f < d[k].fields.len() implies p(
            index_name(#[trigger] d[k].fields[f]),
        ) by {
            assert(d[k] == ts[k]);
        }
        lemma_product_expr_idents(d, p);
        let l = ts.len() - 1;
        assert(p(ts[l].name));
        assert forall|f: int| 0 <= f < ts[l].fields.len() implies p(index_name(#[trigger] ts[l].fields[f])) by {}
        lemma_term_element_idents(ts.last(), p);
        assert(tok_idents_all(STok::Punct('*', false), p));
        assert(idents_all(seq![STok::Punct('*', false)], p));
        lemma_idents_concat(product_expr_toks(d), seq![STok::Punct('*', false)], p);
        lemma_idents_concat(
            product_expr_toks(d) + seq![STok::Punct('*', false)],
            term_element_toks(ts.last()),
            p,
        );
    }
}

/// An axis of a term is among the axes of the terms.
proof fn lemma_field_in_term_axes(ts: Seq<STerm>, k: int, f: int)
    requires
        0 <= k < ts.len(),
        0 <= f < ts[k].fields.len(),
    ensures
        term_axes(ts).contains(ts[k].fields[f]),
    decreases ts.len(),
{
    let prefix = term_axes(ts.drop_last());
    if k == ts.len() - 1 {
        assert(term_axes(ts)[prefix.len() + f] == ts[k].fields[f]);
    } else {
        assert(ts.drop_last()[k] == ts[k]);
        lemma_field_in_term_axes(ts.drop_last(), k, f);
        let m = choose|m: int| 0 <= m < prefix.len() && prefix[m] == ts[k].fields[f];
        assert(term_axes(ts)[m] == ts[k].fields[f]);
    }
}

/// A summed axis of a product is an axis of one of `all` that is not an output axis.
proof fn lemma_summed_axis_in_all(ts: Seq<STerm>, all: Seq<STerm>, out: Seq<Seq<char>>, a: Seq<char>)
    requires
        terms_among(ts, all),
        summed_axes(ts, out).contains(a),
    ensures
        names_summed_length(all, out, length_name(a)),
        exists|k: int, f: int|
            0 <= k < all.len() && 0 <= f < all[k].fields.len() && #[trigger] all[k].fields[f] == a,
        !out.contains(a),
{
    lemma_occurrences_contains(summed_axes(ts, out), a);
    law_summed_axes(ts, out, a);
    lemma_term_axes_witness(ts, a);
    let (k, f) = choose|k: int, f: int|
        0 <= k < ts.len() && 0 <= f < ts[k].fields.len() && #[trigger] ts[k].fields[f] == a;
    assert(all.contains(ts[k]));
    let kk = choose|kk: int| 0 <= kk < all.len() && all[kk] == ts[k];
    assert(all[kk].fields[f] == a);
}

proof fn lemma_free_product_code(ts: Seq<STerm>, all: Seq<STerm>, out: Seq<Seq<char>>)
    requires
        terms_among(ts, all),
        names_avoid_for(ts),
    ensures
        free_all(product_code(ts, out), |x: Seq<char>| free_ident(all, out, x)),
{
    lemma_words_not_for();
    let pp = |x: Seq<char>| free_ident(all, out, x);
    let axes = summed_axes(ts, out);
    let q = |x: Seq<char>| pp(x) || exists|i: int| 0 <= i < axes.len() && x == index_name(#[trigger] axes[i]);
    let r = |x: Seq<char>| q(x) && x != "for"@;
    // The identifiers of the product's elements.
    assert forall|k: int| 0 <= k < ts.len() implies r(#[trigger] ts[k].name) by {
        assert(all.contains(ts[k]));
        let kk = choose|kk: int| 0 <= kk < all.len() && all[kk] == ts[k];
        assert(all[kk].name == ts[k].name);
        assert(names_array(all, ts[k].name));
    }
    assert forall|k: int, f: int| 0 <= k < ts.len() && 0 <= f < ts[k].fields.len() implies r(
        index_name(#[trigger] ts[k].fields[f]),
    ) by {
        let a = ts[k].fields[f];
        assert(index_name(a).len() >= 6);
        if out.contains(a) {
            assert(all.contains(ts[k]));
            let kk = choose|kk: int| 0 <= kk < all.len() && all[kk] == ts[k];
            assert(all[kk].fields[f] == a);
            assert(names_output_index(all, out, index_name(a)));
        } else {
            lemma_field_in_term_axes(ts, k, f);
            law_summed_axes(ts, out, a);
            lemma_occurrences_contains(axes, a);
            let i = choose|i: int| 0 <= i < axes.len() && axes[i] == a;
            assert(index_name(a) == index_name(axes[i]));
        }
    }
    lemma_product_expr_idents(ts, r);
    let head = seq![STok::Ident("term_product_accum"@), STok::Punct('+', true), STok::Punct('=', false)];
    assert(code_word("term_product_accum"@));
    assert(tok_idents_all(head[0], r));
    assert(idents_all(head, r));
    assert(idents_all(seq![STok::Punct(';', false)], r));
    lemma_idents_concat(head, product_expr_toks(ts), r);
    lemma_idents_concat(head + product_expr_toks(ts), seq![STok::Punct(';', false)], r);
    let acc = accumulate_toks(ts);
    assert(acc == head + product_expr_toks(ts) + seq![STok::Punct(';', false)]);
    assert forall|x: Seq<char>| #[trigger] r(x) implies q(x) by {}
    assert forall|i: int| 0 <= i < acc.len() implies #[trigger] acc[i] != STok::Ident("for"@) && free_tok(
        acc[i],
        q,
    ) by {
        assert(tok_idents_all(acc[i], r));
        lemma_tok_idents_free(acc[i], r);
        lemma_free_tok_mono(acc[i], r, q);
    }
    lemma_idents_free(acc, r);
    lemma_free_mono(acc, r, q);
    // The statement before the loops and the value after them.
    let start = seq![
        STok::Ident("let"@),
        STok::Ident("mut"@),
        STok::Ident("term_product_accum"@),
        STok::Punct('=', false),
        STok::Lit("0f32"@),
        STok::Punct(';', false),
    ];
    let end = seq![STok::Ident("term_product_accum"@)];
    assert(code_word("let"@) && code_word("mut"@));
    assert forall|i: int| 0 <= i < start.len() implies #[trigger] start[i] != STok::Ident("for"@) && free_tok(
        start[i],
        pp,
    ) by {}
    assert forall|i: int| 0 <= i < end.len() implies #[trigger] end[i] != STok::Ident("for"@) && free_tok(
        end[i],
        pp,
    ) by {}
    assert(free_all(Seq::<STok>::empty(), pp));
    lemma_free_flat_prefix(end, Seq::empty(), pp);
    assert(end + Seq::<STok>::empty() =~= end);
    assert(pp("in"@));
    if axes.len() == 0 {
        assert(nest_loops_toks(acc, axes) == acc);
        assert forall|x: Seq<char>| #[trigger] q(x) implies pp(x) by {}
        assert forall|i: int| 0 <= i < acc.len() implies #[trigger] acc[i] != STok::Ident("for"@) && free_tok(
            acc[i],
            pp,
        ) by {
            lemma_free_tok_mono(acc[i], q, pp);
        }
        lemma_free_flat_prefix(acc, end, pp);
        lemma_free_flat_prefix(start, acc + end, pp);
        assert(product_code(ts, out) =~= start + (acc + end));
    } else {
        let last = axes.last();
        let d = axes.drop_last();
        let inner = nest_loops_toks(acc, d);
        let p1 = |x: Seq<char>| pp(x) || x == index_name(last);
        if d.len() == 0 {
            assert forall|x: Seq<char>| #[trigger] q(x) implies p1(x) by {
                if !pp(x) {
                    let i = choose|i: int| 0 <= i < axes.len() && x == index_name(#[trigger] axes[i]);
                    assert(i == 0);
                }
            }
            lemma_free_mono(acc, q, p1);
        } else {
            let want = |x: Seq<char>| p1(x) || exists|i: int| 0 <= i < d.len() && x == index_name(#[trigger] d[i]);
            assert forall|x: Seq<char>| #[trigger] q(x) implies want(x) by {
                if !pp(x) {
                    let i = choose|i: int| 0 <= i < axes.len() && x == index_name(#[trigger] axes[i]);
                    if i < d.len() {
                        assert(d[i] == axes[i]);
                    }
                }
            }
            lemma_free_mono(acc, q, want);
            assert forall|i: int| 0 <= i < d.len() implies p1(length_name(#[trigger] d[i])) by {
                assert(d[i] == axes[i]);
                assert(axes.contains(d[i]));
                lemma_summed_axis_in_all(ts, all, out, d[i]);
            }
            lemma_free_nest(acc, d, p1);
        }
        assert(axes.contains(last));
        lemma_summed_axis_in_all(ts, all, out, last);
        lemma_free_for_then(last, inner, end, pp);
        assert(nest_loops_toks(acc, axes) == for_loop_toks(last, inner));
        lemma_free_flat_prefix(start, for_loop_toks(last, inner) + end, pp);
        assert(product_code(ts, out) =~= start + (for_loop_toks(last, inner) + end));
    }
}


proof fn lemma_free_node_code(n: SNode, all: Seq<STerm>, out: Seq<Seq<char>>)
    requires
        terms_among(node_terms(n), all),
        names_avoid_for(node_terms(n)),
    ensures
        free_all(node_code(n, out), |x: Seq<char>| free_ident(all, out, x)),
    decreases n,
{
    let pp = |x: Seq<char>| free_ident(all, out, x);
    match n {
        SNode::Product(ts) => lemma_free_product_code(ts, all, out),
        SNode::Op(l, op, r) => {
            lemma_words_not_for();
            let lt = node_terms(*l);
            let rt = node_terms(*r);
            assert forall|i: int| 0 <= i < lt.len() implies all.contains(#[trigger] lt[i]) && lt[i].name
                != "for"@ by {
                assert((lt + rt)[i] == lt[i]);
            }
            assert forall|i: int| 0 <= i < rt.len() implies all.contains(#[trigger] rt[i]) && rt[i].name
                != "for"@ by {
                assert((lt + rt)[lt.len() + i] == rt[i]);
            }
            lemma_free_node_code(*l, all, out);
            lemma_free_node_code(*r, all, out);
            let toks = node_code(n, out);
            let ops = op_puncts(op);
            assert(code_word("let"@) && code_word("lhs_accum"@) && code_word("rhs_accum"@));
            assert forall|i: int| 0 <= i < toks.len() implies #[trigger] toks[i] != STok::Ident("for"@)
                && free_tok(toks[i], pp) by {
                if i == 3 {
                    assert(toks[3] == STok::Group(Delim::Brace, node_code(*l, out)));
                } else if i == 8 {
                    assert(toks[8] == STok::Group(Delim::Brace, node_code(*r, out)));
                } else if 11 <= i < 11 + ops.len() {
                    assert(toks[i] == ops[i - 11]);
                    assert(ops[i - 11] is Punct);
                } else if i == 11 + ops.len() {
                    assert(toks[i] == STok::Ident("rhs_accum"@));
                }
            }
            assert(free_all(Seq::<STok>::empty(), pp));
            lemma_free_flat_prefix(toks, Seq::empty(), pp);
            assert(toks + Seq::<STok>::empty() =~= toks);
        },
    }
}

/// No identifier that the parser accepts is `for`.
proof fn lemma_ident_not_for(ts: Seq<Tok>, i: int)
    ensures
        ident_at(ts, i) matches Some(x) ==> x != "for"@,
{
    reveal_strlit("for");
    let f = "for"@;
    assert(f.len() == 3 && f[0] == 'f' && f[1] == 'o' && f[2] == 'r');
    assert forall|k: int| 1 <= k < f.len() implies crate::outside::is_ident_continue(#[trigger] f[k]) by {
        if k == 1 {
        } else {
        }
    }
    assert(is_plain_ident(f));
}

proof fn lemma_product_names(ts: Seq<Tok>, i: int)
    ensures
        product_at(ts, i) matches Ok((terms, _)) ==> names_avoid_for(terms),
    decreases ts.len() - i,
{
    lemma_ident_not_for(ts, i);
    if let Ok((t, j)) = term_at(ts, i) {
        if crate::grammar::punct_is(ts, j, '*') && crate::grammar::binop_len(ts, j) > 0 {
            let nxt = j + crate::grammar::binop_len(ts, j);
            lemma_product_names(ts, nxt);
            if let Ok((rest, p)) = product_at(ts, nxt) {
                let all = seq![t] + rest;
                assert forall|k: int| 0 <= k < all.len() implies #[trigger] all[k].name != "for"@ by {
                    if k > 0 {
                        assert(all[k] == rest[k - 1]);
                    }
                }
            }
        }
    }
}

proof fn lemma_node_names(ts: Seq<Tok>, i: int)
    ensures
        node_at(ts, i) matches Ok((n, _)) ==> names_avoid_for(node_terms(n)),
    decreases ts.len() - i,
{
    lemma_product_names(ts, i);
    crate::grammar::lemma_product_advances(ts, i);
    if let Ok((terms, j)) = product_at(ts, i) {
        let k = crate::grammar::binop_len(ts, j);
        assert(node_terms(SNode::Product(terms)) == terms);
        if k > 0 {
            lemma_node_names(ts, j + k);
            if let Ok((r, p)) = node_at(ts, j + k) {
                let lt = terms;
                let rt = node_terms(r);
                let n = SNode::Op(
                    Box::new(SNode::Product(terms)),
                    crate::grammar::run_text(ts, j, k),
                    Box::new(r),
                );
                assert(node_terms(SNode::Product(terms)) == lt);
                assert(node_terms(n) == lt + rt);
                assert forall|m: int| 0 <= m < (lt + rt).len() implies #[trigger] (lt + rt)[m].name
                    != "for"@ by {
                    if m < lt.len() {
                        assert((lt + rt)[m] == lt[m]);
                    } else {
                        assert((lt + rt)[m] == rt[m - lt.len()]);
                    }
                }
            }
        }
    }
}

/// The free identifiers of the code of a parsed node, those that none of
/// its loops binds, are its fixed words (`let`, `mut`, `in`, `for`,
/// `term_product_accum`, `lhs_accum`, `rhs_accum`), the names of its terms'
/// arrays, the loop variables of those of its axes that are output axes, and
/// the length variables of those of its axes that are not. Together with
/// `law_summed_axes` (its loops run over axes that are not output axes only),
/// this says that the code reads an output axis only through the loop
/// variable bound around it, and never the length of an output axis.
pub proof fn law_node_code_free_identifiers(ts: Seq<Tok>, i: int, out: Seq<Seq<char>>)
    requires
        node_at(ts, i) is Ok,
    ensures
        free_all(
            node_code(node_at(ts, i).unwrap().0, out),
            |x: Seq<char>| free_ident(node_terms(node_at(ts, i).unwrap().0), out, x),
        ),
{
    let n = node_at(ts, i).unwrap().0;
    lemma_node_names(ts, i);
    let all = node_terms(n);
    assert forall|k: int| 0 <= k < all.len() implies all.contains(#[trigger] all[k]) by {}
    lemma_free_node_code(n, all, out);
}

} // verus!
