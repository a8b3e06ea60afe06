//! Facts about the spec functions, and the laws of parsing and expansion.
use crate::expand_spec::{
    expansion,
    axes_not_in, axis_uses, field_uses, line_axes, node_terms, summed_axes, term_axes,
};
use crate::grammar::{
    binop_len, bracket_at, ident_at, lemma_node_advances, lemma_product_advances, line_at, lines_at,
    node_at, op_run, parse_expr, product_at, punct_at, punct_is, run_text, shape_at, term_at, SLine,
    SNode, STerm,
};
use crate::outside::is_binop_text;
use crate::tokens::Tok;
use crate::text::{index_name, length_name};
use crate::outside::first_occurrences;
use vstd::prelude::*;

verus! {

/// An item occurs in a sequence extended by one item exactly when it is that
/// item or occurs in the sequence.
pub proof fn lemma_push_contains<A>(p: Seq<A>, a: A, x: A)
    ensures
        p.push(a).contains(x) <==> (p.contains(x) || a == x),
{
    if p.contains(x) {
        let k = choose|k: int| 0 <= k < p.len() && p[k] == x;
        assert(p.push(a)[k] == x);
    }
    if a == x {
        assert(p.push(a)[p.len() as int] == x);
    }
    if p.push(a).contains(x) && a != x {
        let k = choose|k: int| 0 <= k < p.len() + 1 && p.push(a)[k] == x;
        assert(p[k] == x);
    }
}

/// An item is kept by `first_occurrences` exactly when it occurs.
pub proof fn lemma_first_occurrences_contains<A>(s: Seq<A>, x: A)
    ensures
        first_occurrences(s).contains(x) <==> s.contains(x),
    decreases s.len(),
{
    if s.len() > 0 {
        let p = s.drop_last();
        let a = s.last();
        lemma_first_occurrences_contains(p, x);
        lemma_first_occurrences_contains(p, a);
        assert(s =~= p.push(a));
        lemma_push_contains(p, a, x);
        lemma_push_contains(first_occurrences(p), a, x);
    }
}

/// An axis listed among a term's axes occurs in that term.
pub proof fn lemma_field_uses_nonempty(name: Seq<char>, fields: Seq<Seq<char>>, axis: Seq<char>)
    requires
        fields.contains(axis),
    ensures
        field_uses(name, fields, axis).len() > 0,
    decreases fields.len(),
{
    if fields.last() != axis {
        let k = choose|k: int| 0 <= k < fields.len() && fields[k] == axis;
        assert(fields.drop_last()[k] == axis);
        lemma_field_uses_nonempty(name, fields.drop_last(), axis);
    }
}

/// An axis of the terms has at least one use.
pub proof fn lemma_axis_uses_nonempty(ts: Seq<STerm>, axis: Seq<char>)
    requires
        term_axes(ts).contains(axis),
    ensures
        axis_uses(ts, axis).len() > 0,
    decreases ts.len(),
{
    let k = choose|k: int| 0 <= k < term_axes(ts).len() && term_axes(ts)[k] == axis;
    let prefix = term_axes(ts.drop_last());
    if k < prefix.len() {
        assert(prefix[k] == axis);
        lemma_axis_uses_nonempty(ts.drop_last(), axis);
    } else {
        assert(ts.last().fields[k - prefix.len()] == axis);
        lemma_field_uses_nonempty(ts.last().name, ts.last().fields, axis);
    }
}


/// How many times `x` occurs in `s`.
pub open spec fn occurrences<A>(s: Seq<A>, x: A) -> nat
    decreases s.len(),
{
    if s.len() == 0 {
        0
    } else {
        occurrences(s.drop_last(), x) + if s.last() == x {
            1nat
        } else {
            0nat
        }
    }
}

/// Occurrences in a concatenation add up.
pub proof fn lemma_occurrences_add<A>(a: Seq<A>, b: Seq<A>, x: A)
    ensures
        occurrences(a + b, x) == occurrences(a, x) + occurrences(b, x),
    decreases b.len(),
{
    if b.len() == 0 {
        assert(a + b =~= a);
    } else {
        lemma_occurrences_add(a, b.drop_last(), x);
        assert((a + b).drop_last() =~= a + b.drop_last());
        assert((a + b).last() == b.last());
    }
}

/// An item occurs at least once exactly when the sequence contains it.
pub proof fn lemma_occurrences_contains<A>(s: Seq<A>, x: A)
    ensures
        (occurrences(s, x) > 0) <==> s.contains(x),
    decreases s.len(),
{
    if s.len() > 0 {
        let p = s.drop_last();
        lemma_occurrences_contains(p, x);
        assert(s =~= p.push(s.last()));
        lemma_push_contains(p, s.last(), x);
    }
}

/// `first_occurrences` keeps each item of its input exactly once.
pub proof fn lemma_first_occurrences_once<A>(s: Seq<A>, x: A)
    ensures
        occurrences(first_occurrences(s), x) == if s.contains(x) {
            1nat
        } else {
            0nat
        },
    decreases s.len(),
{
    if s.len() > 0 {
        let p = s.drop_last();
        let y = s.last();
        let u = first_occurrences(p);
        lemma_first_occurrences_once(p, x);
        lemma_first_occurrences_contains(p, y);
        assert(s =~= p.push(y));
        lemma_push_contains(p, y, x);
        if !u.contains(y) {
            assert(u.push(y).drop_last() =~= u);
        }
    }
}

/// The uses of an axis within one term are its occurrences among the term's axes.
pub proof fn lemma_field_uses_len(name: Seq<char>, fields: Seq<Seq<char>>, axis: Seq<char>)
    ensures
        field_uses(name, fields, axis).len() == occurrences(fields, axis),
    decreases fields.len(),
{
    if fields.len() > 0 {
        lemma_field_uses_len(name, fields.drop_last(), axis);
    }
}

/// The uses of an axis are its occurrences among the axes of the terms.
pub proof fn lemma_axis_uses_len(ts: Seq<STerm>, axis: Seq<char>)
    ensures
        axis_uses(ts, axis).len() == occurrences(term_axes(ts), axis),
    decreases ts.len(),
{
    if ts.len() > 0 {
        lemma_axis_uses_len(ts.drop_last(), axis);
        lemma_field_uses_len(ts.last().name, ts.last().fields, axis);
        lemma_occurrences_add(term_axes(ts.drop_last()), ts.last().fields, axis);
    }
}

/// The number of uses of each of `axes`, added up.
pub open spec fn total_uses(ts: Seq<STerm>, axes: Seq<Seq<char>>) -> nat
    decreases axes.len(),
{
    if axes.len() == 0 {
        0
    } else {
        total_uses(ts, axes.drop_last()) + axis_uses(ts, axes.last()).len()
    }
}

/// The number of occurrences in `s` of each of `keys`, added up.
pub open spec fn total_occurrences<A>(keys: Seq<A>, s: Seq<A>) -> nat
    decreases keys.len(),
{
    if keys.len() == 0 {
        0
    } else {
        total_occurrences(keys.drop_last(), s) + occurrences(s, keys.last())
    }
}

proof fn lemma_total_occurrences_push<A>(keys: Seq<A>, p: Seq<A>, x: A)
    ensures
        total_occurrences(keys, p.push(x)) == total_occurrences(keys, p) + occurrences(keys, x),
    decreases keys.len(),
{
    if keys.len() > 0 {
        lemma_total_occurrences_push(keys.drop_last(), p, x);
        assert(p.push(x).drop_last() =~= p);
    }
}

proof fn lemma_total_occurrences_extend<A>(keys: Seq<A>, s: Seq<A>, y: A)
    ensures
        total_occurrences(keys.push(y), s) == total_occurrences(keys, s) + occurrences(s, y),
{
    assert(keys.push(y).drop_last() =~= keys);
}

/// Over the distinct items of `s`, the occurrences add up to the length of `s`.
proof fn lemma_total_occurrences_first(s: Seq<Seq<char>>)
    ensures
        total_occurrences(first_occurrences(s), s) == s.len(),
    decreases s.len(),
{
    if s.len() > 0 {
        let p = s.drop_last();
        let x = s.last();
        let u = first_occurrences(p);
        assert(s =~= p.push(x));
        lemma_total_occurrences_first(p);
        lemma_first_occurrences_contains(p, x);
        lemma_first_occurrences_once(p, x);
        lemma_total_occurrences_push(u, p, x);
        if !u.contains(x) {
            lemma_total_occurrences_extend(u, s, x);
            lemma_occurrences_contains(p, x);
            assert(occurrences(s, x) == occurrences(p, x) + 1);
        }
    }
}

proof fn lemma_total_uses_occurrences(ts: Seq<STerm>, axes: Seq<Seq<char>>)
    ensures
        total_uses(ts, axes) == total_occurrences(axes, term_axes(ts)),
    decreases axes.len(),
{
    if axes.len() > 0 {
        lemma_total_uses_occurrences(ts, axes.drop_last());
        lemma_axis_uses_len(ts, axes.last());
    }
}

/// Filtering out the output axes keeps the other axes as often as they occur.
pub proof fn lemma_axes_not_in_occurrences(xs: Seq<Seq<char>>, out: Seq<Seq<char>>, a: Seq<char>)
    ensures
        occurrences(axes_not_in(xs, out), a) == if out.contains(a) {
            0nat
        } else {
            occurrences(xs, a)
        },
    decreases xs.len(),
{
    if xs.len() > 0 {
        lemma_axes_not_in_occurrences(xs.drop_last(), out, a);
        let r = axes_not_in(xs.drop_last(), out);
        if !out.contains(xs.last()) {
            assert(r.push(xs.last()).drop_last() =~= r);
        }
    }
}

/// Every axis that occurs in a line's expression gets exactly one length
/// binding in the line's code, and no other name gets one.
pub proof fn law_one_length_binding_per_axis(l: SLine, a: Seq<char>)
    ensures
        occurrences(line_axes(l), a) == if term_axes(node_terms(l.node)).contains(a) {
            1nat
        } else {
            0nat
        },
{
    lemma_first_occurrences_once(term_axes(node_terms(l.node)), a);
}

/// Each output axis of a line that occurs in the line's expression has its
/// length bound before the loops that run over it.
pub proof fn law_output_lengths_bound(l: SLine, a: Seq<char>)
    requires
        l.shape.contains(a),
        term_axes(node_terms(l.node)).contains(a),
    ensures
        line_axes(l).contains(a),
{
    lemma_first_occurrences_contains(term_axes(node_terms(l.node)), a);
}

/// The length of each axis of a line is read from an array where the axis
/// occurs, and the statements before the loops account for every occurrence
/// of an axis exactly once: the length is read at the first occurrence and
/// each further occurrence is checked against it at run time.
pub proof fn law_every_axis_occurrence_checked(l: SLine)
    ensures
        forall|a: Seq<char>| #[trigger]
            line_axes(l).contains(a) ==> axis_uses(node_terms(l.node), a).len() >= 1,
        total_uses(node_terms(l.node), line_axes(l)) == term_axes(node_terms(l.node)).len(),
{
    let ts = node_terms(l.node);
    assert forall|a: Seq<char>| #[trigger]
        line_axes(l).contains(a) implies axis_uses(ts, a).len() >= 1 by {
        lemma_first_occurrences_contains(term_axes(ts), a);
        lemma_axis_uses_nonempty(ts, a);
    }
    lemma_total_uses_occurrences(ts, line_axes(l));
    lemma_total_occurrences_first(term_axes(ts));
}

/// A product sums exactly once over each of its axes that is not an output
/// axis, and over nothing else; so each axis that indexes one of its terms
/// is bound either by an output loop or by one summation loop.
pub proof fn law_summed_axes(ts: Seq<STerm>, out: Seq<Seq<char>>, a: Seq<char>)
    ensures
        occurrences(summed_axes(ts, out), a) == if term_axes(ts).contains(a) && !out.contains(a) {
            1nat
        } else {
            0nat
        },
        term_axes(ts).contains(a) ==> out.contains(a) || summed_axes(ts, out).contains(a),
{
    lemma_axes_not_in_occurrences(first_occurrences(term_axes(ts)), out, a);
    lemma_first_occurrences_once(term_axes(ts), a);
    lemma_occurrences_contains(summed_axes(ts, out), a);
}

/// A loop variable never has the name of a length variable.
pub proof fn law_index_and_length_names_differ(a: Seq<char>, b: Seq<char>)
    ensures
        index_name(a) != length_name(b),
{
    let x = index_name(a);
    let y = length_name(b);
    assert(x.last() == 'x');
    assert(y.last() == 'h');
}


// ---------------------------------------------------------------------------
// Laws of the grammar.
// ---------------------------------------------------------------------------
/// A `*` always starts an operator.
pub proof fn lemma_star_is_binop(ts: Seq<Tok>, j: int)
    requires
        punct_is(ts, j, '*'),
    ensures
        binop_len(ts, j) > 0,
{
    assert(run_text(ts, j, 1) =~= seq!['*']);
    assert(op_run(ts, j, 1));
}

/// A product holds at least one term, ends within the tokens and only before
/// a token that is not `*`, and each of its terms with the `*` after it
/// takes at least three tokens.
pub proof fn law_product_shape(ts: Seq<Tok>, i: int)
    ensures
        product_at(ts, i) matches Ok((terms, j)) ==> {
            &&& terms.len() >= 1
            &&& i < j <= ts.len()
            &&& !punct_is(ts, j, '*')
            &&& 3 * terms.len() <= j - i + 1
        },
    decreases ts.len() - i,
{
    lemma_product_advances(ts, i);
    if let Ok((t, j)) = term_at(ts, i) {
        if punct_is(ts, j, '*') && binop_len(ts, j) > 0 {
            law_product_shape(ts, j + binop_len(ts, j));
        } else if punct_is(ts, j, '*') {
            lemma_star_is_binop(ts, j);
        }
    }
}

/// No operator node starts with `*`.
pub open spec fn ops_avoid_star(n: SNode) -> bool
    decreases n,
{
    match n {
        SNode::Product(_) => true,
        SNode::Op(l, op, r) => op.len() > 0 && op[0] != '*' && ops_avoid_star(*l) && ops_avoid_star(
            *r,
        ),
    }
}

/// Every `*` joins terms inside a product: no operator node of a parsed
/// node is a `*`, so `*` binds tighter than every other operator.
pub proof fn law_no_star_operator(ts: Seq<Tok>, i: int)
    ensures
        node_at(ts, i) matches Ok((n, _)) ==> ops_avoid_star(n),
    decreases ts.len() - i,
{
    law_product_shape(ts, i);
    lemma_product_advances(ts, i);
    if let Ok((terms, j)) = product_at(ts, i) {
        let k = binop_len(ts, j);
        if k > 0 {
            law_no_star_operator(ts, j + k);
            let op = run_text(ts, j, k);
            assert(op[0] == punct_at(ts, j).unwrap().0);
            if op[0] == '*' {
                assert(punct_is(ts, j, '*'));
            }
            if let Ok((r, p)) = node_at(ts, j + k) {
                let n = SNode::Op(Box::new(SNode::Product(terms)), op, Box::new(r));
                assert(ops_avoid_star(*Box::new(SNode::Product(terms))));
                assert(ops_avoid_star(n));
            }
        }
    }
}

/// A node must start with a term, an identifier followed by a group in
/// square brackets; and an operator must be followed by a node.
pub proof fn law_node_needs_terms(ts: Seq<Tok>, i: int)
    ensures
        ident_at(ts, i) is None || bracket_at(ts, i + 1) is None ==> node_at(ts, i) is Err,
        product_at(ts, i) matches Ok((_, j)) ==> (binop_len(ts, j) > 0 && node_at(
            ts,
            j + binop_len(ts, j),
        ) is Err ==> node_at(ts, i) is Err),
{
    lemma_product_advances(ts, i);
}

// The laws of a trailing `;` look at a token stream with `;` appended.
proof fn lemma_ext_tokens(ts: Seq<Tok>, s: bool, i: int)
    requires
        0 <= i <= ts.len(),
    ensures
        ident_at(ts.push(Tok::Punct(';', s)), i) == ident_at(ts, i),
        bracket_at(ts.push(Tok::Punct(';', s)), i) == bracket_at(ts, i),
        punct_is(ts.push(Tok::Punct(';', s)), i, '*') == punct_is(ts, i, '*'),
        punct_is(ts.push(Tok::Punct(';', s)), i, '~') == punct_is(ts, i, '~'),
        i < ts.len() ==> punct_at(ts.push(Tok::Punct(';', s)), i) == punct_at(ts, i),
{
    let e = ts.push(Tok::Punct(';', s));
    if i < ts.len() {
        assert(e[i] == ts[i]);
    } else {
        assert(e[i] == Tok::Punct(';', s));
    }
}

proof fn lemma_binop_text_no_semicolon(x: Seq<char>)
    ensures
        is_binop_text(x) ==> x.len() > 0 && x[x.len() - 1] != ';',
{
}

proof fn lemma_ext_run(ts: Seq<Tok>, s: bool, j: int, k: int)
    requires
        0 <= j <= ts.len(),
        1 <= k <= 3,
    ensures
        (op_run(ts.push(Tok::Punct(';', s)), j, k) && is_binop_text(
            run_text(ts.push(Tok::Punct(';', s)), j, k),
        )) == (op_run(ts, j, k) && is_binop_text(run_text(ts, j, k))),
{
    let e = ts.push(Tok::Punct(';', s));
    let n = ts.len() as int;
    assert forall|p: int| j <= p < n implies punct_at(e, p) == punct_at(ts, p) by {
        lemma_ext_tokens(ts, s, p);
    }
    assert(punct_at(e, n) == Some((';', s))) by {
        assert(e[n] == Tok::Punct(';', s));
    }
    if j + k - 1 < n {
        assert(punct_at(e, j) == punct_at(ts, j));
        assert(k >= 2 ==> punct_at(e, j + 1) == punct_at(ts, j + 1));
        assert(k >= 3 ==> punct_at(e, j + 2) == punct_at(ts, j + 2));
        assert(op_run(e, j, k) == op_run(ts, j, k));
        if op_run(ts, j, k) {
            assert(run_text(e, j, k) =~= run_text(ts, j, k));
        }
    } else {
        assert(punct_at(ts, j + k - 1) is None);
        assert(!op_run(ts, j, k));
        if op_run(e, j, k) {
            assert(punct_at(e, j + k - 1) is Some);
            assert(j + k - 1 == n);
            lemma_binop_text_no_semicolon(run_text(e, j, k));
            assert(run_text(e, j, k)[k - 1] == ';');
        }
    }
}

proof fn lemma_ext_binop_len(ts: Seq<Tok>, s: bool, j: int)
    requires
        0 <= j <= ts.len(),
    ensures
        binop_len(ts.push(Tok::Punct(';', s)), j) == binop_len(ts, j),
{
    lemma_ext_run(ts, s, j, 1);
    lemma_ext_run(ts, s, j, 2);
    lemma_ext_run(ts, s, j, 3);
}

proof fn lemma_ext_product(ts: Seq<Tok>, s: bool, i: int)
    requires
        0 <= i <= ts.len(),
    ensures
        product_at(ts.push(Tok::Punct(';', s)), i) == product_at(ts, i),
    decreases ts.len() - i,
{
    let e = ts.push(Tok::Punct(';', s));
    lemma_ext_tokens(ts, s, i);
    if i + 1 <= ts.len() {
        lemma_ext_tokens(ts, s, i + 1);
    } else {
        assert(bracket_at(e, i + 1) is None);
        assert(bracket_at(ts, i + 1) is None);
    }
    assert(shape_at(e, i + 1) == shape_at(ts, i + 1));
    assert(term_at(e, i) == term_at(ts, i));
    if let Ok((t, j)) = term_at(ts, i) {
        lemma_ext_tokens(ts, s, j);
        lemma_ext_binop_len(ts, s, j);
        if punct_is(ts, j, '*') && binop_len(ts, j) > 0 {
            lemma_ext_product(ts, s, j + binop_len(ts, j));
        }
    }
}

proof fn lemma_ext_node(ts: Seq<Tok>, s: bool, i: int)
    requires
        0 <= i <= ts.len(),
    ensures
        node_at(ts.push(Tok::Punct(';', s)), i) == node_at(ts, i),
    decreases ts.len() - i,
{
    lemma_ext_product(ts, s, i);
    lemma_product_advances(ts, i);
    if let Ok((terms, j)) = product_at(ts, i) {
        lemma_ext_binop_len(ts, s, j);
        let k = binop_len(ts, j);
        if k > 0 {
            lemma_ext_node(ts, s, j + k);
            assert(run_text(ts.push(Tok::Punct(';', s)), j, k) =~= run_text(ts, j, k));
        }
    }
}

proof fn lemma_ext_line(ts: Seq<Tok>, s: bool, i: int)
    requires
        0 <= i <= ts.len(),
    ensures
        line_at(ts.push(Tok::Punct(';', s)), i) == line_at(ts, i),
{
    let e = ts.push(Tok::Punct(';', s));
    lemma_ext_node(ts, s, i);
    lemma_node_advances(ts, i);
    if let Ok((n, j)) = node_at(ts, i) {
        lemma_ext_tokens(ts, s, j);
        if punct_is(ts, j, '~') {
            lemma_ext_tokens(ts, s, j + 1);
            assert(shape_at(e, j + 1) == shape_at(ts, j + 1));
        }
    }
}

/// A trailing `;` after a line changes nothing: the stream parses to the
/// same single line, and so expands to the same code.
pub proof fn law_trailing_semicolon(ts: Seq<Tok>, s: bool)
    requires
        line_at(ts, 0) matches Ok((_, j)) && j == ts.len(),
    ensures
        parse_expr(ts) == Ok::<Seq<SLine>, crate::grammar::ParseError>(seq![line_at(ts, 0).unwrap().0]),
        parse_expr(ts.push(Tok::Punct(';', s))) == parse_expr(ts),
        expansion(parse_expr(ts.push(Tok::Punct(';', s))).unwrap()) == expansion(
            parse_expr(ts).unwrap(),
        ),
{
    let e = ts.push(Tok::Punct(';', s));
    let l = line_at(ts, 0).unwrap().0;
    lemma_node_advances(ts, 0);
    lemma_ext_line(ts, s, 0);
    assert(ts.len() > 0);
    assert(punct_is(e, ts.len() as int, ';')) by {
        assert(e[ts.len() as int] == Tok::Punct(';', s));
    }
    assert(lines_at(e, ts.len() + 1int) == Ok::<Seq<SLine>, crate::grammar::ParseError>(Seq::empty()));
    assert(seq![l] + Seq::<SLine>::empty() =~= seq![l]);
}

} // verus!
