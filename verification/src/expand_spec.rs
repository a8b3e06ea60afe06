//! What expansion writes, as spec functions over token trees.
//!
//! A line `node ~ [axes]` expands into: for each axis of the expression, in
//! the order of first occurrence, a binding of its length read from the array
//! where it first occurs and a runtime check for each further occurrence;
//! the allocation of the result; and a loop nest over the output axes whose
//! body assigns each element of the result. A product of terms sums over its
//! axes that are not output axes.
use crate::grammar::{SLine, SNode, STerm};
use crate::outside::first_occurrences;
use crate::text::{index_name, length_name, usize_literal};
use crate::tokens::{Delim, STok};
use vstd::prelude::*;

verus! {

/// A punctuation character that stands alone.
pub open spec fn alone(c: char) -> STok {
    STok::Punct(c, false)
}

/// A punctuation character joined to the next one.
pub open spec fn joint(c: char) -> STok {
    STok::Punct(c, true)
}

pub open spec fn word(s: &str) -> STok {
    STok::Ident(s@)
}

/// Identifiers separated by commas.
pub open spec fn comma_idents(xs: Seq<Seq<char>>) -> Seq<STok>
    decreases xs.len(),
{
    if xs.len() == 0 {
        Seq::empty()
    } else if xs.len() == 1 {
        seq![STok::Ident(xs[0])]
    } else {
        comma_idents(xs.drop_last()) + seq![alone(','), STok::Ident(xs.last())]
    }
}

/// The loop variables of the axes.
pub open spec fn index_names(axes: Seq<Seq<char>>) -> Seq<Seq<char>> {
    axes.map_values(|a: Seq<char>| index_name(a))
}

/// The length variables of the axes.
pub open spec fn length_names(axes: Seq<Seq<char>>) -> Seq<Seq<char>> {
    axes.map_values(|a: Seq<char>| length_name(a))
}

/// The element of a term's array at the current indices: `a[[D1_index, D2_index]]`.
pub open spec fn term_element_toks(t: STerm) -> Seq<STok> {
    seq![
        STok::Ident(t.name),
        STok::Group(
            Delim::Bracket,
            seq![STok::Group(Delim::Bracket, comma_idents(index_names(t.fields)))],
        ),
    ]
}

/// The elements of the terms multiplied together.
pub open spec fn product_expr_toks(ts: Seq<STerm>) -> Seq<STok>
    decreases ts.len(),
{
    if ts.len() == 0 {
        Seq::empty()
    } else if ts.len() == 1 {
        term_element_toks(ts[0])
    } else {
        product_expr_toks(ts.drop_last()) + seq![alone('*')] + term_element_toks(ts.last())
    }
}

/// `for <axis>_index in 0..<axis>_length { body }`
pub open spec fn for_loop_toks(axis: Seq<char>, body: Seq<STok>) -> Seq<STok> {
    seq![
        word("for"),
        STok::Ident(index_name(axis)),
        word("in"),
        STok::Lit("0"@),
        joint('.'),
        alone('.'),
        STok::Ident(length_name(axis)),
        STok::Group(Delim::Brace, body),
    ]
}

/// `body` inside one loop per axis: the first axis innermost, the last outermost.
pub open spec fn nest_loops_toks(body: Seq<STok>, axes: Seq<Seq<char>>) -> Seq<STok>
    decreases axes.len(),
{
    if axes.len() == 0 {
        body
    } else {
        for_loop_toks(axes.last(), nest_loops_toks(body, axes.drop_last()))
    }
}

/// The axes of the terms, term after term, with repetitions.
pub open spec fn term_axes(ts: Seq<STerm>) -> Seq<Seq<char>>
    decreases ts.len(),
{
    if ts.len() == 0 {
        Seq::empty()
    } else {
        term_axes(ts.drop_last()) + ts.last().fields
    }
}

/// The axes of `xs` that are not in `out`, in order.
pub open spec fn axes_not_in(xs: Seq<Seq<char>>, out: Seq<Seq<char>>) -> Seq<Seq<char>>
    decreases xs.len(),
{
    if xs.len() == 0 {
        Seq::empty()
    } else {
        let r = axes_not_in(xs.drop_last(), out);
        if out.contains(xs.last()) {
            r
        } else {
            r.push(xs.last())
        }
    }
}

/// The axes that a product sums over: its distinct axes that are not output axes.
pub open spec fn summed_axes(ts: Seq<STerm>, out: Seq<Seq<char>>) -> Seq<Seq<char>> {
    axes_not_in(first_occurrences(term_axes(ts)), out)
}

/// `term_product_accum += <product>;`
pub open spec fn accumulate_toks(ts: Seq<STerm>) -> Seq<STok> {
    seq![word("term_product_accum"), joint('+'), alone('=')] + product_expr_toks(ts) + seq![
        alone(';'),
    ]
}

/// The code of a product: a sum, over its summed axes, of the product of its terms.
pub open spec fn product_code(ts: Seq<STerm>, out: Seq<Seq<char>>) -> Seq<STok> {
    seq![word("let"), word("mut"), word("term_product_accum"), alone('='), STok::Lit("0f32"@), alone(';')]
        + nest_loops_toks(accumulate_toks(ts), summed_axes(ts, out)) + seq![word("term_product_accum")]
}

/// Character `i` of an operator as punctuation, joined to the next unless it is the last.
pub open spec fn op_punct(s: Seq<char>, i: int) -> STok {
    STok::Punct(s[i], i + 1 < s.len())
}

/// The characters of an operator as punctuation, each joined to the next but the last.
pub open spec fn op_puncts(s: Seq<char>) -> Seq<STok> {
    Seq::new(s.len(), |i: int| op_punct(s, i))
}

/// The code of a node.
pub open spec fn node_code(n: SNode, out: Seq<Seq<char>>) -> Seq<STok>
    decreases n,
{
    match n {
        SNode::Product(ts) => product_code(ts, out),
        SNode::Op(l, op, r) => seq![
            word("let"),
            word("lhs_accum"),
            alone('='),
            STok::Group(Delim::Brace, node_code(*l, out)),
            alone(';'),
            word("let"),
            word("rhs_accum"),
            alone('='),
            STok::Group(Delim::Brace, node_code(*r, out)),
            alone(';'),
            word("lhs_accum"),
        ] + op_puncts(op) + seq![word("rhs_accum")],
    }
}

/// The terms of a node, from left to right.
pub open spec fn node_terms(n: SNode) -> Seq<STerm>
    decreases n,
{
    match n {
        SNode::Product(ts) => ts,
        SNode::Op(l, _, r) => node_terms(*l) + node_terms(*r),
    }
}

/// Where `axis` occurs among the axes of one term: the term's array and the
/// position of the axis, in order.
pub open spec fn field_uses(name: Seq<char>, fields: Seq<Seq<char>>, axis: Seq<char>) -> Seq<
    (Seq<char>, nat),
>
    decreases fields.len(),
{
    if fields.len() == 0 {
        Seq::empty()
    } else {
        let r = field_uses(name, fields.drop_last(), axis);
        if fields.last() == axis {
            r.push((name, (fields.len() - 1) as nat))
        } else {
            r
        }
    }
}

/// Where `axis` occurs among the terms, term after term.
pub open spec fn axis_uses(ts: Seq<STerm>, axis: Seq<char>) -> Seq<(Seq<char>, nat)>
    decreases ts.len(),
{
    if ts.len() == 0 {
        Seq::empty()
    } else {
        axis_uses(ts.drop_last(), axis) + field_uses(ts.last().name, ts.last().fields, axis)
    }
}

/// `<array>.shape()[<position>usize]`
pub open spec fn shape_of_toks(u: (Seq<char>, nat)) -> Seq<STok> {
    seq![
        STok::Ident(u.0),
        alone('.'),
        word("shape"),
        STok::Group(Delim::Paren, Seq::empty()),
        STok::Group(Delim::Bracket, seq![STok::Lit(usize_literal(u.1))]),
    ]
}

/// `let <axis>_length = <array>.shape()[<position>];`
pub open spec fn length_binding_toks(axis: Seq<char>, u: (Seq<char>, nat)) -> Seq<STok> {
    seq![word("let"), STok::Ident(length_name(axis)), alone('=')] + shape_of_toks(u) + seq![
        alone(';'),
    ]
}

/// `assert_eq!(<array>.shape()[<position>], <axis>_length);`
pub open spec fn length_check_toks(axis: Seq<char>, u: (Seq<char>, nat)) -> Seq<STok> {
    seq![
        word("assert_eq"),
        alone('!'),
        STok::Group(
            Delim::Paren,
            shape_of_toks(u) + seq![alone(','), STok::Ident(length_name(axis))],
        ),
        alone(';'),
    ]
}

/// One length check per use.
pub open spec fn length_checks_toks(axis: Seq<char>, us: Seq<(Seq<char>, nat)>) -> Seq<STok>
    decreases us.len(),
{
    if us.len() == 0 {
        Seq::empty()
    } else {
        length_checks_toks(axis, us.drop_last()) + length_check_toks(axis, us.last())
    }
}

/// The statements for one axis: its length, read where it first occurs, and
/// a check at each further occurrence.
pub open spec fn axis_statements(ts: Seq<STerm>, axis: Seq<char>) -> Seq<STok> {
    let us = axis_uses(ts, axis);
    if us.len() == 0 {
        Seq::empty()
    } else {
        length_binding_toks(axis, us[0]) + length_checks_toks(axis, us.skip(1))
    }
}

/// The statements for each axis in turn.
pub open spec fn bounds_statements(ts: Seq<STerm>, axes: Seq<Seq<char>>) -> Seq<STok>
    decreases axes.len(),
{
    if axes.len() == 0 {
        Seq::empty()
    } else {
        bounds_statements(ts, axes.drop_last()) + axis_statements(ts, axes.last())
    }
}

/// `let mut result = nd::Array::<f32, _>::zeros((<lengths of the output axes>));`
pub open spec fn allocation_toks(shape: Seq<Seq<char>>) -> Seq<STok> {
    seq![
        word("let"),
        word("mut"),
        word("result"),
        alone('='),
        word("nd"),
        joint(':'),
        alone(':'),
        word("Array"),
        joint(':'),
        alone(':'),
        alone('<'),
        word("f32"),
        alone(','),
        word("_"),
        alone('>'),
        joint(':'),
        alone(':'),
        word("zeros"),
        STok::Group(
            Delim::Paren,
            seq![STok::Group(Delim::Paren, comma_idents(length_names(shape)))],
        ),
        alone(';'),
    ]
}

/// `result[[<output indices>]] = { <node code> };`
pub open spec fn assignment_toks(l: SLine) -> Seq<STok> {
    seq![
        word("result"),
        STok::Group(
            Delim::Bracket,
            seq![STok::Group(Delim::Bracket, comma_idents(index_names(l.shape)))],
        ),
        alone('='),
        STok::Group(Delim::Brace, node_code(l.node, l.shape)),
        alone(';'),
    ]
}

/// The distinct axes of a line's expression, in the order of first occurrence.
pub open spec fn line_axes(l: SLine) -> Seq<Seq<char>> {
    first_occurrences(term_axes(node_terms(l.node)))
}

/// The code of a line.
pub open spec fn line_code(l: SLine) -> Seq<STok> {
    bounds_statements(node_terms(l.node), line_axes(l)) + allocation_toks(l.shape)
        + nest_loops_toks(assignment_toks(l), l.shape)
}

/// The code of the lines, one after the other.
pub open spec fn lines_code(ls: Seq<SLine>) -> Seq<STok>
    decreases ls.len(),
{
    if ls.len() == 0 {
        Seq::empty()
    } else {
        lines_code(ls.drop_last()) + line_code(ls.last())
    }
}

/// The expansion of an einsum expression: a block that runs the code of
/// each line and evaluates to `result`.
pub open spec fn expansion(ls: Seq<SLine>) -> STok {
    STok::Group(Delim::Brace, lines_code(ls) + seq![word("result")])
}

} // verus!
