//! Laws on the form of what the parser reads and of the code that expansion
//! writes, stated over tokens and characters.
use crate::expand_spec::{
    accumulate_toks, allocation_toks, expansion, assignment_toks, axis_uses, bounds_statements, comma_idents, field_uses,
    index_names, length_names, line_axes, line_code, lines_code, nest_loops_toks, node_code,
    node_terms, product_code, product_expr_toks, summed_axes, term_element_toks,
};
use crate::grammar::{
    binop_len, ident_list, is_reserved, joined_at, lemma_node_advances, line_at, lines_at, node_at, op_run, product_at, punct_at, run_text, shape_at, term_at,
    SLine, SNode, STerm,
};
use crate::outside::{is_binop_text, is_plain_ident};
use crate::text::{decimal, digit_char, index_name, length_name};
use crate::tokens::{Delim, STok, Tok};
use vstd::prelude::*;

verus! {

// ---------------------------------------------------------------------------
// Lists of names.
// ---------------------------------------------------------------------------
/// The tokens list `names` as identifiers separated by `,`: name `i` at
/// position `2 * i`, a `,` between each two.
pub open spec fn lists_names(toks: Seq<STok>, names: Seq<Seq<char>>) -> bool {
    &&& toks.len() == if names.len() == 0 {
        0
    } else {
        2 * names.len() - 1
    }
    &&& forall|i: int| 0 <= i < names.len() ==> #[trigger] toks[2 * i] == STok::Ident(names[i])
    &&& forall|i: int| 0 <= i < names.len() - 1 ==> #[trigger] toks[2 * i + 1] == STok::Punct(',', false)
}

/// A list of names is written with every name, in order, separated by `,`.
pub proof fn law_comma_idents_lists_every_name(xs: Seq<Seq<char>>)
    ensures
        lists_names(comma_idents(xs), xs),
    decreases xs.len(),
{
    if xs.len() > 1 {
        let d = xs.drop_last();
        law_comma_idents_lists_every_name(d);
        let c = comma_idents(xs);
        let cd = comma_idents(d);
        assert(c == cd + seq![STok::Punct(',', false), STok::Ident(xs.last())]);
        assert forall|i: int| 0 <= i < xs.len() implies #[trigger] c[2 * i] == STok::Ident(xs[i]) by {
            if i < d.len() {
                assert(c[2 * i] == cd[2 * i]);
                assert(cd[2 * i] == STok::Ident(d[i]));
            }
        }
        assert forall|i: int| 0 <= i < xs.len() - 1 implies #[trigger] c[2 * i + 1] == STok::Punct(',', false) by {
            if i < d.len() - 1 {
                assert(c[2 * i + 1] == cd[2 * i + 1]);
            }
        }
    }
}

/// The contents of a group (empty for other tokens).
pub open spec fn group_contents(t: STok) -> Seq<STok> {
    match t {
        STok::Group(_, c) => c,
        _ => Seq::empty(),
    }
}

/// The element of a term's array is indexed by the loop variables of all of
/// the term's axes, in order: `a[[<axis 0>_index, <axis 1>_index, ...]]`.
pub proof fn law_term_element_indexes_every_axis(t: STerm)
    ensures
        ({
            let toks = term_element_toks(t);
            let outer = group_contents(toks[1]);
            let inner = group_contents(outer[0]);
            &&& toks.len() == 2
            &&& toks[0] == STok::Ident(t.name)
            &&& toks[1] == STok::Group(Delim::Bracket, outer)
            &&& outer.len() == 1
            &&& outer[0] == STok::Group(Delim::Bracket, inner)
            &&& inner.len() == if t.fields.len() == 0 {
                0
            } else {
                2 * t.fields.len() - 1
            }
            &&& forall|i: int|
                0 <= i < t.fields.len() ==> #[trigger] inner[2 * i] == STok::Ident(
                    index_name(t.fields[i]),
                )
        }),
{
    let names = index_names(t.fields);
    law_comma_idents_lists_every_name(names);
    let inner = comma_idents(names);
    assert forall|i: int| 0 <= i < t.fields.len() implies #[trigger] inner[2 * i] == STok::Ident(
        index_name(t.fields[i]),
    ) by {
        assert(inner[2 * i] == STok::Ident(names[i]));
    }
}

/// The result is allocated with one length per output axis, in order:
/// `zeros((<axis 0>_length, <axis 1>_length, ...))`.
pub proof fn law_allocation_has_every_output_length(shape: Seq<Seq<char>>)
    ensures
        ({
            let toks = allocation_toks(shape);
            let outer = group_contents(toks[18]);
            let inner = group_contents(outer[0]);
            &&& toks.len() == 20
            &&& toks[17] == STok::Ident("zeros"@)
            &&& toks[18] == STok::Group(Delim::Paren, outer)
            &&& outer.len() == 1
            &&& outer[0] == STok::Group(Delim::Paren, inner)
            &&& inner.len() == if shape.len() == 0 {
                0
            } else {
                2 * shape.len() - 1
            }
            &&& forall|i: int|
                0 <= i < shape.len() ==> #[trigger] inner[2 * i] == STok::Ident(length_name(shape[i]))
        }),
{
    let names = length_names(shape);
    law_comma_idents_lists_every_name(names);
    let inner = comma_idents(names);
    assert forall|i: int| 0 <= i < shape.len() implies #[trigger] inner[2 * i] == STok::Ident(
        length_name(shape[i]),
    ) by {
        assert(inner[2 * i] == STok::Ident(names[i]));
    }
}

/// Each element of the result is assigned at the loop variables of all the
/// output axes, in order: `result[[<axis 0>_index, <axis 1>_index, ...]] = ...`.
pub proof fn law_assignment_indexes_every_output_axis(l: SLine)
    ensures
        ({
            let toks = assignment_toks(l);
            let outer = group_contents(toks[1]);
            let inner = group_contents(outer[0]);
            &&& toks[0] == STok::Ident("result"@)
            &&& toks[1] == STok::Group(Delim::Bracket, outer)
            &&& outer.len() == 1
            &&& outer[0] == STok::Group(Delim::Bracket, inner)
            &&& inner.len() == if l.shape.len() == 0 {
                0
            } else {
                2 * l.shape.len() - 1
            }
            &&& forall|i: int|
                0 <= i < l.shape.len() ==> #[trigger] inner[2 * i] == STok::Ident(
                    index_name(l.shape[i]),
                )
        }),
{
    let names = index_names(l.shape);
    law_comma_idents_lists_every_name(names);
    let inner = comma_idents(names);
    assert forall|i: int| 0 <= i < l.shape.len() implies #[trigger] inner[2 * i] == STok::Ident(
        index_name(l.shape[i]),
    ) by {
        assert(inner[2 * i] == STok::Ident(names[i]));
    }
}

// ---------------------------------------------------------------------------
// Operator nodes.
// ---------------------------------------------------------------------------
/// The code of an operator node binds `lhs_accum` to the code of its left
/// operand and `rhs_accum` to the code of its right operand, and ends with
/// `lhs_accum <operator> rhs_accum`: the left operand stays on the left.
pub proof fn law_operator_code_keeps_operands_in_place(
    l: SNode,
    op: Seq<char>,
    r: SNode,
    out: Seq<Seq<char>>,
)
    ensures
        ({
            let toks = node_code(SNode::Op(Box::new(l), op, Box::new(r)), out);
            let n = op.len() as int;
            &&& toks.len() == 12 + n
            &&& toks[0] == STok::Ident("let"@)
            &&& toks[1] == STok::Ident("lhs_accum"@)
            &&& toks[2] == STok::Punct('=', false)
            &&& toks[3] == STok::Group(Delim::Brace, node_code(l, out))
            &&& toks[5] == STok::Ident("let"@)
            &&& toks[6] == STok::Ident("rhs_accum"@)
            &&& toks[7] == STok::Punct('=', false)
            &&& toks[8] == STok::Group(Delim::Brace, node_code(r, out))
            &&& toks[10] == STok::Ident("lhs_accum"@)
            &&& forall|i: int| 0 <= i < n ==> #[trigger] toks[11 + i] == STok::Punct(op[i], i + 1 < n)
            &&& toks[11 + n] == STok::Ident("rhs_accum"@)
        }),
{
    let toks = node_code(SNode::Op(Box::new(l), op, Box::new(r)), out);
    let n = op.len() as int;
    assert forall|i: int| 0 <= i < n implies #[trigger] toks[11 + i] == STok::Punct(op[i], i + 1 < n) by {}
}

// ---------------------------------------------------------------------------
// Binary operators.
// ---------------------------------------------------------------------------
/// The characters that are binary operators on their own.
pub open spec fn single_char_op(c: char) -> bool {
    c == '+' || c == '-' || c == '*' || c == '/' || c == '%' || c == '^' || c == '&' || c == '|'
        || c == '<' || c == '>'
}

/// The pairs of characters that are binary operators when joined.
pub open spec fn two_char_op(c1: char, c2: char) -> bool {
    ||| c1 == '&' && c2 == '&'
    ||| c1 == '|' && c2 == '|'
    ||| c1 == '<' && c2 == '<'
    ||| c1 == '>' && c2 == '>'
    ||| c1 == '=' && c2 == '='
    ||| c1 == '<' && c2 == '='
    ||| c1 == '!' && c2 == '='
    ||| c1 == '>' && c2 == '='
}

proof fn lemma_binop_text_cases(s: Seq<char>)
    ensures
        s.len() == 1 ==> (is_binop_text(s) <==> single_char_op(s[0])),
        s.len() == 2 ==> (is_binop_text(s) <==> two_char_op(s[0], s[1])),
        s.len() == 3 ==> !is_binop_text(s),
{
    if s.len() == 1 && single_char_op(s[0]) {
        assert(s =~= seq![s[0]]);
    }
    if s.len() == 2 && two_char_op(s[0], s[1]) {
        assert(s =~= seq![s[0], s[1]]);
    }
}

/// The one-character operators are exactly the characters listed by
/// `single_char_op`.
pub proof fn law_operator_characters(c: char)
    ensures
        is_binop_text(seq![c]) == single_char_op(c),
{
    lemma_binop_text_cases(seq![c]);
}

/// A one-character operator that is not joined to the next token is read as
/// that operator, one token long.
pub proof fn law_lone_operator(ts: Seq<Tok>, j: int, c: char)
    requires
        0 <= j < ts.len(),
        ts[j] == Tok::Punct(c, false),
        single_char_op(c),
    ensures
        binop_len(ts, j) == 1,
        run_text(ts, j, 1) == seq![c],
{
    assert(punct_at(ts, j) == Some((c, false)));
    assert(!joined_at(ts, j));
    lemma_binop_text_cases(run_text(ts, j, 1));
    assert(run_text(ts, j, 1) =~= seq![c]);
}

/// A two-character operator written as two joined tokens is read as that
/// operator, two tokens long: the longer operator is taken.
pub proof fn law_joined_two_char_operator(ts: Seq<Tok>, j: int, c1: char, c2: char, s: bool)
    requires
        0 <= j,
        j + 1 < ts.len(),
        ts[j] == Tok::Punct(c1, true),
        ts[j + 1] == Tok::Punct(c2, s),
        two_char_op(c1, c2),
    ensures
        binop_len(ts, j) == 2,
        run_text(ts, j, 2) == seq![c1, c2],
{
    assert(punct_at(ts, j) == Some((c1, true)));
    assert(punct_at(ts, j + 1) == Some((c2, s)));
    assert(op_run(ts, j, 2));
    lemma_binop_text_cases(run_text(ts, j, 3));
    lemma_binop_text_cases(run_text(ts, j, 2));
    assert(run_text(ts, j, 2) =~= seq![c1, c2]);
}

/// A one-character operator joined to a token with which it makes no
/// two-character operator is read as that operator alone.
pub proof fn law_joined_one_char_operator(ts: Seq<Tok>, j: int, c: char)
    requires
        0 <= j < ts.len(),
        ts[j] == Tok::Punct(c, true),
        single_char_op(c),
        forall|c2: char, s: bool| j + 1 < ts.len() && ts[j + 1] == Tok::Punct(c2, s) ==> !two_char_op(c, c2),
    ensures
        binop_len(ts, j) == 1,
        run_text(ts, j, 1) == seq![c],
{
    assert(punct_at(ts, j) == Some((c, true)));
    lemma_binop_text_cases(run_text(ts, j, 3));
    lemma_binop_text_cases(run_text(ts, j, 2));
    lemma_binop_text_cases(run_text(ts, j, 1));
    if op_run(ts, j, 2) {
        let (c2, s) = punct_at(ts, j + 1).unwrap();
        assert(ts[j + 1] == Tok::Punct(c2, s));
        assert(run_text(ts, j, 2)[1] == c2);
    }
    assert(run_text(ts, j, 1) =~= seq![c]);
}

/// A token that starts no operator is not read as one.
pub proof fn law_no_operator(ts: Seq<Tok>, j: int)
    requires
        0 <= j < ts.len(),
        forall|c: char, s: bool| ts[j] == Tok::Punct(c, s) ==> !single_char_op(c) && c != '=' && c != '!',
    ensures
        binop_len(ts, j) == 0,
{
    lemma_binop_text_cases(run_text(ts, j, 3));
    lemma_binop_text_cases(run_text(ts, j, 2));
    lemma_binop_text_cases(run_text(ts, j, 1));
    if punct_at(ts, j) is Some {
        let (c, s) = punct_at(ts, j).unwrap();
        assert(ts[j] == Tok::Punct(c, s));
    }
}

/// After a product, a one-character operator (not joined to the next token)
/// followed by a node makes an operator node: the product on the left, that
/// operator, and the following node on the right.
pub proof fn law_operator_node(ts: Seq<Tok>, i: int, c: char)
    requires
        product_at(ts, i) is Ok,
        0 <= product_at(ts, i).unwrap().1 < ts.len(),
        ts[product_at(ts, i).unwrap().1] == Tok::Punct(c, false),
        single_char_op(c),
        node_at(ts, product_at(ts, i).unwrap().1 + 1) is Ok,
    ensures
        node_at(ts, i) == Ok::<(SNode, int), crate::grammar::ParseError>(
            (
                SNode::Op(
                    Box::new(SNode::Product(product_at(ts, i).unwrap().0)),
                    seq![c],
                    Box::new(node_at(ts, product_at(ts, i).unwrap().1 + 1).unwrap().0),
                ),
                node_at(ts, product_at(ts, i).unwrap().1 + 1).unwrap().1,
            ),
        ),
{
    let j = product_at(ts, i).unwrap().1;
    law_lone_operator(ts, j, c);
}

// ---------------------------------------------------------------------------
// Lists of axes.
// ---------------------------------------------------------------------------
/// The token is the identifier `x`.
pub open spec fn is_ident_token(t: Tok, x: Seq<char>) -> bool {
    match t {
        Tok::Ident(s) => s@ == x,
        _ => false,
    }
}

/// The token is a `,`.
pub open spec fn is_comma_token(t: Tok) -> bool {
    match t {
        Tok::Punct(c, _) => c == ',',
        _ => false,
    }
}

/// Identifiers `names` separated by `,`, with or without a trailing `,`.
pub open spec fn spells_axes(ts: Seq<Tok>, names: Seq<Seq<char>>) -> bool {
    &&& names.len() > 0
    &&& (ts.len() == 2 * names.len() - 1 || (ts.len() == 2 * names.len() && is_comma_token(
        ts[2 * names.len() - 1],
    )))
    &&& forall|i: int| 0 <= i < names.len() ==> is_ident_token(#[trigger] ts[2 * i], names[i])
    &&& forall|i: int| 0 <= i < names.len() ==> !(is_plain_ident(#[trigger] names[i]) && is_reserved(names[i]))
    &&& forall|i: int| 0 <= i < names.len() - 1 ==> is_comma_token(#[trigger] ts[2 * i + 1])
}

proof fn lemma_ident_list_suffix(ts: Seq<Tok>, names: Seq<Seq<char>>, k: int)
    requires
        spells_axes(ts, names),
        0 <= k < names.len(),
    ensures
        ident_list(ts, 2 * k) == Ok::<Seq<Seq<char>>, crate::grammar::ParseError>(names.skip(k)),
    decreases names.len() - k,
{
    assert(is_ident_token(ts[2 * k], names[k]));
    assert(!(is_plain_ident(names[k]) && is_reserved(names[k])));
    if k + 1 < names.len() {
        assert(is_comma_token(ts[2 * k + 1]));
        lemma_ident_list_suffix(ts, names, k + 1);
        assert(seq![names[k]] + names.skip(k + 1) =~= names.skip(k));
    } else {
        assert(names.skip(k) =~= seq![names[k]]);
        if 2 * k + 1 < ts.len() {
            assert(is_comma_token(ts[2 * k + 1]));
            assert(seq![names[k]] + Seq::<Seq<char>>::empty() =~= seq![names[k]]);
        }
    }
}

/// A list of axes keeps every axis, in order: identifiers separated by `,`
/// (with or without a trailing `,`) read as exactly those identifiers.
pub proof fn law_ident_list_keeps_every_axis(ts: Seq<Tok>, names: Seq<Seq<char>>)
    requires
        spells_axes(ts, names),
    ensures
        ident_list(ts, 0) == Ok::<Seq<Seq<char>>, crate::grammar::ParseError>(names),
{
    lemma_ident_list_suffix(ts, names, 0);
    assert(names.skip(0) =~= names);
}

// ---------------------------------------------------------------------------
// Products and loop nests.
// ---------------------------------------------------------------------------
/// The product multiplies the elements of all the terms, in order: the
/// element of term `i` stands at positions `3 * i` and `3 * i + 1`, and a `*`
/// follows each element but the last.
pub proof fn law_product_multiplies_every_term(ts: Seq<STerm>)
    ensures
        ({
            let toks = product_expr_toks(ts);
            &&& toks.len() == if ts.len() == 0 {
                0
            } else {
                3 * ts.len() - 1
            }
            &&& forall|i: int|
                0 <= i < ts.len() ==> #[trigger] toks.subrange(3 * i, 3 * i + 2)
                    == term_element_toks(ts[i])
            &&& forall|i: int| 0 <= i < ts.len() - 1 ==> #[trigger] toks[3 * i + 2] == STok::Punct('*', false)
        }),
    decreases ts.len(),
{
    if ts.len() == 1 {
        assert(product_expr_toks(ts).subrange(0, 2) =~= term_element_toks(ts[0]));
    } else if ts.len() > 1 {
        let d = ts.drop_last();
        law_product_multiplies_every_term(d);
        let c = product_expr_toks(ts);
        let cd = product_expr_toks(d);
        assert(c == cd + seq![STok::Punct('*', false)] + term_element_toks(ts.last()));
        assert forall|i: int| 0 <= i < ts.len() implies #[trigger] c.subrange(3 * i, 3 * i + 2)
            == term_element_toks(ts[i]) by {
            if i < d.len() {
                assert(cd.subrange(3 * i, 3 * i + 2) == term_element_toks(d[i]));
                assert(c.subrange(3 * i, 3 * i + 2) =~= cd.subrange(3 * i, 3 * i + 2));
            } else {
                assert(c.subrange(3 * i, 3 * i + 2) =~= term_element_toks(ts.last()));
            }
        }
        assert forall|i: int| 0 <= i < ts.len() - 1 implies #[trigger] c[3 * i + 2] == STok::Punct('*', false) by {
            if i < d.len() - 1 {
                assert(c[3 * i + 2] == cd[3 * i + 2]);
            }
        }
    }
}

/// The body of the loop that `toks` holds, `depth` loops down.
pub open spec fn loop_at_depth(toks: Seq<STok>, depth: nat) -> Seq<STok>
    decreases depth,
{
    if depth == 0 {
        toks
    } else {
        loop_at_depth(group_contents(toks[7]), (depth - 1) as nat)
    }
}

/// The tokens are one loop `for <axis>_index in 0..<axis>_length { ... }`.
pub open spec fn is_loop_over(toks: Seq<STok>, axis: Seq<char>) -> bool {
    &&& toks.len() == 8
    &&& toks[0] == STok::Ident("for"@)
    &&& toks[1] == STok::Ident(index_name(axis))
    &&& toks[2] == STok::Ident("in"@)
    &&& toks[3] == STok::Lit("0"@)
    &&& toks[4] == STok::Punct('.', true)
    &&& toks[5] == STok::Punct('.', false)
    &&& toks[6] == STok::Ident(length_name(axis))
    &&& toks[7] == STok::Group(Delim::Brace, group_contents(toks[7]))
}

/// The tokens are one loop per axis, the last axis outermost and the first
/// innermost, with `body` inside the innermost.
pub open spec fn loops_over_every_axis(toks: Seq<STok>, axes: Seq<Seq<char>>, body: Seq<STok>) -> bool {
    &&& forall|k: nat|
        k < axes.len() ==> is_loop_over(#[trigger] loop_at_depth(toks, k), axes[axes.len() - 1 - k])
    &&& loop_at_depth(toks, axes.len()) == body
}

/// A loop nest has one loop for each of its axes, in order, around its body.
pub proof fn law_nest_loops_over_every_axis(body: Seq<STok>, axes: Seq<Seq<char>>)
    ensures
        loops_over_every_axis(nest_loops_toks(body, axes), axes, body),
    decreases axes.len(),
{
    if axes.len() > 0 {
        let d = axes.drop_last();
        let t = nest_loops_toks(body, axes);
        let inner = nest_loops_toks(body, d);
        law_nest_loops_over_every_axis(body, d);
        assert(group_contents(t[7]) == inner);
        assert forall|k: nat| k < axes.len() implies is_loop_over(
            #[trigger] loop_at_depth(t, k),
            axes[axes.len() - 1 - k],
        ) by {
            if k > 0 {
                let k1 = (k - 1) as nat;
                assert(loop_at_depth(t, k) == loop_at_depth(inner, k1));
                assert(is_loop_over(loop_at_depth(inner, k1), d[d.len() - 1 - k1]));
            }
        }
        assert(loop_at_depth(t, axes.len()) == loop_at_depth(inner, d.len()));
    }
}

/// The code of a product starts the accumulator at zero, adds the product of
/// all its terms' elements inside one loop per summed axis, and ends with
/// the accumulator.
pub proof fn law_product_code_sums_the_product(ts: Seq<STerm>, out: Seq<Seq<char>>)
    ensures
        ({
            let toks = product_code(ts, out);
            &&& toks.len() >= 7
            &&& toks.take(6) == seq![
                STok::Ident("let"@),
                STok::Ident("mut"@),
                STok::Ident("term_product_accum"@),
                STok::Punct('=', false),
                STok::Lit("0f32"@),
                STok::Punct(';', false),
            ]
            &&& toks.last() == STok::Ident("term_product_accum"@)
            &&& loops_over_every_axis(
                toks.subrange(6, toks.len() - 1),
                summed_axes(ts, out),
                seq![
                    STok::Ident("term_product_accum"@),
                    STok::Punct('+', true),
                    STok::Punct('=', false),
                ] + product_expr_toks(ts) + seq![STok::Punct(';', false)],
            )
        }),
{
    let body = accumulate_toks(ts);
    let nest = nest_loops_toks(body, summed_axes(ts, out));
    law_nest_loops_over_every_axis(body, summed_axes(ts, out));
    let toks = product_code(ts, out);
    assert(toks.subrange(6, toks.len() - 1) =~= nest);
    assert(toks.take(6) =~= seq![
        STok::Ident("let"@),
        STok::Ident("mut"@),
        STok::Ident("term_product_accum"@),
        STok::Punct('=', false),
        STok::Lit("0f32"@),
        STok::Punct(';', false),
    ]);
}

/// The code of a line allocates the result, then assigns it inside one loop
/// per output axis, the last output axis outermost.
pub proof fn law_line_code_loops_over_every_output_axis(l: SLine)
    ensures
        ({
            let toks = line_code(l);
            let b = bounds_statements(node_terms(l.node), line_axes(l)).len() as int;
            let a = allocation_toks(l.shape);
            &&& toks.subrange(b, b + a.len()) == a
            &&& loops_over_every_axis(toks.skip(b + a.len()), l.shape, assignment_toks(l))
        }),
{
    let bs = bounds_statements(node_terms(l.node), line_axes(l));
    let a = allocation_toks(l.shape);
    let nest = nest_loops_toks(assignment_toks(l), l.shape);
    law_nest_loops_over_every_axis(assignment_toks(l), l.shape);
    let toks = line_code(l);
    assert(toks == bs + a + nest);
    assert(toks.subrange(bs.len() as int, bs.len() as int + a.len()) =~= a);
    assert(toks.skip(bs.len() as int + a.len()) =~= nest);
}

/// The code of several lines is the code of each line, in order: a line
/// added after others adds its own code after theirs.
pub proof fn law_lines_code_runs_every_line(ls: Seq<SLine>, l: SLine)
    ensures
        lines_code(ls.push(l)) == lines_code(ls) + line_code(l),
        lines_code(seq![l]) == line_code(l),
{
    assert(ls.push(l).drop_last() =~= ls);
    assert(seq![l].drop_last() =~= Seq::<SLine>::empty());
    assert(lines_code(Seq::<SLine>::empty()) + line_code(l) =~= line_code(l));
}

// ---------------------------------------------------------------------------
// Terms, products and lines as read from tokens.
// ---------------------------------------------------------------------------
/// The token is a group in square brackets holding `contents`.
pub open spec fn is_bracket_group(t: Tok, contents: Seq<Tok>) -> bool {
    match t {
        Tok::Group(Delim::Bracket, c) => c@ == contents,
        _ => false,
    }
}

/// A group in square brackets that spells axes reads as exactly those axes.
pub proof fn law_shape_keeps_every_axis(ts: Seq<Tok>, i: int, contents: Seq<Tok>, names: Seq<Seq<char>>)
    requires
        0 <= i < ts.len(),
        is_bracket_group(ts[i], contents),
        spells_axes(contents, names),
    ensures
        shape_at(ts, i) == Ok::<(Seq<Seq<char>>, int), crate::grammar::ParseError>((names, i + 1)),
{
    law_ident_list_keeps_every_axis(contents, names);
}

/// An array name followed by a group in square brackets that spells axes
/// reads as a term with that name and exactly those axes, two tokens long.
pub proof fn law_term_keeps_name_and_axes(
    ts: Seq<Tok>,
    i: int,
    name: Seq<char>,
    contents: Seq<Tok>,
    names: Seq<Seq<char>>,
)
    requires
        0 <= i,
        i + 1 < ts.len(),
        is_ident_token(ts[i], name),
        !(is_plain_ident(name) && is_reserved(name)),
        is_bracket_group(ts[i + 1], contents),
        spells_axes(contents, names),
    ensures
        term_at(ts, i) == Ok::<(STerm, int), crate::grammar::ParseError>(
            (STerm { name: name, fields: names }, i + 2),
        ),
{
    law_shape_keeps_every_axis(ts, i + 1, contents, names);
}

/// A term followed by a lone `*` and a product makes a product that keeps
/// that term first and every term of the rest after it.
pub proof fn law_product_keeps_every_term(ts: Seq<Tok>, i: int)
    requires
        term_at(ts, i) is Ok,
        0 <= term_at(ts, i).unwrap().1 < ts.len(),
        ts[term_at(ts, i).unwrap().1] == Tok::Punct('*', false),
        product_at(ts, term_at(ts, i).unwrap().1 + 1) is Ok,
    ensures
        product_at(ts, i) == Ok::<(Seq<STerm>, int), crate::grammar::ParseError>(
            (
                seq![term_at(ts, i).unwrap().0] + product_at(ts, term_at(ts, i).unwrap().1 + 1).unwrap().0,
                product_at(ts, term_at(ts, i).unwrap().1 + 1).unwrap().1,
            ),
        ),
{
    let j = term_at(ts, i).unwrap().1;
    law_lone_operator(ts, j, '*');
}

/// A product that no operator follows is a node by itself.
pub proof fn law_product_node(ts: Seq<Tok>, i: int)
    requires
        product_at(ts, i) is Ok,
        ({
            let j = product_at(ts, i).unwrap().1;
            0 <= j < ts.len() ==> forall|c: char, s: bool|
                ts[j] == Tok::Punct(c, s) ==> !single_char_op(c) && c != '=' && c != '!'
        }),
    ensures
        node_at(ts, i) == Ok::<(SNode, int), crate::grammar::ParseError>(
            (SNode::Product(product_at(ts, i).unwrap().0), product_at(ts, i).unwrap().1),
        ),
{
    let j = product_at(ts, i).unwrap().1;
    if 0 <= j < ts.len() {
        law_no_operator(ts, j);
    } else {
        assert(punct_at(ts, j) is None);
    }
}

/// A node, a `~` and a group in square brackets that spells axes read as a
/// line with that node and exactly those output axes.
pub proof fn law_line_keeps_node_and_shape(
    ts: Seq<Tok>,
    i: int,
    contents: Seq<Tok>,
    names: Seq<Seq<char>>,
)
    requires
        node_at(ts, i) is Ok,
        0 <= node_at(ts, i).unwrap().1,
        node_at(ts, i).unwrap().1 + 1 < ts.len(),
        ts[node_at(ts, i).unwrap().1] matches Tok::Punct(c, _) && c == '~',
        is_bracket_group(ts[node_at(ts, i).unwrap().1 + 1], contents),
        spells_axes(contents, names),
    ensures
        line_at(ts, i) == Ok::<(SLine, int), crate::grammar::ParseError>(
            (
                SLine { node: node_at(ts, i).unwrap().0, shape: names },
                node_at(ts, i).unwrap().1 + 2,
            ),
        ),
{
    let j = node_at(ts, i).unwrap().1;
    law_shape_keeps_every_axis(ts, j + 1, contents, names);
}

// ---------------------------------------------------------------------------
// Where lengths are read.
// ---------------------------------------------------------------------------
/// Each use of an axis names the array of a term and a position at which
/// that term is indexed by the axis.
pub proof fn law_axis_uses_point_at_the_axis(ts: Seq<STerm>, a: Seq<char>)
    ensures
        forall|k: int|
            0 <= k < axis_uses(ts, a).len() ==> exists|t: int|
                0 <= t < ts.len() && #[trigger] ts[t].name == (#[trigger] axis_uses(ts, a)[k]).0
                    && axis_uses(ts, a)[k].1 < ts[t].fields.len()
                    && ts[t].fields[axis_uses(ts, a)[k].1 as int] == a,
    decreases ts.len(),
{
    if ts.len() > 0 {
        let d = ts.drop_last();
        law_axis_uses_point_at_the_axis(d, a);
        let last = ts.last();
        lemma_field_uses_point_at_the_axis(last.name, last.fields, a);
        let u = axis_uses(ts, a);
        let ud = axis_uses(d, a);
        let uf = field_uses(last.name, last.fields, a);
        assert(u == ud + uf);
        assert forall|k: int| 0 <= k < u.len() implies exists|t: int|
            0 <= t < ts.len() && #[trigger] ts[t].name == (#[trigger] u[k]).0 && u[k].1
                < ts[t].fields.len() && ts[t].fields[u[k].1 as int] == a by {
            if k < ud.len() {
                assert(u[k] == ud[k]);
                let t = choose|t: int|
                    0 <= t < d.len() && #[trigger] d[t].name == (#[trigger] ud[k]).0 && ud[k].1
                        < d[t].fields.len() && d[t].fields[ud[k].1 as int] == a;
                assert(ts[t] == d[t]);
            } else {
                assert(u[k] == uf[k - ud.len()]);
                assert(ts[ts.len() - 1] == last);
            }
        }
    }
}

proof fn lemma_field_uses_point_at_the_axis(name: Seq<char>, fields: Seq<Seq<char>>, a: Seq<char>)
    ensures
        forall|k: int|
            0 <= k < field_uses(name, fields, a).len() ==> (#[trigger] field_uses(name, fields, a)[k]).0
                == name && field_uses(name, fields, a)[k].1 < fields.len()
                && fields[field_uses(name, fields, a)[k].1 as int] == a,
    decreases fields.len(),
{
    if fields.len() > 0 {
        let d = fields.drop_last();
        lemma_field_uses_point_at_the_axis(name, d, a);
        let u = field_uses(name, fields, a);
        let ud = field_uses(name, d, a);
        assert forall|k: int| 0 <= k < u.len() implies (#[trigger] u[k]).0 == name && u[k].1
            < fields.len() && fields[u[k].1 as int] == a by {
            if k < ud.len() {
                assert(u[k] == ud[k]);
                assert(fields[ud[k].1 as int] == d[ud[k].1 as int]);
            }
        }
    }
}

// ---------------------------------------------------------------------------
// Numerals and lines.
// ---------------------------------------------------------------------------
/// The value of a decimal digit character (0 for any other character).
pub open spec fn digit_value(c: char) -> int {
    if c == '1' {
        1
    } else if c == '2' {
        2
    } else if c == '3' {
        3
    } else if c == '4' {
        4
    } else if c == '5' {
        5
    } else if c == '6' {
        6
    } else if c == '7' {
        7
    } else if c == '8' {
        8
    } else if c == '9' {
        9
    } else {
        0
    }
}

/// The character is one of `0` to `9`.
pub open spec fn is_digit(c: char) -> bool {
    c == '0' || c == '1' || c == '2' || c == '3' || c == '4' || c == '5' || c == '6' || c == '7'
        || c == '8' || c == '9'
}

/// The number that a string of decimal digits denotes.
pub open spec fn decimal_value(s: Seq<char>) -> int
    decreases s.len(),
{
    if s.len() == 0 {
        0
    } else {
        decimal_value(s.drop_last()) * 10 + digit_value(s.last())
    }
}

/// The numeral of a number is made of decimal digits, has no leading zero,
/// and reads back as that number: the position written into a `shape()`
/// index is the position itself.
pub proof fn law_decimal_reads_back(n: nat)
    ensures
        decimal(n).len() >= 1,
        forall|i: int| 0 <= i < decimal(n).len() ==> is_digit(#[trigger] decimal(n)[i]),
        n > 0 ==> decimal(n)[0] != '0',
        decimal_value(decimal(n)) == n,
    decreases n,
{
    if n >= 10 {
        let q = n / 10;
        law_decimal_reads_back(q);
        let d = decimal(q);
        let s = decimal(n);
        assert(s == d.push(digit_char((n % 10) as int)));
        assert(s.drop_last() =~= d);
        vstd::arithmetic::div_mod::lemma_fundamental_div_mod(n as int, 10);
        assert forall|i: int| 0 <= i < s.len() implies is_digit(#[trigger] s[i]) by {
            if i < d.len() {
                assert(s[i] == d[i]);
            }
        }
        assert(s[0] == d[0]);
        let r = (n % 10) as int;
        assert(0 <= r < 10);
        assert(digit_value(digit_char(r)) == r);
        assert(decimal_value(s) == decimal_value(d) * 10 + digit_value(s.last()));
        assert(n == 10 * q + r);
    } else {
        let s = decimal(n);
        assert(s.drop_last() =~= Seq::<char>::empty());
        assert(digit_value(digit_char(n as int)) == n);
        assert(decimal_value(s) == decimal_value(s.drop_last()) * 10 + digit_value(s.last()));
    }
}

/// Lines separated by `;` read as every line, in order: a line, a `;` and
/// further lines give that line followed by each of them.
pub proof fn law_lines_keep_every_line(ts: Seq<Tok>, i: int)
    requires
        line_at(ts, i) is Ok,
        0 <= line_at(ts, i).unwrap().1 < ts.len(),
        ts[line_at(ts, i).unwrap().1] matches Tok::Punct(c, _) && c == ';',
        lines_at(ts, line_at(ts, i).unwrap().1 + 1) is Ok,
    ensures
        lines_at(ts, i) == Ok::<Seq<SLine>, crate::grammar::ParseError>(
            seq![line_at(ts, i).unwrap().0] + lines_at(ts, line_at(ts, i).unwrap().1 + 1).unwrap(),
        ),
{
    lemma_node_advances(ts, i);
}

/// The expansion is one block that runs the code of every line, in order,
/// and then evaluates to the result.
pub proof fn law_expansion_evaluates_to_result(ls: Seq<SLine>)
    ensures
        ({
            let body = group_contents(expansion(ls));
            &&& expansion(ls) == STok::Group(Delim::Brace, body)
            &&& body.len() == lines_code(ls).len() + 1
            &&& body.take(lines_code(ls).len() as int) == lines_code(ls)
            &&& body.last() == STok::Ident("result"@)
        }),
{
    let body = group_contents(expansion(ls));
    assert(body.take(lines_code(ls).len() as int) =~= lines_code(ls));
}

} // verus!
