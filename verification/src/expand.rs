//! Expansion of einsum expressions into Rust code over `ndarray` arrays.
use crate::expand_spec::{
    accumulate_toks, allocation_toks, assignment_toks, axes_not_in, axis_statements, axis_uses,
    bounds_statements, comma_idents, expansion, field_uses, for_loop_toks, index_names,
    length_binding_toks, length_check_toks, length_checks_toks, length_names, line_axes, line_code,
    lines_code, nest_loops_toks, node_code, node_terms, op_puncts, product_code, product_expr_toks,
    shape_of_toks, summed_axes, term_axes, term_element_toks, word,
};
use crate::grammar::{parse_expr, STerm};
use crate::laws::{lemma_axis_uses_nonempty, lemma_first_occurrences_contains};
use crate::outside::{first_occurrences, strings_view, unique_strings};
use crate::parse::{terms_view, FullExpr, Line, Node, Term, TermProduct};
use crate::text::{
    index_name, index_name_text, length_name, length_name_text, usize_literal_text,
};
use crate::tokens::{
    append_toks, push_group, push_ident, push_lit, push_punct, push_word, toks_view, Delim, STok,
    Tok,
};
use vstd::prelude::*;

verus! {

/// Identifiers separated by commas.
fn render_comma_idents(names: &Vec<String>) -> (r: Vec<Tok>)
    ensures
        toks_view(r@) == comma_idents(strings_view(names@)),
{
    let mut out: Vec<Tok> = Vec::new();
    let n = names.len();
    for k in 0..n
        invariant
            n == names@.len(),
            toks_view(out@) == comma_idents(strings_view(names@).take(k as int)),
    {
        let ghost xs = strings_view(names@);
        assert(xs.take(k + 1).drop_last() =~= xs.take(k as int));
        assert(xs.take(k + 1).last() == names@[k as int]@);
        if k > 0 {
            push_punct(&mut out, ',', false);
        }
        push_ident(&mut out, names[k].clone());
        if k == 0 {
            assert(toks_view(out@) =~= comma_idents(xs.take(1)));
        } else {
            assert(toks_view(out@) =~= comma_idents(xs.take(k + 1)));
        }
    }
    assert(strings_view(names@).take(n as int) =~= strings_view(names@));
    out
}

/// The loop variables of the axes.
fn index_names_of(axes: &Vec<String>) -> (r: Vec<String>)
    ensures
        strings_view(r@) == index_names(strings_view(axes@)),
{
    let mut out: Vec<String> = Vec::new();
    let n = axes.len();
    for k in 0..n
        invariant
            n == axes@.len(),
            out@.len() == k,
            forall|m: int| 0 <= m < k ==> #[trigger] out@[m]@ == index_name(axes@[m]@),
    {
        out.push(index_name_text(&axes[k]));
    }
    assert(strings_view(out@) =~= index_names(strings_view(axes@)));
    out
}

/// The length variables of the axes.
fn length_names_of(axes: &Vec<String>) -> (r: Vec<String>)
    ensures
        strings_view(r@) == length_names(strings_view(axes@)),
{
    let mut out: Vec<String> = Vec::new();
    let n = axes.len();
    for k in 0..n
        invariant
            n == axes@.len(),
            out@.len() == k,
            forall|m: int| 0 <= m < k ==> #[trigger] out@[m]@ == length_name(axes@[m]@),
    {
        out.push(length_name_text(&axes[k]));
    }
    assert(strings_view(out@) =~= length_names(strings_view(axes@)));
    out
}

/// `name[[i1, i2, ...]]`: the element of a term's array at the loop indices.
fn render_term_element(t: &Term) -> (r: Vec<Tok>)
    ensures
        toks_view(r@) == term_element_toks(t@),
{
    let idx = index_names_of(&t.paren_fields);
    let inner = render_comma_idents(&idx);
    let mut index: Vec<Tok> = Vec::new();
    push_group(&mut index, Delim::Bracket, inner);
    let mut out: Vec<Tok> = Vec::new();
    push_ident(&mut out, t.array_name.clone());
    push_group(&mut out, Delim::Bracket, index);
    assert(toks_view(out@) =~= term_element_toks(t@));
    out
}

/// `for <axis>_index in 0..<axis>_length { body }`
fn render_for_loop(axis: &String, body: Vec<Tok>) -> (r: Vec<Tok>)
    ensures
        toks_view(r@) == for_loop_toks(axis@, toks_view(body@)),
{
    let mut out: Vec<Tok> = Vec::new();
    push_word(&mut out, "for");
    push_ident(&mut out, index_name_text(axis));
    push_word(&mut out, "in");
    push_lit(&mut out, String::from_str("0"));
    push_punct(&mut out, '.', true);
    push_punct(&mut out, '.', false);
    push_ident(&mut out, length_name_text(axis));
    push_group(&mut out, Delim::Brace, body);
    assert(toks_view(out@) =~= for_loop_toks(axis@, toks_view(body@)));
    out
}

/// Wraps `body` in one loop per axis, the first axis innermost.
fn render_loop_nest(body: Vec<Tok>, axes: &Vec<String>) -> (r: Vec<Tok>)
    ensures
        toks_view(r@) == nest_loops_toks(toks_view(body@), strings_view(axes@)),
{
    let ghost b = toks_view(body@);
    let mut out = body;
    let n = axes.len();
    for k in 0..n
        invariant
            n == axes@.len(),
            toks_view(out@) == nest_loops_toks(b, strings_view(axes@).take(k as int)),
    {
        let ghost xs = strings_view(axes@);
        assert(xs.take(k + 1).drop_last() =~= xs.take(k as int));
        assert(xs.take(k + 1).last() == axes@[k as int]@);
        out = render_for_loop(&axes[k], out);
    }
    assert(strings_view(axes@).take(n as int) =~= strings_view(axes@));
    out
}


/// The terms that a vector of references points to.
pub open spec fn refs_view(v: Seq<&Term>) -> Seq<STerm> {
    v.map_values(|t: &Term| t@)
}

/// The elements of the terms' arrays multiplied together.
fn render_product_expr(terms: &Vec<&Term>) -> (r: Vec<Tok>)
    ensures
        toks_view(r@) == product_expr_toks(refs_view(terms@)),
{
    let mut out: Vec<Tok> = Vec::new();
    let n = terms.len();
    for k in 0..n
        invariant
            n == terms@.len(),
            toks_view(out@) == product_expr_toks(refs_view(terms@).take(k as int)),
    {
        let ghost ts = refs_view(terms@);
        assert(ts.take(k + 1).drop_last() =~= ts.take(k as int));
        assert(ts.take(k + 1).last() == terms@[k as int]@);
        let element = render_term_element(terms[k]);
        if k > 0 {
            push_punct(&mut out, '*', false);
        }
        append_toks(&mut out, element);
        if k == 0 {
            assert(toks_view(out@) =~= product_expr_toks(ts.take(1)));
        } else {
            assert(toks_view(out@) =~= product_expr_toks(ts.take(k + 1)));
        }
    }
    assert(refs_view(terms@).take(n as int) =~= refs_view(terms@));
    out
}

/// The axes of the terms, term after term, with repetitions.
fn collect_term_axes(terms: &Vec<&Term>) -> (r: Vec<String>)
    ensures
        strings_view(r@) == term_axes(refs_view(terms@)),
{
    let mut out: Vec<String> = Vec::new();
    let n = terms.len();
    for k in 0..n
        invariant
            n == terms@.len(),
            strings_view(out@) == term_axes(refs_view(terms@).take(k as int)),
    {
        let ghost ts = refs_view(terms@);
        assert(ts.take(k + 1).drop_last() =~= ts.take(k as int));
        assert(ts.take(k + 1).last() == terms@[k as int]@);
        let ghost before = strings_view(out@);
        let fields = &terms[k].paren_fields;
        let m = fields.len();
        for f in 0..m
            invariant
                m == fields@.len(),
                k < n,
                n == terms@.len(),
                fields == terms@[k as int].paren_fields,
                strings_view(out@) == before + strings_view(fields@).take(f as int),
        {
            let ghost prev = out@;
            out.push(fields[f].clone());
            assert(out@ == prev.push(fields@[f as int]));
            assert(strings_view(out@) =~= strings_view(prev).push(fields@[f as int]@));
            assert(strings_view(fields@).take(f + 1) =~= strings_view(fields@).take(f as int).push(
                fields@[f as int]@,
            ));
            assert(strings_view(out@) =~= before + strings_view(fields@).take(f + 1));
        }
        assert(strings_view(fields@).take(m as int) =~= strings_view(fields@));
    }
    assert(refs_view(terms@).take(n as int) =~= refs_view(terms@));
    out
}

/// Whether `s` is among `v`.
fn contains_text(v: &Vec<String>, s: &String) -> (r: bool)
    ensures
        r == strings_view(v@).contains(s@),
{
    let n = v.len();
    for k in 0..n
        invariant
            n == v@.len(),
            forall|m: int| 0 <= m < k ==> v@[m]@ != s@,
    {
        if v[k] == *s {
            assert(strings_view(v@)[k as int] == s@);
            return true;
        }
    }
    assert forall|m: int| 0 <= m < strings_view(v@).len() implies strings_view(v@)[m] != s@ by {}
    false
}

/// The axes of `xs` that are not in `out`, in order.
fn filter_axes_not_in(xs: &Vec<String>, out: &Vec<String>) -> (r: Vec<String>)
    ensures
        strings_view(r@) == axes_not_in(strings_view(xs@), strings_view(out@)),
{
    let mut kept: Vec<String> = Vec::new();
    let n = xs.len();
    for k in 0..n
        invariant
            n == xs@.len(),
            strings_view(kept@) == axes_not_in(strings_view(xs@).take(k as int), strings_view(out@)),
    {
        let ghost v = strings_view(xs@);
        assert(v.take(k + 1).drop_last() =~= v.take(k as int));
        assert(v.take(k + 1).last() == xs@[k as int]@);
        if !contains_text(out, &xs[k]) {
            let ghost before = kept@;
            kept.push(xs[k].clone());
            assert(strings_view(kept@) =~= strings_view(before).push(xs@[k as int]@));
        }
    }
    assert(strings_view(xs@).take(n as int) =~= strings_view(xs@));
    kept
}

/// References to the terms of a vector.
fn term_refs(terms: &Vec<Term>) -> (r: Vec<&Term>)
    ensures
        refs_view(r@) == terms_view(terms@),
{
    let mut out: Vec<&Term> = Vec::new();
    let n = terms.len();
    for k in 0..n
        invariant
            n == terms@.len(),
            out@.len() == k,
            forall|m: int| 0 <= m < k ==> *#[trigger] out@[m] == terms@[m],
    {
        out.push(&terms[k]);
    }
    assert(refs_view(out@) =~= terms_view(terms@));
    out
}

impl TermProduct {
    /// The code of a product of terms: it sums, over the product's axes that
    /// are not among `output_dims`, the product of the terms' elements.
    pub fn render_template(&self, output_dims: &Vec<String>) -> (r: Vec<Tok>)
        ensures
            toks_view(r@) == product_code(terms_view(self.terms@), strings_view(output_dims@)),
    {
        let refs = term_refs(&self.terms);
        let ghost ts = terms_view(self.terms@);
        let ghost out_dims = strings_view(output_dims@);
        let product = render_product_expr(&refs);
        let mut accumulate: Vec<Tok> = Vec::new();
        push_word(&mut accumulate, "term_product_accum");
        push_punct(&mut accumulate, '+', true);
        push_punct(&mut accumulate, '=', false);
        append_toks(&mut accumulate, product);
        push_punct(&mut accumulate, ';', false);
        assert(toks_view(accumulate@) =~= accumulate_toks(ts));
        let all_axis_symbols = unique_strings(collect_term_axes(&refs));
        let removed_dims = filter_axes_not_in(&all_axis_symbols, output_dims);
        assert(strings_view(removed_dims@) == summed_axes(ts, out_dims));
        let nest = render_loop_nest(accumulate, &removed_dims);
        let mut out: Vec<Tok> = Vec::new();
        push_word(&mut out, "let");
        push_word(&mut out, "mut");
        push_word(&mut out, "term_product_accum");
        push_punct(&mut out, '=', false);
        push_lit(&mut out, String::from_str("0f32"));
        push_punct(&mut out, ';', false);
        append_toks(&mut out, nest);
        push_word(&mut out, "term_product_accum");
        assert(toks_view(out@) =~= product_code(ts, out_dims));
        out
    }
}


/// The characters of an operator as punctuation, each joined to the next but the last.
fn render_op(symbol: &String) -> (r: Vec<Tok>)
    ensures
        toks_view(r@) == op_puncts(symbol@),
{
    let text = symbol.as_str();
    let n = text.unicode_len();
    let mut out: Vec<Tok> = Vec::new();
    for k in 0..n
        invariant
            n == symbol@.len(),
            text@ == symbol@,
            toks_view(out@) == op_puncts(symbol@).take(k as int),
    {
        let c = text.get_char(k);
        push_punct(&mut out, c, k + 1 < n);
        assert(toks_view(out@) =~= op_puncts(symbol@).take(k + 1));
    }
    assert(op_puncts(symbol@).take(n as int) =~= op_puncts(symbol@));
    out
}

/// Appends the terms of `tree`, from left to right.
fn append_node_terms<'a>(tree: &'a Node, v: &mut Vec<&'a Term>)
    ensures
        refs_view(final(v)@) == refs_view(old(v)@) + node_terms(tree@),
    decreases tree,
{
    match tree {
        Node::TermProduct(p) => {
            let ghost start = refs_view(v@);
            let n = p.terms.len();
            for k in 0..n
                invariant
                    n == p.terms@.len(),
                    refs_view(v@) == start + terms_view(p.terms@).take(k as int),
            {
                let ghost prev = v@;
                v.push(&p.terms[k]);
                assert(refs_view(v@) =~= refs_view(prev).push(p.terms@[k as int]@));
                assert(terms_view(p.terms@).take(k + 1) =~= terms_view(p.terms@).take(
                    k as int,
                ).push(p.terms@[k as int]@));
            }
            assert(terms_view(p.terms@).take(n as int) =~= terms_view(p.terms@));
        },
        Node::NonProductBinOp(b) => {
            append_node_terms(&b.lhs, v);
            append_node_terms(&b.rhs, v);
            assert(refs_view(v@) =~= refs_view(old(v)@) + node_terms(tree@));
        },
    }
}

impl Node {
    /// The terms of the node, from left to right, each once.
    pub fn into_iter(&self) -> (r: Vec<&Term>)
        ensures
            refs_view(r@) == node_terms(self@),
    {
        let mut v: Vec<&Term> = Vec::new();
        append_node_terms(self, &mut v);
        assert(refs_view(v@) =~= Seq::<STerm>::empty() + node_terms(self@));
        v
    }

    /// The code of the node; `output_dims` are the axes of the result.
    pub fn render_template(&self, output_dims: &Vec<String>) -> (r: Vec<Tok>)
        ensures
            toks_view(r@) == node_code(self@, strings_view(output_dims@)),
        decreases self,
    {
        match self {
            Node::NonProductBinOp(b) => {
                let lhs_tokens = b.lhs.render_template(output_dims);
                let rhs_tokens = b.rhs.render_template(output_dims);
                let op = render_op(&b.operation_type.symbol);
                let mut out: Vec<Tok> = Vec::new();
                push_word(&mut out, "let");
                push_word(&mut out, "lhs_accum");
                push_punct(&mut out, '=', false);
                push_group(&mut out, Delim::Brace, lhs_tokens);
                push_punct(&mut out, ';', false);
                push_word(&mut out, "let");
                push_word(&mut out, "rhs_accum");
                push_punct(&mut out, '=', false);
                push_group(&mut out, Delim::Brace, rhs_tokens);
                push_punct(&mut out, ';', false);
                push_word(&mut out, "lhs_accum");
                append_toks(&mut out, op);
                push_word(&mut out, "rhs_accum");
                assert(toks_view(out@) =~= node_code(self@, strings_view(output_dims@)));
                out
            },
            Node::TermProduct(p) => p.render_template(output_dims),
        }
    }
}


/// An occurrence of an axis: the term where it occurs and its position among
/// the term's axes.
pub struct AxisInTerm<'a> {
    pub term: &'a Term,
    pub axis_index_in_term: usize,
}

/// The array and the position of each occurrence.
pub open spec fn uses_view(v: Seq<AxisInTerm>) -> Seq<(Seq<char>, nat)> {
    v.map_values(|u: AxisInTerm| (u.term.array_name@, u.axis_index_in_term as nat))
}

/// The occurrences of `axis` among the axes of the terms, term after term.
fn collect_axis_uses<'a>(terms: &Vec<&'a Term>, axis: &String) -> (r: Vec<AxisInTerm<'a>>)
    ensures
        uses_view(r@) == axis_uses(refs_view(terms@), axis@),
{
    let mut out: Vec<AxisInTerm<'a>> = Vec::new();
    let n = terms.len();
    for k in 0..n
        invariant
            n == terms@.len(),
            uses_view(out@) == axis_uses(refs_view(terms@).take(k as int), axis@),
    {
        let ghost ts = refs_view(terms@);
        assert(ts.take(k + 1).drop_last() =~= ts.take(k as int));
        assert(ts.take(k + 1).last() == terms@[k as int]@);
        let ghost before = uses_view(out@);
        let term: &'a Term = terms[k];
        let fields = &term.paren_fields;
        let ghost name = term.array_name@;
        let m = fields.len();
        for f in 0..m
            invariant
                m == fields@.len(),
                fields == term.paren_fields,
                name == term.array_name@,
                uses_view(out@) == before + field_uses(name, strings_view(fields@).take(f as int), axis@),
        {
            let ghost fs = strings_view(fields@);
            assert(fs.take(f + 1).drop_last() =~= fs.take(f as int));
            assert(fs.take(f + 1).last() == fields@[f as int]@);
            if fields[f] == *axis {
                let ghost prev = uses_view(out@);
                out.push(AxisInTerm { term, axis_index_in_term: f });
                assert(uses_view(out@) =~= prev.push((name, f as nat)));
            }
        }
        assert(strings_view(fields@).take(m as int) =~= strings_view(fields@));
        assert(term@.fields == strings_view(fields@));
    }
    assert(refs_view(terms@).take(n as int) =~= refs_view(terms@));
    out
}

/// `<array>.shape()[<position>usize]`
fn render_shape_of(u: &AxisInTerm) -> (r: Vec<Tok>)
    ensures
        toks_view(r@) == shape_of_toks((u.term.array_name@, u.axis_index_in_term as nat)),
{
    let mut index: Vec<Tok> = Vec::new();
    push_lit(&mut index, usize_literal_text(u.axis_index_in_term));
    let mut out: Vec<Tok> = Vec::new();
    push_ident(&mut out, u.term.array_name.clone());
    push_punct(&mut out, '.', false);
    push_word(&mut out, "shape");
    let empty: Vec<Tok> = Vec::new();
    assert(toks_view(empty@) =~= Seq::<STok>::empty());
    push_group(&mut out, Delim::Paren, empty);
    push_group(&mut out, Delim::Bracket, index);
    assert(toks_view(out@) =~= shape_of_toks((u.term.array_name@, u.axis_index_in_term as nat)));
    out
}

/// The statements for one axis: its length, read where it first occurs, and
/// an equality check at each further occurrence.
fn render_axis_statements(terms: &Vec<&Term>, axis: &String) -> (r: Vec<Tok>)
    requires
        term_axes(refs_view(terms@)).contains(axis@),
    ensures
        toks_view(r@) == axis_statements(refs_view(terms@), axis@),
{
    let ghost ts = refs_view(terms@);
    let uses = collect_axis_uses(terms, axis);
    let ghost us = uses_view(uses@);
    proof {
        lemma_axis_uses_nonempty(ts, axis@);
    }
    assert(uses@.len() > 0);
    let mut out: Vec<Tok> = Vec::new();
    push_word(&mut out, "let");
    push_ident(&mut out, length_name_text(axis));
    push_punct(&mut out, '=', false);
    append_toks(&mut out, render_shape_of(&uses[0]));
    push_punct(&mut out, ';', false);
    assert(us[0] == (uses@[0].term.array_name@, uses@[0].axis_index_in_term as nat));
    assert(toks_view(out@) =~= length_binding_toks(axis@, us[0]));
    let ghost binding = toks_view(out@);
    let n = uses.len();
    for k in 1..n
        invariant
            n == uses@.len(),
            n >= 1,
            us == uses_view(uses@),
            toks_view(out@) == binding + length_checks_toks(axis@, us.subrange(1, k as int)),
    {
        assert(us.subrange(1, k + 1).drop_last() =~= us.subrange(1, k as int));
        assert(us.subrange(1, k + 1).last() == us[k as int]);
        assert(us[k as int] == (uses@[k as int].term.array_name@, uses@[k as int].axis_index_in_term as nat));
        let shape = render_shape_of(&uses[k]);
        let mut args: Vec<Tok> = shape;
        push_punct(&mut args, ',', false);
        push_ident(&mut args, length_name_text(axis));
        assert(toks_view(args@) =~= shape_of_toks(us[k as int]) + seq![
            STok::Punct(',', false),
            STok::Ident(length_name(axis@)),
        ]);
        let mut check: Vec<Tok> = Vec::new();
        push_word(&mut check, "assert_eq");
        push_punct(&mut check, '!', false);
        push_group(&mut check, Delim::Paren, args);
        push_punct(&mut check, ';', false);
        assert(toks_view(check@) =~= length_check_toks(axis@, us[k as int]));
        append_toks(&mut out, check);
        assert(toks_view(out@) =~= binding + length_checks_toks(axis@, us.subrange(1, k + 1)));
    }
    assert(us.subrange(1, n as int) =~= us.skip(1));
    out
}

/// `let mut result = nd::Array::<f32, _>::zeros((<lengths>));`
fn render_allocation(shape: &Vec<String>) -> (r: Vec<Tok>)
    ensures
        toks_view(r@) == allocation_toks(strings_view(shape@)),
{
    let sizes = render_comma_idents(&length_names_of(shape));
    let mut tuple: Vec<Tok> = Vec::new();
    push_group(&mut tuple, Delim::Paren, sizes);
    let mut out: Vec<Tok> = Vec::new();
    push_word(&mut out, "let");
    push_word(&mut out, "mut");
    push_word(&mut out, "result");
    push_punct(&mut out, '=', false);
    push_word(&mut out, "nd");
    push_punct(&mut out, ':', true);
    push_punct(&mut out, ':', false);
    push_word(&mut out, "Array");
    push_punct(&mut out, ':', true);
    push_punct(&mut out, ':', false);
    push_punct(&mut out, '<', false);
    push_word(&mut out, "f32");
    push_punct(&mut out, ',', false);
    push_word(&mut out, "_");
    push_punct(&mut out, '>', false);
    push_punct(&mut out, ':', true);
    push_punct(&mut out, ':', false);
    push_word(&mut out, "zeros");
    push_group(&mut out, Delim::Paren, tuple);
    push_punct(&mut out, ';', false);
    assert(toks_view(out@) =~= allocation_toks(strings_view(shape@)));
    out
}

/// The code of one line: the length bindings and checks of its axes, the
/// allocation of the result, and the loops that fill the result.
pub fn process_ein_line(line: &Line) -> (r: Vec<Tok>)
    ensures
        toks_view(r@) == line_code(line@),
{
    let ghost l = line@;
    let terms = line.root_expression_node.into_iter();
    let ghost ts = refs_view(terms@);
    let all_axis_symbols = unique_strings(collect_term_axes(&terms));
    let ghost axes = strings_view(all_axis_symbols@);
    assert(axes == line_axes(l));
    let output_dims = &line.shape_spec.paren_fields;
    let mut array_bounds_checks: Vec<Tok> = Vec::new();
    let n = all_axis_symbols.len();
    for k in 0..n
        invariant
            n == all_axis_symbols@.len(),
            axes == strings_view(all_axis_symbols@),
            axes == first_occurrences(term_axes(ts)),
            ts == refs_view(terms@),
            toks_view(array_bounds_checks@) == bounds_statements(ts, axes.take(k as int)),
    {
        assert(axes.take(k + 1).drop_last() =~= axes.take(k as int));
        assert(axes.take(k + 1).last() == all_axis_symbols@[k as int]@);
        proof {
            assert(axes[k as int] == all_axis_symbols@[k as int]@);
            assert(first_occurrences(term_axes(ts)).contains(axes[k as int]));
            lemma_first_occurrences_contains(term_axes(ts), axes[k as int]);
        }
        let statements = render_axis_statements(&terms, &all_axis_symbols[k]);
        append_toks(&mut array_bounds_checks, statements);
    }
    assert(axes.take(n as int) =~= axes);
    let allocation = render_allocation(output_dims);
    let rendered_expression = line.root_expression_node.render_template(output_dims);
    let indices = render_comma_idents(&index_names_of(output_dims));
    let mut element: Vec<Tok> = Vec::new();
    push_group(&mut element, Delim::Bracket, indices);
    let mut loop_contents: Vec<Tok> = Vec::new();
    push_word(&mut loop_contents, "result");
    push_group(&mut loop_contents, Delim::Bracket, element);
    push_punct(&mut loop_contents, '=', false);
    push_group(&mut loop_contents, Delim::Brace, rendered_expression);
    push_punct(&mut loop_contents, ';', false);
    assert(toks_view(loop_contents@) =~= assignment_toks(l));
    let loops = render_loop_nest(loop_contents, output_dims);
    let mut out = array_bounds_checks;
    append_toks(&mut out, allocation);
    append_toks(&mut out, loops);
    assert(toks_view(out@) =~= line_code(l));
    out
}


/// Expands einsum lines into one block of code that computes each line in
/// turn and evaluates to the `result` array of the last line.
pub fn ein_internal(input: &Vec<Tok>) -> (r: Vec<Tok>)
    requires
        parse_expr(input@) is Ok,
    ensures
        toks_view(r@) == seq![expansion(parse_expr(input@).unwrap())],
{
    let signature = match FullExpr::parse(input) {
        Ok(s) => s,
        Err(_) => {
            return Vec::new();
        },
    };
    let ghost ls = signature@;
    let mut all_lines: Vec<Tok> = Vec::new();
    let n = signature.fields.len();
    for k in 0..n
        invariant
            n == signature.fields@.len(),
            ls == signature@,
            toks_view(all_lines@) == lines_code(ls.take(k as int)),
    {
        assert(ls.take(k + 1).drop_last() =~= ls.take(k as int));
        assert(ls.take(k + 1).last() == signature.fields@[k as int]@);
        let code = process_ein_line(&signature.fields[k]);
        append_toks(&mut all_lines, code);
    }
    assert(ls.take(n as int) =~= ls);
    push_word(&mut all_lines, "result");
    assert(toks_view(all_lines@) =~= lines_code(ls) + seq![word("result")]);
    let mut out: Vec<Tok> = Vec::new();
    push_group(&mut out, Delim::Brace, all_lines);
    assert(toks_view(out@) =~= seq![expansion(ls)]);
    out
}

} // verus!
