//! The syntax tree of einsum expressions and the parser that builds it.
use crate::grammar::{
    binop_len, bracket_at, ident_at, ident_list, is_reserved, line_at, lemma_node_advances,
    lemma_product_advances, lines_at, node_at, parse_expr, product_at, punct_at, punct_is, run_text,
    shape_at, term_at, ParseError, SLine, SNode, STerm,
};
use crate::outside::{
    is_binop_text, is_ident_continue, is_plain_ident, is_punct_char, joined_but_last, punct_chars, push_char,
    strings_view, syn_accepts_ident, syn_binop_spans,
};
use crate::form::{law_lone_operator, law_operator_characters};
use crate::tokens::{Delim, Tok};
use vstd::prelude::*;

verus! {

/// An array indexed by axes, as in `a[D1, D2]`.
pub struct Term {
    pub array_name: String,
    pub paren_fields: Vec<String>,
}

impl View for Term {
    type V = STerm;

    open spec fn view(&self) -> STerm {
        STerm { name: self.array_name@, fields: strings_view(self.paren_fields@) }
    }
}

/// The axes of a line's result, as in `[D1, D3]`.
pub struct ShapeSpec {
    pub paren_fields: Vec<String>,
}

/// Terms multiplied together.
pub struct TermProduct {
    pub terms: Vec<Term>,
}

/// A binary operator, held as its characters.
pub struct BinOp {
    pub symbol: String,
}

/// Two nodes joined by a binary operator other than a product.
pub struct NonProductBinOp {
    pub lhs: Box<Node>,
    pub operation_type: BinOp,
    pub rhs: Box<Node>,
}

/// An expression tree of terms and operators.
pub enum Node {
    NonProductBinOp(NonProductBinOp),
    TermProduct(TermProduct),
}

/// One einsum line: an expression and the shape of its result.
pub struct Line {
    pub root_expression_node: Node,
    pub shape_spec: ShapeSpec,
}

/// A list of einsum lines.
pub struct FullExpr {
    pub fields: Vec<Line>,
}

pub open spec fn terms_view(v: Seq<Term>) -> Seq<STerm> {
    v.map_values(|t: Term| t@)
}

pub open spec fn node_view(n: Node) -> SNode
    decreases n,
{
    match n {
        Node::TermProduct(p) => SNode::Product(terms_view(p.terms@)),
        Node::NonProductBinOp(b) => SNode::Op(
            Box::new(node_view(*b.lhs)),
            b.operation_type.symbol@,
            Box::new(node_view(*b.rhs)),
        ),
    }
}

impl View for Node {
    type V = SNode;

    open spec fn view(&self) -> SNode {
        node_view(*self)
    }
}

impl View for Line {
    type V = SLine;

    open spec fn view(&self) -> SLine {
        SLine { node: self.root_expression_node@, shape: strings_view(self.shape_spec.paren_fields@) }
    }
}

pub open spec fn lines_view(v: Seq<Line>) -> Seq<SLine> {
    v.map_values(|l: Line| l@)
}

impl View for FullExpr {
    type V = Seq<SLine>;

    open spec fn view(&self) -> Seq<SLine> {
        lines_view(self.fields@)
    }
}

/// Whether `s` is a plain ASCII identifier.
fn is_plain_ident_text(s: &String) -> (r: bool)
    ensures
        r == is_plain_ident(s@),
{
    let t = s.as_str();
    let n = t.unicode_len();
    if n == 0 {
        return false;
    }
    let c0 = t.get_char(0);
    if !(('a' <= c0 && c0 <= 'z') || ('A' <= c0 && c0 <= 'Z') || c0 == '_') {
        return false;
    }
    for k in 1..n
        invariant
            n == s@.len(),
            t@ == s@,
            forall|i: int| 1 <= i < k ==> is_ident_continue(#[trigger] s@[i]),
    {
        let c = t.get_char(k);
        if !(('a' <= c && c <= 'z') || ('A' <= c && c <= 'Z') || c == '_' || ('0' <= c && c
            <= '9')) {
            assert(!is_ident_continue(s@[k as int]));
            return false;
        }
    }
    true
}

/// Whether the identifier token `s` is accepted as an identifier: it is not
/// `_` nor a reserved word.
pub fn accepts_ident(s: &String) -> (r: bool)
    ensures
        r == !(is_plain_ident(s@) && is_reserved(s@)),
{
    if is_plain_ident_text(s) {
        syn_accepts_ident(s.as_str())
    } else {
        true
    }
}

fn ident_text_at(ts: &Vec<Tok>, i: usize) -> (r: Option<String>)
    ensures
        r matches Some(s) ==> ident_at(ts@, i as int) == Some(s@),
        r is None ==> ident_at(ts@, i as int) is None,
{
    if i < ts.len() {
        match &ts[i] {
            Tok::Ident(s) => if !accepts_ident(s) {
                None
            } else {
                Some(s.clone())
            },
            _ => None,
        }
    } else {
        None
    }
}

fn is_punct_at(ts: &Vec<Tok>, i: usize, c: char) -> (r: bool)
    ensures
        r == punct_is(ts@, i as int, c),
{
    if i < ts.len() {
        match &ts[i] {
            Tok::Punct(p, _) => *p == c,
            _ => false,
        }
    } else {
        false
    }
}

fn bracket_contents<'a>(ts: &'a Vec<Tok>, i: usize) -> (r: Option<&'a Vec<Tok>>)
    ensures
        r matches Some(c) ==> bracket_at(ts@, i as int) == Some(c@),
        r is None ==> bracket_at(ts@, i as int) is None,
{
    if i < ts.len() {
        match &ts[i] {
            Tok::Group(Delim::Bracket, c) => Some(c),
            _ => None,
        }
    } else {
        None
    }
}

fn is_punct_character(c: char) -> (r: bool)
    ensures
        r == is_punct_char(c),
{
    c == '!' || c == '#' || c == '$' || c == '%' || c == '&' || c == '\'' || c == '*' || c == '+'
        || c == ',' || c == '-' || c == '.' || c == '/' || c == ':' || c == ';' || c == '<'
        || c == '=' || c == '>' || c == '?' || c == '@' || c == '^' || c == '|' || c == '~'
}

fn punct_char_at(ts: &Vec<Tok>, p: usize) -> (r: Option<(char, bool)>)
    ensures
        r == punct_at(ts@, p as int),
{
    if p < ts.len() {
        match &ts[p] {
            Tok::Punct(c, joint) => if is_punct_character(*c) {
                Some((*c, *joint))
            } else {
                None
            },
            _ => None,
        }
    } else {
        None
    }
}

/// The binary operator at position `j`: how many tokens it spans (0 where
/// there is none) and its characters. syn decides, from the tokens as they
/// stand, whether a run of one, two or three tokens is an operator; the
/// longest run that is one is taken.
pub fn binop_at(ts: &Vec<Tok>, j: usize) -> (r: (usize, String))
    ensures
        r.0 == binop_len(ts@, j as int),
        r.0 > 0 ==> r.1@ == run_text(ts@, j as int, r.0 as int) && j + r.0 <= ts@.len(),
        j < ts@.len() ==> (match ts@[j as int] {
            Tok::Punct(c, false) => is_binop_text(seq![c]) ==> r.0 == 1 && r.1@ == seq![c],
            _ => true,
        }),
{
    proof {
        if j < ts@.len() {
            if let Tok::Punct(c, false) = ts@[j as int] {
                law_operator_characters(c);
                if is_binop_text(seq![c]) {
                    law_lone_operator(ts@, j as int, c);
                }
            }
        }
    }
    let (c0, joint0) = match punct_char_at(ts, j) {
        Some(x) => x,
        None => return (0, String::new()),
    };
    assert(j < ts.len());
    let mut t1 = String::new();
    push_char(&mut t1, c0);
    let mut run1: Vec<(char, bool)> = Vec::new();
    run1.push((c0, joint0));
    assert(t1@ =~= run_text(ts@, j as int, 1));
    assert(punct_chars(run1@) =~= t1@);
    if joint0 {
        if let Some((c1, joint1)) = punct_char_at(ts, j + 1) {
            assert(j + 1 < ts.len());
            let mut t2 = t1.clone();
            push_char(&mut t2, c1);
            let mut run2: Vec<(char, bool)> = Vec::new();
            run2.push((c0, joint0));
            run2.push((c1, joint1));
            assert(t2@ =~= run_text(ts@, j as int, 2));
            assert(punct_chars(run2@) =~= t2@);
            if joint1 {
                if let Some((c2, joint2)) = punct_char_at(ts, j + 2) {
                    let mut t3 = t2.clone();
                    push_char(&mut t3, c2);
                    let mut run3: Vec<(char, bool)> = Vec::new();
                    run3.push((c0, joint0));
                    run3.push((c1, joint1));
                    run3.push((c2, joint2));
                    assert(t3@ =~= run_text(ts@, j as int, 3));
                    assert(punct_chars(run3@) =~= t3@);
                    assert(joined_but_last(run3@));
                    if syn_binop_spans(&run3) {
                        return (3, t3);
                    }
                }
            }
            assert(joined_but_last(run2@));
            if syn_binop_spans(&run2) {
                return (2, t2);
            }
        }
    }
    assert(joined_but_last(run1@));
    if syn_binop_spans(&run1) {
        (1, t1)
    } else {
        (0, String::new())
    }
}

/// Reads the axes of a bracket group's contents: identifiers separated by
/// `,`, with an optional trailing `,`.
pub fn parse_ident_list(ts: &Vec<Tok>) -> (r: Result<Vec<String>, ParseError>)
    ensures
        match ident_list(ts@, 0) {
            Ok(fs) => r matches Ok(v) && strings_view(v@) == fs,
            Err(e) => r matches Err(x) && x == e,
        },
{
    let mut fields: Vec<String> = Vec::new();
    let mut j: usize = 0;
    while j < ts.len()
        invariant
            j <= ts.len(),
            ident_list(ts@, 0) == (match ident_list(ts@, j as int) {
                Ok(r) => Ok(strings_view(fields@) + r),
                Err(e) => Err(e),
            }),
        decreases ts.len() - j,
    {
        let f = match ident_text_at(ts, j) {
            Some(f) => f,
            None => return Err(ParseError::ExpectedIdent),
        };
        let ghost old_fields = fields@;
        fields.push(f);
        assert(strings_view(fields@) =~= strings_view(old_fields) + seq![f@]);
        if j + 1 >= ts.len() {
            assert(strings_view(fields@) + Seq::<Seq<char>>::empty() =~= strings_view(old_fields)
                + seq![f@]);
            j = ts.len();
        } else if is_punct_at(ts, j + 1, ',') {
            assert forall|r: Seq<Seq<char>>|
                strings_view(old_fields) + (seq![f@] + r) =~= strings_view(fields@) + r by {}
            j = j + 2;
        } else {
            return Err(ParseError::ExpectedComma);
        }
    }
    assert(strings_view(fields@) + Seq::<Seq<char>>::empty() =~= strings_view(fields@));
    Ok(fields)
}

impl ShapeSpec {
    /// Reads a list of axes in square brackets at position `i`.
    pub fn parse(ts: &Vec<Tok>, i: usize) -> (r: Result<(ShapeSpec, usize), ParseError>)
        ensures
            match shape_at(ts@, i as int) {
                Ok((fs, j)) => r matches Ok((v, k)) && strings_view(v.paren_fields@) == fs && k
                    == j,
                Err(e) => r matches Err(x) && x == e,
            },
    {
        match bracket_contents(ts, i) {
            None => Err(ParseError::ExpectedBrackets),
            Some(c) => match parse_ident_list(c) {
                Err(e) => Err(e),
                Ok(fields) => {
                    assert(i < ts.len());
                    Ok((ShapeSpec { paren_fields: fields }, i + 1))
                },
            },
        }
    }
}

impl Term {
    /// The term's text as shown to a reader: its array's name followed by `[TODO]`.
    pub fn fmt(&self) -> (r: String)
        ensures
            r@ == self.array_name@ + "[TODO]"@,
    {
        let mut s = self.array_name.clone();
        s.append("[TODO]");
        s
    }

    /// Reads the term at position `i`.
    pub fn parse(ts: &Vec<Tok>, i: usize) -> (r: Result<(Term, usize), ParseError>)
        ensures
            match term_at(ts@, i as int) {
                Ok((t, j)) => r matches Ok((v, k)) && v@ == t && k == j,
                Err(e) => r matches Err(x) && x == e,
            },
    {
        let name = match ident_text_at(ts, i) {
            Some(n) => n,
            None => return Err(ParseError::ExpectedIdent),
        };
        assert(i < ts.len());
        match ShapeSpec::parse(ts, i + 1) {
            Err(e) => Err(e),
            Ok((shape, j)) => Ok((Term { array_name: name, paren_fields: shape.paren_fields }, j)),
        }
    }
}

impl TermProduct {
    /// Reads the product of terms at position `i`.
    pub fn parse(ts: &Vec<Tok>, i: usize) -> (r: Result<(TermProduct, usize), ParseError>)
        ensures
            match product_at(ts@, i as int) {
                Ok((t, j)) => r matches Ok((v, k)) && terms_view(v.terms@) == t && k == j,
                Err(e) => r matches Err(x) && x == e,
            },
    {
        let mut terms: Vec<Term> = Vec::new();
        let mut pos = i;
        loop
            invariant
                product_at(ts@, i as int) == (match product_at(ts@, pos as int) {
                    Ok((rest, p)) => Ok((terms_view(terms@) + rest, p)),
                    Err(e) => Err(e),
                }),
            decreases ts.len() - pos,
        {
            let (t, j) = match Term::parse(ts, pos) {
                Ok(x) => x,
                Err(e) => return Err(e),
            };
            let ghost old_terms = terms@;
            let ghost tv = t@;
            terms.push(t);
            assert(terms_view(terms@) =~= terms_view(old_terms) + seq![tv]);
            if is_punct_at(ts, j, '*') {
                let (k, _) = binop_at(ts, j);
                if k > 0 {
                    assert forall|r: Seq<STerm>|
                        terms_view(old_terms) + (seq![tv] + r) =~= terms_view(terms@) + r by {}
                    pos = j + k;
                    continue ;
                }
            }
            return Ok((TermProduct { terms }, j));
        }
    }
}

impl Node {
    /// Reads the node at position `i`.
    pub fn parse(ts: &Vec<Tok>, i: usize) -> (r: Result<(Node, usize), ParseError>)
        ensures
            match node_at(ts@, i as int) {
                Ok((n, j)) => r matches Ok((v, k)) && v@ == n && k == j,
                Err(e) => r matches Err(x) && x == e,
            },
        decreases ts.len() - i,
    {
        let (first, j) = match TermProduct::parse(ts, i) {
            Ok(x) => x,
            Err(e) => return Err(e),
        };
        let (k, symbol) = binop_at(ts, j);
        if k == 0 {
            return Ok((Node::TermProduct(first), j));
        }
        proof {
            lemma_product_advances(ts@, i as int);
        }
        match Node::parse(ts, j + k) {
            Err(e) => Err(e),
            Ok((rhs, p)) => {
                let ghost fv = terms_view(first.terms@);
                let ghost sv = symbol@;
                let ghost rv = rhs@;
                let lhs = Node::TermProduct(first);
                assert(lhs@ == SNode::Product(fv));
                let n = Node::NonProductBinOp(
                    NonProductBinOp {
                        lhs: Box::new(lhs),
                        operation_type: BinOp { symbol },
                        rhs: Box::new(rhs),
                    },
                );
                assert(n@ == SNode::Op(Box::new(SNode::Product(fv)), sv, Box::new(rv)));
                Ok((n, p))
            },
        }
    }
}

impl Line {
    /// Reads the line at position `i`.
    pub fn parse(ts: &Vec<Tok>, i: usize) -> (r: Result<(Line, usize), ParseError>)
        ensures
            match line_at(ts@, i as int) {
                Ok((l, j)) => r matches Ok((v, k)) && v@ == l && k == j,
                Err(e) => r matches Err(x) && x == e,
            },
    {
        let (node, j) = match Node::parse(ts, i) {
            Ok(x) => x,
            Err(e) => return Err(e),
        };
        if !is_punct_at(ts, j, '~') {
            return Err(ParseError::ExpectedTilde);
        }
        assert(j < ts.len());
        match ShapeSpec::parse(ts, j + 1) {
            Err(e) => Err(e),
            Ok((shape_spec, p)) => Ok((Line { root_expression_node: node, shape_spec }, p)),
        }
    }
}

impl FullExpr {
    /// Reads a whole token stream as einsum lines.
    pub fn parse(ts: &Vec<Tok>) -> (r: Result<FullExpr, ParseError>)
        ensures
            match parse_expr(ts@) {
                Ok(ls) => r matches Ok(v) && v@ == ls,
                Err(e) => r matches Err(x) && x == e,
            },
    {
        let mut fields: Vec<Line> = Vec::new();
        let mut pos: usize = 0;
        while pos < ts.len()
            invariant
                pos <= ts.len(),
                parse_expr(ts@) == (match lines_at(ts@, pos as int) {
                    Ok(rest) => Ok(lines_view(fields@) + rest),
                    Err(e) => Err(e),
                }),
            decreases ts.len() - pos,
        {
            let (line, j) = match Line::parse(ts, pos) {
                Ok(x) => x,
                Err(e) => return Err(e),
            };
            proof {
                lemma_node_advances(ts@, pos as int);
            }
            let ghost old_fields = fields@;
            let ghost lv = line@;
            fields.push(line);
            assert(lines_view(fields@) =~= lines_view(old_fields) + seq![lv]);
            if j >= ts.len() {
                assert(lines_view(fields@) + Seq::<SLine>::empty() =~= lines_view(old_fields)
                    + seq![lv]);
                pos = ts.len();
            } else if is_punct_at(ts, j, ';') {
                assert forall|r: Seq<SLine>|
                    lines_view(old_fields) + (seq![lv] + r) =~= lines_view(fields@) + r by {}
                pos = j + 1;
            } else {
                return Err(ParseError::ExpectedSemicolon);
            }
        }
        assert(lines_view(fields@) + Seq::<SLine>::empty() =~= lines_view(fields@));
        Ok(FullExpr { fields })
    }
}

} // verus!
