use std::str::FromStr;

use extended_einsum::expand::{ein_internal, process_ein_line};
use extended_einsum::grammar::ParseError;
use extended_einsum::parse::{accepts_ident, binop_at, FullExpr, Line, Node, ShapeSpec, Term, TermProduct};
use extended_einsum::text::{decimal_string, index_name_text, length_name_text, usize_literal_text};
use extended_einsum::tokens::{Delim, Tok};
use ndarray as nd;
use proc_macro2::{Delimiter, Group, Ident, Literal, Punct, Spacing, Span, TokenStream, TokenTree};

fn to_toks(ts: TokenStream) -> Vec<Tok> {
    let mut out = Vec::new();
    for tt in ts {
        match tt {
            TokenTree::Ident(i) => out.push(Tok::Ident(i.to_string())),
            TokenTree::Punct(p) => out.push(Tok::Punct(p.as_char(), p.spacing() == Spacing::Joint)),
            TokenTree::Literal(l) => out.push(Tok::Lit(l.to_string())),
            TokenTree::Group(g) => {
                let inner = to_toks(g.stream());
                match g.delimiter() {
                    Delimiter::Parenthesis => out.push(Tok::Group(Delim::Paren, inner)),
                    Delimiter::Bracket => out.push(Tok::Group(Delim::Bracket, inner)),
                    Delimiter::Brace => out.push(Tok::Group(Delim::Brace, inner)),
                    Delimiter::None => out.extend(inner),
                }
            }
        }
    }
    out
}

fn to_stream(toks: &[Tok]) -> TokenStream {
    let mut ts = TokenStream::new();
    for t in toks {
        let tt: TokenTree = match t {
            Tok::Ident(s) => match s.strip_prefix("r#") {
                Some(raw) => Ident::new_raw(raw, Span::call_site()).into(),
                None => Ident::new(s, Span::call_site()).into(),
            },
            Tok::Punct(c, joint) => {
                let spacing = if *joint { Spacing::Joint } else { Spacing::Alone };
                Punct::new(*c, spacing).into()
            }
            Tok::Lit(s) => Literal::from_str(s).unwrap().into(),
            Tok::Group(d, inner) => {
                let delimiter = match d {
                    Delim::Paren => Delimiter::Parenthesis,
                    Delim::Bracket => Delimiter::Bracket,
                    Delim::Brace => Delimiter::Brace,
                };
                Group::new(delimiter, to_stream(inner)).into()
            }
        };
        ts.extend(std::iter::once(tt));
    }
    ts
}

fn lex(src: &str) -> Vec<Tok> {
    to_toks(TokenStream::from_str(src).unwrap())
}

fn show(toks: &[Tok]) -> String {
    to_stream(toks).to_string()
}

fn canon(src: &str) -> String {
    TokenStream::from_str(src).unwrap().to_string()
}

fn names(v: &Vec<String>) -> Vec<&str> {
    v.iter().map(|s| s.as_str()).collect()
}

fn term_names(terms: &Vec<&Term>) -> Vec<String> {
    terms
        .iter()
        .map(|t| format!("{}{:?}", t.array_name, t.paren_fields))
        .collect()
}

#[test]
fn lib_basic_tests() {
    let ts = lex("a[D1, D2]");
    let (term, end) = Term::parse(&ts, 0).ok().unwrap();
    assert_eq!(end, ts.len());
    println!("{}", term.fmt());
    assert_eq!(term.fmt(), "a[TODO]");

    let ts = lex("a[D1, D2] * b[D2, D3]");
    let (node, end) = Node::parse(&ts, 0).ok().unwrap();
    assert_eq!(end, ts.len());
    assert!(matches!(node, Node::TermProduct(_)));

    let ts = lex("a[D1, D2] * b[D2, D3] + c[D3]");
    let (node, end) = Node::parse(&ts, 0).ok().unwrap();
    assert_eq!(end, ts.len());
    assert!(matches!(node, Node::NonProductBinOp(_)));

    let ts = lex("a[D1, D2] * b[D2, D3] + c[D3] ~ [D1, D3]");
    let (line, end) = Line::parse(&ts, 0).ok().unwrap();
    assert_eq!(end, ts.len());
    assert_eq!(names(&line.shape_spec.paren_fields), vec!["D1", "D3"]);

    let ts = lex("a[D1, D2] * b[D2, D3] + c[D3] ~ [D1, D3]; a[D1, D2] * b[D2, D3] + c[D3] ~ [D1, D3]");
    let expr = FullExpr::parse(&ts).ok().unwrap();
    assert_eq!(expr.fields.len(), 2);

    let ts = lex("a[D1, D2] * b[D2, D3] + c[D3] ~ [D1, D3]");
    let out = ein_internal(&ts);
    println!("{}", show(&out));
    assert_eq!(out.len(), 1);
}

const EXPANSION: &str = "{
    let D1_length = a.shape()[0usize];
    let D2_length = a.shape()[1usize];
    assert_eq!(b.shape()[0usize], D2_length);
    let D3_length = b.shape()[1usize];
    assert_eq!(c.shape()[0usize], D3_length);
    let mut result = nd :: Array :: < f32 , _ > :: zeros((D1_length, D3_length));
    for D3_index in 0..D3_length {
        for D1_index in 0..D1_length {
            result[[D1_index, D3_index]] = {
                let lhs_accum = {
                    let mut term_product_accum = 0f32;
                    for D2_index in 0..D2_length {
                        term_product_accum += a[[D1_index, D2_index]] * b[[D2_index, D3_index]];
                    }
                    term_product_accum
                };
                let rhs_accum = {
                    let mut term_product_accum = 0f32;
                    term_product_accum += c[[D3_index]];
                    term_product_accum
                };
                lhs_accum + rhs_accum
            };
        }
    }
    result
}";

const EXPANSION_SUMMED_RHS: &str = "{
    let D1_length = a.shape()[0usize];
    let D2_length = a.shape()[1usize];
    assert_eq!(b.shape()[0usize], D2_length);
    let D3_length = b.shape()[1usize];
    assert_eq!(c.shape()[0usize], D3_length);
    let D4_length = c.shape()[1usize];
    let mut result = nd :: Array :: < f32 , _ > :: zeros((D1_length, D3_length));
    for D3_index in 0..D3_length {
        for D1_index in 0..D1_length {
            result[[D1_index, D3_index]] = {
                let lhs_accum = {
                    let mut term_product_accum = 0f32;
                    for D2_index in 0..D2_length {
                        term_product_accum += a[[D1_index, D2_index]] * b[[D2_index, D3_index]];
                    }
                    term_product_accum
                };
                let rhs_accum = {
                    let mut term_product_accum = 0f32;
                    for D4_index in 0..D4_length {
                        term_product_accum += c[[D3_index, D4_index]];
                    }
                    term_product_accum
                };
                lhs_accum + rhs_accum
            };
        }
    }
    result
}";

fn arr2(rows: usize, cols: usize, values: Vec<f32>) -> nd::Array2<f32> {
    nd::Array2::from_shape_vec((rows, cols), values).unwrap()
}

#[test]
#[allow(non_snake_case)]
fn basic_tests() {
    let a = arr2(2, 3, vec![1., 2., 3., 4., 5., 6.]);
    let b = arr2(3, 2, vec![7., 8., 9., 10., 11., 12.]);
    let c = nd::Array1::from_vec(vec![13f32, 14.]);

    let out = ein_internal(&lex("a[D1, D2] * b[D2, D3] + c[D3] ~ [D1, D3]"));
    assert_eq!(show(&out), canon(EXPANSION));

    // The code of EXPANSION, run on the arrays.
    let result = {
        let D1_length = a.shape()[0usize];
        let D2_length = a.shape()[1usize];
        assert_eq!(b.shape()[0usize], D2_length);
        let D3_length = b.shape()[1usize];
        assert_eq!(c.shape()[0usize], D3_length);
        let mut result = nd::Array::<f32, _>::zeros((D1_length, D3_length));
        for D3_index in 0..D3_length {
            for D1_index in 0..D1_length {
                result[[D1_index, D3_index]] = {
                    let lhs_accum = {
                        let mut term_product_accum = 0f32;
                        for D2_index in 0..D2_length {
                            term_product_accum += a[[D1_index, D2_index]] * b[[D2_index, D3_index]];
                        }
                        term_product_accum
                    };
                    let rhs_accum = {
                        let mut term_product_accum = 0f32;
                        term_product_accum += c[[D3_index]];
                        term_product_accum
                    };
                    lhs_accum + rhs_accum
                };
            }
        }
        result
    };
    let result_expected = a.dot(&b) + &c;
    assert_eq!(result, result_expected);

    let c = arr2(2, 2, vec![13., 0., 14., 0.]);
    let out = ein_internal(&lex("a[D1, D2] * b[D2, D3] + c[D3, D4] ~ [D1, D3]"));
    assert_eq!(show(&out), canon(EXPANSION_SUMMED_RHS));

    // The code of EXPANSION_SUMMED_RHS, run on the arrays.
    let result = {
        let D1_length = a.shape()[0usize];
        let D2_length = a.shape()[1usize];
        assert_eq!(b.shape()[0usize], D2_length);
        let D3_length = b.shape()[1usize];
        assert_eq!(c.shape()[0usize], D3_length);
        let D4_length = c.shape()[1usize];
        let mut result = nd::Array::<f32, _>::zeros((D1_length, D3_length));
        for D3_index in 0..D3_length {
            for D1_index in 0..D1_length {
                result[[D1_index, D3_index]] = {
                    let lhs_accum = {
                        let mut term_product_accum = 0f32;
                        for D2_index in 0..D2_length {
                            term_product_accum += a[[D1_index, D2_index]] * b[[D2_index, D3_index]];
                        }
                        term_product_accum
                    };
                    let rhs_accum = {
                        let mut term_product_accum = 0f32;
                        for D4_index in 0..D4_length {
                            term_product_accum += c[[D3_index, D4_index]];
                        }
                        term_product_accum
                    };
                    lhs_accum + rhs_accum
                };
            }
        }
        result
    };
    assert_eq!(result, result_expected);
}

#[test]
fn parse_errors_name_what_was_expected() {
    assert!(matches!(FullExpr::parse(&lex("[D1] ~ [D1]")), Err(ParseError::ExpectedIdent)));
    assert!(matches!(FullExpr::parse(&lex("fn[D1] ~ [D1]")), Err(ParseError::ExpectedIdent)));
    assert!(matches!(FullExpr::parse(&lex("a[_] ~ [D1]")), Err(ParseError::ExpectedIdent)));
    assert!(matches!(FullExpr::parse(&lex("a(D1) ~ [D1]")), Err(ParseError::ExpectedBrackets)));
    assert!(matches!(FullExpr::parse(&lex("a[D1] ~ (D1)")), Err(ParseError::ExpectedBrackets)));
    assert!(matches!(FullExpr::parse(&lex("a[D1 D2] ~ [D1]")), Err(ParseError::ExpectedComma)));
    assert!(matches!(FullExpr::parse(&lex("a[D1; D2] ~ [D1]")), Err(ParseError::ExpectedComma)));
    assert!(matches!(FullExpr::parse(&lex("a[D1] [D1]")), Err(ParseError::ExpectedTilde)));
    assert!(matches!(FullExpr::parse(&lex("a[D1] ~ [D1] a[D1] ~ [D1]")), Err(ParseError::ExpectedSemicolon)));
    assert!(matches!(FullExpr::parse(&lex("a[D1] * ~ [D1]")), Err(ParseError::ExpectedIdent)));
    assert!(matches!(FullExpr::parse(&lex("a[D1] + ~ [D1]")), Err(ParseError::ExpectedIdent)));
}

#[test]
fn accepted_forms() {
    // Empty input, trailing separators and empty axis lists.
    assert_eq!(FullExpr::parse(&lex("")).ok().unwrap().fields.len(), 0);
    let expr = FullExpr::parse(&lex("a[D1,] ~ [D1,];")).ok().unwrap();
    assert_eq!(expr.fields.len(), 1);
    assert_eq!(names(&expr.fields[0].shape_spec.paren_fields), vec!["D1"]);
    let expr = FullExpr::parse(&lex("s[] ~ []")).ok().unwrap();
    assert_eq!(expr.fields[0].shape_spec.paren_fields.len(), 0);
    // A raw identifier is an identifier.
    let (term, _) = Term::parse(&lex("r#fn[r#type]"), 0).ok().unwrap();
    assert_eq!(term.array_name, "r#fn");
    assert_eq!(names(&term.paren_fields), vec!["r#type"]);
    let (shape, end) = ShapeSpec::parse(&lex("[I, J]"), 0).ok().unwrap();
    assert_eq!((names(&shape.paren_fields), end), (vec!["I", "J"], 1));
}

#[test]
fn operators_nest_to_the_right() {
    let ts = lex("a[I] - b[I] + c[I]");
    let (node, _) = Node::parse(&ts, 0).ok().unwrap();
    match node {
        Node::NonProductBinOp(op) => {
            assert_eq!(op.operation_type.symbol, "-");
            assert!(matches!(*op.lhs, Node::TermProduct(_)));
            match *op.rhs {
                Node::NonProductBinOp(inner) => assert_eq!(inner.operation_type.symbol, "+"),
                _ => panic!("the right operand is an operation"),
            }
        }
        _ => panic!("an operation"),
    }
    let (node, _) = Node::parse(&ts, 0).ok().unwrap();
    assert_eq!(term_names(&node.into_iter()), vec!["a[\"I\"]", "b[\"I\"]", "c[\"I\"]"]);
}

#[test]
fn products_take_every_term() {
    let ts = lex("a[I, J] * b[J] * c[K] ~ [I]");
    let (product, end) = TermProduct::parse(&ts, 0).ok().unwrap();
    assert_eq!(product.terms.len(), 3);
    assert_eq!(end, 8);
    let out = product.render_template(&vec!["I".to_string()]);
    // The output axis `I` is read only through its loop variable, never its length.
    assert!(!show(&out).contains("I_length"));
    assert_eq!(
        show(&out),
        canon(
            "let mut term_product_accum = 0f32;
             for K_index in 0..K_length { for J_index in 0..J_length {
                 term_product_accum += a[[I_index, J_index]] * b[[J_index]] * c[[K_index]];
             } }
             term_product_accum"
        )
    );
}

#[test]
fn operators_take_the_longest_match() {
    // `<=` is one operator; `<<=` is not an operator of syn's default features, `<<` is.
    let (k, text) = binop_at(&lex("<= x"), 0);
    assert_eq!((k, text.as_str()), (2, "<="));
    let (k, text) = binop_at(&lex("<<= x"), 0);
    assert_eq!((k, text.as_str()), (2, "<<"));
    let (k, text) = binop_at(&lex("+= x"), 0);
    assert_eq!((k, text.as_str()), (1, "+"));
    let (k, text) = binop_at(&lex("&& x"), 0);
    assert_eq!((k, text.as_str()), (2, "&&"));
    let (k, _) = binop_at(&lex("~ x"), 0);
    assert_eq!(k, 0);
    let (k, _) = binop_at(&lex("x"), 0);
    assert_eq!(k, 0);
    // Two `<` that are not joined are two operators.
    let (k, text) = binop_at(&lex("< < x"), 0);
    assert_eq!((k, text.as_str()), (1, "<"));
    let line = Line::parse(&lex("a[I] <= b[I] ~ [I]"), 0).ok().unwrap().0;
    match line.root_expression_node {
        Node::NonProductBinOp(op) => assert_eq!(op.operation_type.symbol, "<="),
        _ => panic!("an operation"),
    }
}

#[test]
fn names_and_literals() {
    assert_eq!(decimal_string(0), "0");
    assert_eq!(decimal_string(7), "7");
    assert_eq!(decimal_string(1230), "1230");
    assert_eq!(usize_literal_text(12), "12usize");
    assert_eq!(index_name_text(&"D1".to_string()), "D1_index");
    assert_eq!(length_name_text(&"D1".to_string()), "D1_length");
    assert_eq!(index_name_text(&"r#type".to_string()), "type_index");
    assert_eq!(length_name_text(&"r".to_string()), "r_length");
}

#[test]
fn each_axis_read_once_and_checked_elsewhere() {
    let ts = lex("x[I, I] * y[I] ~ []");
    let (line, _) = Line::parse(&ts, 0).ok().unwrap();
    let out = process_ein_line(&line);
    assert_eq!(
        show(&out),
        canon(
            "let I_length = x.shape()[0usize];
             assert_eq!(x.shape()[1usize], I_length);
             assert_eq!(y.shape()[0usize], I_length);
             let mut result = nd :: Array :: < f32 , _ > :: zeros(());
             result[[]] = {
                 let mut term_product_accum = 0f32;
                 for I_index in 0..I_length {
                     term_product_accum += x[[I_index, I_index]] * y[[I_index]];
                 }
                 term_product_accum
             };"
        )
    );
}

#[test]
fn output_axes_wrap_the_first_innermost() {
    let out = ein_internal(&lex("t[A, B] ~ [B, A]; u[C] ~ [C]"));
    assert_eq!(
        show(&out),
        canon(
            "{
                let A_length = t.shape()[0usize];
                let B_length = t.shape()[1usize];
                let mut result = nd :: Array :: < f32 , _ > :: zeros((B_length, A_length));
                for A_index in 0..A_length { for B_index in 0..B_length {
                    result[[B_index, A_index]] = {
                        let mut term_product_accum = 0f32;
                        term_product_accum += t[[A_index, B_index]];
                        term_product_accum
                    };
                } }
                let C_length = u.shape()[0usize];
                let mut result = nd :: Array :: < f32 , _ > :: zeros((C_length));
                for C_index in 0..C_length {
                    result[[C_index]] = {
                        let mut term_product_accum = 0f32;
                        term_product_accum += u[[C_index]];
                        term_product_accum
                    };
                }
                result
            }"
        )
    );
}

#[test]
fn reserved_words_are_not_identifiers() {
    assert!(!accepts_ident(&"fn".to_string()));
    assert!(!accepts_ident(&"_".to_string()));
    assert!(!accepts_ident(&"Self".to_string()));
    assert!(!accepts_ident(&"yield".to_string()));
    assert!(accepts_ident(&"D1".to_string()));
    assert!(accepts_ident(&"_x".to_string()));
    assert!(accepts_ident(&"async".to_string()));
    assert!(accepts_ident(&"r#fn".to_string()));
    assert!(accepts_ident(&"\u{e9}t\u{e9}".to_string()));
}

#[test]
fn operators_are_read_from_the_tokens() {
    // `+` joined to `/` joined to `/`: the tokens spell no operator longer than `+`.
    let ts = vec![
        Tok::Punct('+', true),
        Tok::Punct('/', true),
        Tok::Punct('/', false),
        Tok::Ident("x".to_string()),
    ];
    let (k, text) = binop_at(&ts, 0);
    assert_eq!((k, text.as_str()), (1, "+"));
    let mut line = lex("a[I]");
    line.extend(ts.into_iter().take(3));
    line.extend(lex("b[I] ~ [I]"));
    assert!(matches!(FullExpr::parse(&line), Err(ParseError::ExpectedIdent)));
    // `*` joined to `=` is `*` followed by `=`.
    let (k, text) = binop_at(&lex("*= x"), 0);
    assert_eq!((k, text.as_str()), (1, "*"));
}

#[test]
fn a_trailing_semicolon_changes_nothing() {
    let with = ein_internal(&lex("a[I, J] * b[J] ~ [I];"));
    let without = ein_internal(&lex("a[I, J] * b[J] ~ [I]"));
    assert_eq!(show(&with), show(&without));
}
