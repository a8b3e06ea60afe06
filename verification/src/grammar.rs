//! The grammar of einsum expressions, read from token trees.
//!
//! An expression is a list of lines separated by `;` (a trailing `;` is
//! allowed). A line is `node ~ [axis, ...]`. A node is a product of terms,
//! optionally followed by a binary operator other than `*` and another node.
//! A term is `array[axis, ...]`. An identifier token is accepted unless it
//! is `_` or a reserved word of Rust (raw identifiers such as `r#fn` are
//! accepted).
use crate::outside::{is_binop_text, is_plain_ident, is_punct_char};
use crate::tokens::{Delim, Tok};
use vstd::prelude::*;

verus! {

/// Why a token tree is not an einsum expression.
#[derive(Clone, Copy, Debug, PartialEq, Eq, Structural)]
pub enum ParseError {
    /// An identifier that is not a reserved word was expected.
    ExpectedIdent,
    /// A group in square brackets was expected.
    ExpectedBrackets,
    /// A `,` between two axes was expected.
    ExpectedComma,
    /// The `~` before the output shape was expected.
    ExpectedTilde,
    /// A `;` between two lines was expected.
    ExpectedSemicolon,
}

/// A term: an array and the axes that index it, as in `a[D1, D2]`.
pub struct STerm {
    pub name: Seq<char>,
    pub fields: Seq<Seq<char>>,
}

/// The tree of a node: a product of terms, or two nodes joined by an operator.
pub enum SNode {
    Product(Seq<STerm>),
    Op(Box<SNode>, Seq<char>, Box<SNode>),
}

/// A line: a node and the axes of its result.
pub struct SLine {
    pub node: SNode,
    pub shape: Seq<Seq<char>>,
}

// ---------------------------------------------------------------------------
// The grammar as spec functions over token trees.
// ---------------------------------------------------------------------------
/// The words that syn does not accept as identifiers.
pub open spec fn is_reserved(s: Seq<char>) -> bool {
    ||| s == "_"@ ||| s == "abstract"@ ||| s == "as"@ ||| s == "become"@ ||| s == "box"@
    ||| s == "break"@ ||| s == "const"@ ||| s == "continue"@ ||| s == "crate"@ ||| s == "do"@
    ||| s == "else"@ ||| s == "enum"@ ||| s == "extern"@ ||| s == "false"@ ||| s == "final"@
    ||| s == "fn"@ ||| s == "for"@ ||| s == "if"@ ||| s == "impl"@ ||| s == "in"@
    ||| s == "let"@ ||| s == "loop"@ ||| s == "macro"@ ||| s == "match"@ ||| s == "mod"@
    ||| s == "move"@ ||| s == "mut"@ ||| s == "override"@ ||| s == "priv"@ ||| s == "pub"@
    ||| s == "ref"@ ||| s == "return"@ ||| s == "Self"@ ||| s == "self"@ ||| s == "static"@
    ||| s == "struct"@ ||| s == "super"@ ||| s == "trait"@ ||| s == "true"@ ||| s == "type"@
    ||| s == "typeof"@ ||| s == "unsafe"@ ||| s == "unsized"@ ||| s == "use"@
    ||| s == "virtual"@ ||| s == "where"@ ||| s == "while"@ ||| s == "yield"@
}

/// The identifier at position `i`, if there is one there.
pub open spec fn ident_at(ts: Seq<Tok>, i: int) -> Option<Seq<char>> {
    if 0 <= i < ts.len() {
        match ts[i] {
            Tok::Ident(s) => if is_plain_ident(s@) && is_reserved(s@) {
                None
            } else {
                Some(s@)
            },
            _ => None,
        }
    } else {
        None
    }
}

/// Position `i` holds the punctuation character `c`.
pub open spec fn punct_is(ts: Seq<Tok>, i: int, c: char) -> bool {
    0 <= i < ts.len() && (ts[i] matches Tok::Punct(p, _) && p == c)
}

/// The contents of the group in square brackets at position `i`.
pub open spec fn bracket_at(ts: Seq<Tok>, i: int) -> Option<Seq<Tok>> {
    if 0 <= i < ts.len() {
        match ts[i] {
            Tok::Group(Delim::Bracket, c) => Some(c@),
            _ => None,
        }
    } else {
        None
    }
}

/// The axes listed from position `j` to the end: identifiers separated by
/// `,`, with an optional trailing `,`.
pub open spec fn ident_list(ts: Seq<Tok>, j: int) -> Result<Seq<Seq<char>>, ParseError>
    decreases ts.len() - j,
{
    if j >= ts.len() {
        Ok(Seq::empty())
    } else {
        match ident_at(ts, j) {
            None => Err(ParseError::ExpectedIdent),
            Some(f) => if j + 1 >= ts.len() {
                Ok(seq![f])
            } else if punct_is(ts, j + 1, ',') {
                match ident_list(ts, j + 2) {
                    Ok(r) => Ok(seq![f] + r),
                    Err(e) => Err(e),
                }
            } else {
                Err(ParseError::ExpectedComma)
            },
        }
    }
}

/// A list of axes in square brackets at position `i`, and the position after it.
pub open spec fn shape_at(ts: Seq<Tok>, i: int) -> Result<(Seq<Seq<char>>, int), ParseError> {
    match bracket_at(ts, i) {
        None => Err(ParseError::ExpectedBrackets),
        Some(c) => match ident_list(c, 0) {
            Err(e) => Err(e),
            Ok(fs) => Ok((fs, i + 1)),
        },
    }
}

/// The term at position `i`, and the position after it.
pub open spec fn term_at(ts: Seq<Tok>, i: int) -> Result<(STerm, int), ParseError> {
    match ident_at(ts, i) {
        None => Err(ParseError::ExpectedIdent),
        Some(n) => match shape_at(ts, i + 1) {
            Err(e) => Err(e),
            Ok((fs, j)) => Ok((STerm { name: n, fields: fs }, j)),
        },
    }
}

/// The punctuation character at position `p` and whether it is joined to the next token.
pub open spec fn punct_at(ts: Seq<Tok>, p: int) -> Option<(char, bool)> {
    if 0 <= p < ts.len() {
        match ts[p] {
            Tok::Punct(c, joint) => if is_punct_char(c) {
                Some((c, joint))
            } else {
                None
            },
            _ => None,
        }
    } else {
        None
    }
}

/// Position `p` holds punctuation joined to the next token.
pub open spec fn joined_at(ts: Seq<Tok>, p: int) -> bool {
    punct_at(ts, p) matches Some((_, joint)) && joint
}

/// Positions `j` to `j + k - 1` hold punctuation, each joined to the next but the last.
pub open spec fn op_run(ts: Seq<Tok>, j: int, k: int) -> bool {
    ||| k == 1 && punct_at(ts, j) is Some
    ||| k == 2 && joined_at(ts, j) && punct_at(ts, j + 1) is Some
    ||| k == 3 && joined_at(ts, j) && joined_at(ts, j + 1) && punct_at(ts, j + 2) is Some
}

/// The characters of the `k` punctuation tokens from position `j`.
pub open spec fn run_text(ts: Seq<Tok>, j: int, k: int) -> Seq<char> {
    Seq::new(k as nat, |m: int| punct_at(ts, j + m).unwrap().0)
}

/// The number of tokens that the binary operator at position `j` spans (the
/// longest run that is an operator), or 0 where there is no operator.
pub open spec fn binop_len(ts: Seq<Tok>, j: int) -> int {
    if op_run(ts, j, 3) && is_binop_text(run_text(ts, j, 3)) {
        3
    } else if op_run(ts, j, 2) && is_binop_text(run_text(ts, j, 2)) {
        2
    } else if op_run(ts, j, 1) && is_binop_text(run_text(ts, j, 1)) {
        1
    } else {
        0
    }
}

/// The product of terms at position `i` (terms joined by `*`), and the position after it.
pub open spec fn product_at(ts: Seq<Tok>, i: int) -> Result<(Seq<STerm>, int), ParseError>
    decreases ts.len() - i,
{
    match term_at(ts, i) {
        Err(e) => Err(e),
        Ok((t, j)) => if punct_is(ts, j, '*') && binop_len(ts, j) > 0 {
            match product_at(ts, j + binop_len(ts, j)) {
                Ok((rest, p)) => Ok((seq![t] + rest, p)),
                Err(e) => Err(e),
            }
        } else {
            Ok((seq![t], j))
        },
    }
}

/// A product ends after the position where it starts, and within the tokens.
pub proof fn lemma_product_advances(ts: Seq<Tok>, i: int)
    ensures
        product_at(ts, i) matches Ok((_, j)) ==> i < j <= ts.len(),
    decreases ts.len() - i,
{
    if let Ok((t, j)) = term_at(ts, i) {
        if punct_is(ts, j, '*') && binop_len(ts, j) > 0 {
            lemma_product_advances(ts, j + binop_len(ts, j));
        }
    }
}

/// The node at position `i`, and the position after it.
pub open spec fn node_at(ts: Seq<Tok>, i: int) -> Result<(SNode, int), ParseError>
    decreases ts.len() - i,
{
    match product_at(ts, i) {
        Err(e) => Err(e),
        Ok((terms, j)) => {
            let k = binop_len(ts, j);
            if k == 0 {
                Ok((SNode::Product(terms), j))
            } else {
                proof {
                    lemma_product_advances(ts, i);
                }
                match node_at(ts, j + k) {
                    Ok((r, p)) => Ok(
                        (
                            SNode::Op(Box::new(SNode::Product(terms)), run_text(ts, j, k), Box::new(r)),
                            p,
                        ),
                    ),
                    Err(e) => Err(e),
                }
            }
        },
    }
}

/// A node ends after the position where it starts, and within the tokens.
pub proof fn lemma_node_advances(ts: Seq<Tok>, i: int)
    ensures
        node_at(ts, i) matches Ok((_, j)) ==> i < j <= ts.len(),
    decreases ts.len() - i,
{
    lemma_product_advances(ts, i);
    if let Ok((terms, j)) = product_at(ts, i) {
        let k = binop_len(ts, j);
        if k > 0 {
            lemma_node_advances(ts, j + k);
        }
    }
}

/// The line at position `i`, and the position after it.
pub open spec fn line_at(ts: Seq<Tok>, i: int) -> Result<(SLine, int), ParseError> {
    match node_at(ts, i) {
        Err(e) => Err(e),
        Ok((n, j)) => if !punct_is(ts, j, '~') {
            Err(ParseError::ExpectedTilde)
        } else {
            match shape_at(ts, j + 1) {
                Err(e) => Err(e),
                Ok((fs, p)) => Ok((SLine { node: n, shape: fs }, p)),
            }
        },
    }
}

/// The lines from position `i` to the end, separated by `;`, with an
/// optional trailing `;`.
pub open spec fn lines_at(ts: Seq<Tok>, i: int) -> Result<Seq<SLine>, ParseError>
    decreases ts.len() - i,
{
    if i >= ts.len() {
        Ok(Seq::empty())
    } else {
        match line_at(ts, i) {
            Err(e) => Err(e),
            Ok((l, j)) => if j >= ts.len() {
                Ok(seq![l])
            } else if punct_is(ts, j, ';') {
                proof {
                    lemma_node_advances(ts, i);
                }
                match lines_at(ts, j + 1) {
                    Ok(r) => Ok(seq![l] + r),
                    Err(e) => Err(e),
                }
            } else {
                Err(ParseError::ExpectedSemicolon)
            },
        }
    }
}

/// A whole token stream read as an einsum expression.
pub open spec fn parse_expr(ts: Seq<Tok>) -> Result<Seq<SLine>, ParseError> {
    lines_at(ts, 0)
}

} // verus!
