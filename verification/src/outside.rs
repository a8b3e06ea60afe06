//! The calls that this library makes into std, syn and itertools, each behind
//! a small item whose contract is taken on trust.
use crate::grammar::is_reserved;
use itertools::Itertools;
use vstd::prelude::*;

verus! {

/// The characters that a punctuation token can hold.
pub open spec fn is_punct_char(c: char) -> bool {
    c == '!' || c == '#' || c == '$' || c == '%' || c == '&' || c == '\'' || c == '*' || c == '+'
        || c == ',' || c == '-' || c == '.' || c == '/' || c == ':' || c == ';' || c == '<'
        || c == '=' || c == '>' || c == '?' || c == '@' || c == '^' || c == '|' || c == '~'
}

/// A character that can start a plain ASCII identifier.
pub open spec fn is_ident_start(c: char) -> bool {
    ('a' <= c && c <= 'z') || ('A' <= c && c <= 'Z') || c == '_'
}

/// A character that can continue a plain ASCII identifier.
pub open spec fn is_ident_continue(c: char) -> bool {
    is_ident_start(c) || ('0' <= c && c <= '9')
}

/// A plain ASCII identifier (not a raw one): a letter or `_`, then letters,
/// digits and `_`.
pub open spec fn is_plain_ident(s: Seq<char>) -> bool {
    &&& s.len() > 0
    &&& is_ident_start(s[0])
    &&& forall|i: int| 1 <= i < s.len() ==> is_ident_continue(#[trigger] s[i])
}

/// The binary operators that syn 1 (without its "full" feature) reads as a
/// `syn::BinOp`, written as their characters.
pub open spec fn is_binop_text(s: Seq<char>) -> bool {
    ||| s == seq!['&', '&']
    ||| s == seq!['|', '|']
    ||| s == seq!['<', '<']
    ||| s == seq!['>', '>']
    ||| s == seq!['=', '=']
    ||| s == seq!['<', '=']
    ||| s == seq!['!', '=']
    ||| s == seq!['>', '=']
    ||| s == seq!['+']
    ||| s == seq!['-']
    ||| s == seq!['*']
    ||| s == seq!['/']
    ||| s == seq!['%']
    ||| s == seq!['^']
    ||| s == seq!['&']
    ||| s == seq!['|']
    ||| s == seq!['<']
    ||| s == seq!['>']
}

/// The items of `s` in order, each kept at its first occurrence only.
pub open spec fn first_occurrences<A>(s: Seq<A>) -> Seq<A>
    decreases s.len(),
{
    if s.len() == 0 {
        s
    } else {
        let u = first_occurrences(s.drop_last());
        if u.contains(s.last()) {
            u
        } else {
            u.push(s.last())
        }
    }
}

/// The character sequences that a vector of strings holds.
pub open spec fn strings_view(v: Seq<String>) -> Seq<Seq<char>> {
    v.map_values(|s: String| s@)
}

/// `String::push`: appends one character at the end of the string.
#[verifier::external_body]
pub(crate) fn push_char(s: &mut String, c: char)
    ensures
        final(s)@ == old(s)@.push(c),
{
    s.push(c);
}

/// The characters of some punctuation tokens.
pub open spec fn punct_chars(ps: Seq<(char, bool)>) -> Seq<char> {
    ps.map_values(|p: (char, bool)| p.0)
}

/// Each token but the last is joined to the next one.
pub open spec fn joined_but_last(ps: Seq<(char, bool)>) -> bool {
    forall|i: int| 0 <= i < ps.len() - 1 ==> #[trigger] ps[i].1
}

/// `syn::parse2::<syn::BinOp>` of syn 1, built with its default features,
/// on a stream of one to three `proc_macro2` punctuation tokens, given as
/// their characters and whether each is joined to the next. syn reads an
/// operator of two characters only from two joined tokens, tries those
/// before the operators of one character, has no operator of three
/// characters without its "full" feature, and `parse2` refuses a stream
/// with tokens left over. So it succeeds exactly when the tokens spell one
/// of the eighteen operators of `is_binop_text`, each joined to the next but
/// the last.
#[verifier::external_body]
pub(crate) fn syn_binop_spans(puncts: &Vec<(char, bool)>) -> (r: bool)
    requires
        1 <= puncts@.len() <= 3,
        forall|i: int| 0 <= i < puncts@.len() ==> is_punct_char(#[trigger] puncts@[i].0),
    ensures
        r == (is_binop_text(punct_chars(puncts@)) && joined_but_last(puncts@)),
{
    let mut stream = proc_macro2::TokenStream::new();
    for &(c, joint) in puncts.iter() {
        let spacing = if joint { proc_macro2::Spacing::Joint } else { proc_macro2::Spacing::Alone };
        let punct = proc_macro2::Punct::new(c, spacing);
        stream.extend(std::iter::once(proc_macro2::TokenTree::from(punct)));
    }
    syn::parse2::<syn::BinOp>(stream).is_ok()
}

/// `syn::parse_str::<syn::Ident>` of syn 1. A plain ASCII identifier lexes
/// as one identifier token, which syn's `Ident` parser accepts unless it is
/// `_` or one of the reserved words of `is_reserved`. Of other texts (raw
/// identifiers, identifiers with characters beyond ASCII, texts that are not
/// identifiers) nothing is stated.
#[verifier::external_body]
pub(crate) fn syn_accepts_ident(text: &str) -> (r: bool)
    ensures
        is_plain_ident(text@) ==> r == !is_reserved(text@),
{
    syn::parse_str::<syn::Ident>(text).is_ok()
}

/// `Itertools::unique` of itertools, collected into a vector: it keeps the
/// items in their order, each the first time it occurs (equality of strings
/// is equality of their characters).
#[verifier::external_body]
pub(crate) fn unique_strings(items: Vec<String>) -> (r: Vec<String>)
    ensures
        strings_view(r@) == first_occurrences(strings_view(items@)),
{
    items.into_iter().unique().collect()
}

} // verus!
