use vstd::prelude::*;

verus! {

/// The delimiter of a group of tokens.
#[derive(Clone, Copy, Debug, PartialEq, Eq, Structural)]
pub enum Delim {
    Paren,
    Bracket,
    Brace,
}

/// A token tree.
#[derive(Debug)]
pub enum Tok {
    Ident(String),
    /// A punctuation character, and whether it is joined to the next one.
    Punct(char, bool),
    Lit(String),
    Group(Delim, Vec<Tok>),
}

/// The mathematical value of a token tree.
pub enum STok {
    Ident(Seq<char>),
    Punct(char, bool),
    Lit(Seq<char>),
    Group(Delim, Seq<STok>),
}

pub open spec fn tok_view(t: Tok) -> STok
    decreases t, 0int,
{
    match t {
        Tok::Ident(s) => STok::Ident(s@),
        Tok::Punct(c, j) => STok::Punct(c, j),
        Tok::Lit(s) => STok::Lit(s@),
        Tok::Group(d, v) => STok::Group(d, toks_view(v@)),
    }
}

pub open spec fn toks_view(s: Seq<Tok>) -> Seq<STok>
    decreases s, 0int,
{
    if s.len() == 0 {
        Seq::empty()
    } else {
        toks_view(s.drop_last()).push(tok_view(s.last()))
    }
}


/// Viewing a sequence extended by one token extends its view by that token.
pub proof fn lemma_toks_view_push(s: Seq<Tok>, t: Tok)
    ensures
        toks_view(s.push(t)) == toks_view(s).push(tok_view(t)),
{
    assert(s.push(t).drop_last() =~= s);
}

/// The view of a concatenation is the concatenation of the views.
pub proof fn lemma_toks_view_add(a: Seq<Tok>, b: Seq<Tok>)
    ensures
        toks_view(a + b) == toks_view(a) + toks_view(b),
    decreases b.len(),
{
    if b.len() == 0 {
        assert(a + b =~= a);
        assert(toks_view(a) + toks_view(b) =~= toks_view(a));
    } else {
        lemma_toks_view_add(a, b.drop_last());
        assert((a + b).drop_last() =~= a + b.drop_last());
        assert((a + b).last() == b.last());
        assert(toks_view(a) + toks_view(b) =~= (toks_view(a) + toks_view(b.drop_last())).push(
            tok_view(b.last()),
        ));
    }
}

/// Appends one token.
pub fn push_tok(out: &mut Vec<Tok>, t: Tok)
    ensures
        toks_view(final(out)@) == toks_view(old(out)@).push(tok_view(t)),
{
    proof {
        lemma_toks_view_push(out@, t);
    }
    out.push(t);
}

/// Appends an identifier.
pub fn push_ident(out: &mut Vec<Tok>, text: String)
    ensures
        toks_view(final(out)@) == toks_view(old(out)@).push(STok::Ident(text@)),
{
    push_tok(out, Tok::Ident(text));
}

/// Appends an identifier written in the source of this library.
pub fn push_word(out: &mut Vec<Tok>, text: &str)
    ensures
        toks_view(final(out)@) == toks_view(old(out)@).push(STok::Ident(text@)),
{
    push_tok(out, Tok::Ident(String::from_str(text)));
}

/// Appends a punctuation character.
pub fn push_punct(out: &mut Vec<Tok>, c: char, joint: bool)
    ensures
        toks_view(final(out)@) == toks_view(old(out)@).push(STok::Punct(c, joint)),
{
    push_tok(out, Tok::Punct(c, joint));
}

/// Appends a literal.
pub fn push_lit(out: &mut Vec<Tok>, text: String)
    ensures
        toks_view(final(out)@) == toks_view(old(out)@).push(STok::Lit(text@)),
{
    push_tok(out, Tok::Lit(text));
}

/// Appends a group that holds `inner`.
pub fn push_group(out: &mut Vec<Tok>, d: Delim, inner: Vec<Tok>)
    ensures
        toks_view(final(out)@) == toks_view(old(out)@).push(STok::Group(d, toks_view(inner@))),
{
    push_tok(out, Tok::Group(d, inner));
}

/// Appends all of `more`.
pub fn append_toks(out: &mut Vec<Tok>, more: Vec<Tok>)
    ensures
        toks_view(final(out)@) == toks_view(old(out)@) + toks_view(more@),
{
    let mut more = more;
    proof {
        lemma_toks_view_add(out@, more@);
    }
    out.append(&mut more);
}

} // verus!
