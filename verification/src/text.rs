//! The texts of the identifiers and literals that expansion writes.
use crate::outside::push_char;
use vstd::prelude::*;

verus! {

/// An identifier's text without the `r#` that marks a raw identifier.
pub open spec fn strip_raw(s: Seq<char>) -> Seq<char> {
    if s.len() >= 2 && s[0] == 'r' && s[1] == '#' {
        s.skip(2)
    } else {
        s
    }
}

/// The loop variable that runs over an axis: `<axis>_index`.
pub open spec fn index_name(axis: Seq<char>) -> Seq<char> {
    strip_raw(axis) + seq!['_', 'i', 'n', 'd', 'e', 'x']
}

/// The variable that holds the length of an axis: `<axis>_length`.
pub open spec fn length_name(axis: Seq<char>) -> Seq<char> {
    strip_raw(axis) + seq!['_', 'l', 'e', 'n', 'g', 't', 'h']
}

/// The decimal digit of `d`.
pub open spec fn digit_char(d: int) -> char {
    if d == 0 {
        '0'
    } else if d == 1 {
        '1'
    } else if d == 2 {
        '2'
    } else if d == 3 {
        '3'
    } else if d == 4 {
        '4'
    } else if d == 5 {
        '5'
    } else if d == 6 {
        '6'
    } else if d == 7 {
        '7'
    } else if d == 8 {
        '8'
    } else {
        '9'
    }
}

/// The decimal numeral of `n`, without leading zeros.
pub open spec fn decimal(n: nat) -> Seq<char>
    decreases n,
{
    if n < 10 {
        seq![digit_char(n as int)]
    } else {
        decimal(n / 10).push(digit_char((n % 10) as int))
    }
}

/// The text of a `usize` literal with its suffix, such as `2usize`.
pub open spec fn usize_literal(n: nat) -> Seq<char> {
    decimal(n) + seq!['u', 's', 'i', 'z', 'e']
}

fn digit(d: usize) -> (c: char)
    requires
        d < 10,
    ensures
        c == digit_char(d as int),
{
    match d {
        0 => '0',
        1 => '1',
        2 => '2',
        3 => '3',
        4 => '4',
        5 => '5',
        6 => '6',
        7 => '7',
        8 => '8',
        _ => '9',
    }
}

/// The decimal numeral of `n`.
pub fn decimal_string(n: usize) -> (r: String)
    ensures
        r@ == decimal(n as nat),
    decreases n,
{
    if n < 10 {
        let mut s = String::new();
        push_char(&mut s, digit(n));
        s
    } else {
        let mut s = decimal_string(n / 10);
        push_char(&mut s, digit(n % 10));
        s
    }
}

/// The text of the suffixed literal that stands for `n`.
pub fn usize_literal_text(n: usize) -> (r: String)
    ensures
        r@ == usize_literal(n as nat),
{
    let mut s = decimal_string(n);
    proof {
        reveal_strlit("usize");
    }
    s.append("usize");
    s
}

/// `name` without a leading `r#`.
pub fn strip_raw_text(name: &String) -> (r: String)
    ensures
        r@ == strip_raw(name@),
{
    let t = name.as_str();
    let n = t.unicode_len();
    if n >= 2 && t.get_char(0) == 'r' && t.get_char(1) == '#' {
        let rest = t.substring_char(2, n);
        assert(rest@ =~= name@.skip(2));
        String::from_str(rest)
    } else {
        name.clone()
    }
}

/// The name of the loop variable that runs over `axis`.
pub fn index_name_text(axis: &String) -> (r: String)
    ensures
        r@ == index_name(axis@),
{
    let mut s = strip_raw_text(axis);
    proof {
        reveal_strlit("_index");
    }
    s.append("_index");
    s
}

/// The name of the variable that holds the length of `axis`.
pub fn length_name_text(axis: &String) -> (r: String)
    ensures
        r@ == length_name(axis@),
{
    let mut s = strip_raw_text(axis);
    proof {
        reveal_strlit("_length");
    }
    s.append("_length");
    s
}

} // verus!
