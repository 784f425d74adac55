//! Character-level helpers over the text being read.

use vstd::prelude::*;
use vstd::string::*;
use crate::syntax::{atom_end, digits_end, is_space, is_symbol_char, skip_blank, string_end};

verus! {

/// Relies on `String::push`: appends one character to the string.
#[verifier::external_body]
pub(crate) fn push_char(s: &mut String, c: char)
    ensures
        final(s)@ == old(s)@.push(c),
{
    s.push(c);
}

/// `s` reads as the word `w`.
pub fn is_word(s: &String, w: &str) -> (r: bool)
    ensures
        r == (s@ == w@),
{
    let t = w.to_string();
    *s == t
}

/// The characters of a text, in order.
pub fn chars_of(text: &str) -> (r: Vec<char>)
    ensures
        r@ == text@,
{
    let n = text.unicode_len();
    let mut out: Vec<char> = Vec::new();
    let mut i: usize = 0;
    while i < n
        invariant
            n == text@.len(),
            i <= n,
            out@ == text@.subrange(0, i as int),
        decreases n - i,
    {
        let c = text.get_char(i);
        out.push(c);
        i += 1;
        proof {
            assert(out@ =~= text@.subrange(0, i as int));
        }
    }
    proof {
        assert(out@ =~= text@);
    }
    out
}

/// A string of the characters `s[from..to]`.
pub fn string_of(s: &Vec<char>, from: usize, to: usize) -> (r: String)
    requires
        from <= to <= s.len(),
    ensures
        r@ == s@.subrange(from as int, to as int),
{
    let mut out = String::new();
    let mut i: usize = from;
    while i < to
        invariant
            from <= i <= to <= s.len(),
            out@ == s@.subrange(from as int, i as int),
        decreases to - i,
    {
        push_char(&mut out, s[i]);
        i += 1;
        proof {
            assert(out@ =~= s@.subrange(from as int, i as int));
        }
    }
    out
}

/// The characters of a string, in order.
pub fn chars_of_string(s: &String) -> (r: Vec<char>)
    ensures
        r@ == s@,
{
    chars_of(s.as_str())
}

pub fn is_space_char(c: char) -> (r: bool)
    ensures
        r == is_space(c),
{
    c == ' ' || c == '\t' || c == '\n' || c == '\r'
}

pub fn is_symbol_character(c: char) -> (r: bool)
    ensures
        r == is_symbol_char(c),
{
    !is_space_char(c) && c != '"' && c != '\'' && c != '(' && c != ')' && c != ';' && c != ','
        && c != '`' && c != '\\'
}

pub fn skip_blank_at(s: &Vec<char>, i: usize) -> (r: usize)
    requires
        i <= s.len(),
    ensures
        r == skip_blank(s@, i as int, false),
        i <= r <= s.len(),
{
    let mut k = i;
    let mut in_comment = false;
    while k < s.len()
        invariant
            i <= k <= s.len(),
            skip_blank(s@, k as int, in_comment) == skip_blank(s@, i as int, false),
        decreases s.len() - k,
    {
        let c = s[k];
        if in_comment {
            in_comment = c != '\n';
        } else if is_space_char(c) {
        } else if c == ';' {
            in_comment = true;
        } else {
            return k;
        }
        k += 1;
    }
    k
}

pub fn atom_end_at(s: &Vec<char>, i: usize) -> (r: usize)
    requires
        i <= s.len(),
    ensures
        r == atom_end(s@, i as int),
        i <= r <= s.len(),
{
    let mut k = i;
    while k < s.len() && is_symbol_character(s[k])
        invariant
            i <= k <= s.len(),
            atom_end(s@, k as int) == atom_end(s@, i as int),
        decreases s.len() - k,
    {
        k += 1;
    }
    k
}

pub fn string_end_at(s: &Vec<char>, i: usize) -> (r: usize)
    requires
        i <= s.len(),
    ensures
        r == string_end(s@, i as int),
        i <= r <= s.len(),
{
    let mut k = i;
    while k < s.len() && s[k] != '"' && s[k] != '\\'
        invariant
            i <= k <= s.len(),
            string_end(s@, k as int) == string_end(s@, i as int),
        decreases s.len() - k,
    {
        k += 1;
    }
    k
}

pub fn digits_end_at(s: &Vec<char>, i: usize) -> (r: usize)
    requires
        i <= s.len(),
    ensures
        r == digits_end(s@, i as int),
        i <= r <= s.len(),
{
    let mut k = i;
    while k < s.len() && '0' <= s[k] && s[k] <= '9'
        invariant
            i <= k <= s.len(),
            digits_end(s@, k as int) == digits_end(s@, i as int),
        decreases s.len() - k,
    {
        k += 1;
    }
    k
}

} // verus!
