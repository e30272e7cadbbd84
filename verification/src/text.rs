//! Character classes of the lexer and conversions between strings and
//! character vectors.

use vstd::prelude::*;

verus! {

/// Whitespace that separates tokens: space, carriage return, line feed, tab.
#[verifier::allow_in_spec]
pub fn is_blank(c: char) -> bool
    returns
        c == ' ' || c == '\r' || c == '\n' || c == '\t',
{
    c == ' ' || c == '\r' || c == '\n' || c == '\t'
}

/// ASCII whitespace as `char::is_ascii_whitespace` defines it: space, tab,
/// line feed, form feed and carriage return.
#[verifier::allow_in_spec]
pub fn is_ascii_whitespace(c: char) -> bool
    returns
        c == ' ' || c == '\t' || c == '\n' || c == '\x0C' || c == '\r',
{
    c == ' ' || c == '\t' || c == '\n' || c == '\x0C' || c == '\r'
}

/// A decimal digit `0`..=`9`.
#[verifier::allow_in_spec]
pub fn is_digit(c: char) -> bool
    returns
        '0' <= c && c <= '9',
{
    '0' <= c && c <= '9'
}

/// A hexadecimal digit, in either case.
#[verifier::allow_in_spec]
pub fn is_hex_digit(c: char) -> bool
    returns
        ('0' <= c && c <= '9') || ('a' <= c && c <= 'f') || ('A' <= c && c <= 'F'),
{
    ('0' <= c && c <= '9') || ('a' <= c && c <= 'f') || ('A' <= c && c <= 'F')
}

/// A binary digit.
#[verifier::allow_in_spec]
pub fn is_binary_digit(c: char) -> bool
    returns
        c == '0' || c == '1',
{
    c == '0' || c == '1'
}

/// An octal digit.
#[verifier::allow_in_spec]
pub fn is_octal_digit(c: char) -> bool
    returns
        '0' <= c && c <= '7',
{
    '0' <= c && c <= '7'
}

/// A character that may begin an identifier: an ASCII letter or `_`.
#[verifier::allow_in_spec]
pub fn is_ident_start(c: char) -> bool
    returns
        ('a' <= c && c <= 'z') || ('A' <= c && c <= 'Z') || c == '_',
{
    ('a' <= c && c <= 'z') || ('A' <= c && c <= 'Z') || c == '_'
}

/// A character that may continue an identifier: an ASCII letter or digit, or `_`.
#[verifier::allow_in_spec]
pub fn is_ident_continue(c: char) -> bool
    returns
        ('a' <= c && c <= 'z') || ('A' <= c && c <= 'Z') || ('0' <= c && c <= '9') || c == '_',
{
    ('a' <= c && c <= 'z') || ('A' <= c && c <= 'Z') || ('0' <= c && c <= '9') || c == '_'
}

/// A suffix letter that ends a decimal literal: `d`, `f`, `u` or `l`, in either case.
#[verifier::allow_in_spec]
pub fn is_numeric_suffix(c: char) -> bool
    returns
        c == 'd' || c == 'D' || c == 'f' || c == 'F' || c == 'u' || c == 'U' || c == 'l' || c
            == 'L',
{
    c == 'd' || c == 'D' || c == 'f' || c == 'F' || c == 'u' || c == 'U' || c == 'l' || c == 'L'
}

/// A character at which a hexadecimal, binary or octal literal ends without
/// error: ASCII whitespace, a bracket, punctuation, an operator character
/// or a quote.
#[verifier::allow_in_spec]
pub fn ends_radix_literal(c: char) -> bool
    returns
        is_ascii_whitespace(c) || c == '(' || c == ')' || c == '{' || c == '}' || c == '['
            || c == ']' || c == ';' || c == ':' || c == ',' || c == '.' || c == '+' || c == '-'
            || c == '*' || c == '/' || c == '%' || c == '=' || c == '!' || c == '<' || c == '>'
            || c == '&' || c == '|' || c == '^' || c == '?' || c == '\'' || c == '"',
{
    is_ascii_whitespace(c) || c == '(' || c == ')' || c == '{' || c == '}' || c == '[' || c == ']'
        || c == ';' || c == ':' || c == ',' || c == '.' || c == '+' || c == '-' || c == '*' || c
        == '/' || c == '%' || c == '=' || c == '!' || c == '<' || c == '>' || c == '&' || c == '|'
        || c == '^' || c == '?' || c == '\'' || c == '"'
}

/// The character that an escape sequence `\c` stands for, if `c` names one.
#[verifier::allow_in_spec]
pub fn escape_of(c: char) -> Option<char>
    returns
        if c == 'n' {
            Some('\n')
        } else if c == 'r' {
            Some('\r')
        } else if c == 't' {
            Some('\t')
        } else if c == '\\' {
            Some('\\')
        } else if c == '\'' {
            Some('\'')
        } else if c == '"' {
            Some('"')
        } else if c == '0' {
            Some('\0')
        } else {
            None
        },
{
    if c == 'n' {
        Some('\n')
    } else if c == 'r' {
        Some('\r')
    } else if c == 't' {
        Some('\t')
    } else if c == '\\' {
        Some('\\')
    } else if c == '\'' {
        Some('\'')
    } else if c == '"' {
        Some('"')
    } else if c == '0' {
        Some('\0')
    } else {
        None
    }
}

/// Appends a character to a string.
///
/// Calls `String::push`, which std documents as appending the given `char`
/// to the end of the string; the contract says that the string's characters
/// are the old ones followed by `c`.
#[verifier::external_body]
pub(crate) fn push_char(s: &mut String, c: char)
    ensures
        final(s)@ == old(s)@.push(c),
{
    s.push(c);
}

/// The characters of a string slice, in order.
pub fn chars_of(s: &str) -> (v: Vec<char>)
    ensures
        v@ == s@,
{
    let mut v: Vec<char> = Vec::new();
    for c in it: s.chars()
        invariant
            v@ == it.seq().take(it.index() as int),
    {
        v.push(c);
    }
    v
}

/// A string made of the given characters.
pub fn string_of(cs: &[char]) -> (s: String)
    ensures
        s@ == cs@,
{
    let mut s = String::new();
    let mut i: usize = 0;
    while i < cs.len()
        invariant
            i <= cs.len(),
            s@ == cs@.take(i as int),
        decreases cs.len() - i,
    {
        push_char(&mut s, cs[i]);
        i = i + 1;
        assert(s@ =~= cs@.take(i as int));
    }
    assert(cs@.take(cs.len() as int) =~= cs@);
    s
}

/// Whether two character slices hold the same characters.
pub fn same_chars(a: &[char], b: &[char]) -> (r: bool)
    ensures
        r == (a@ == b@),
{
    if a.len() != b.len() {
        return false;
    }
    let mut i: usize = 0;
    while i < a.len()
        invariant
            a.len() == b.len(),
            i <= a.len(),
            forall|j: int| 0 <= j < i ==> a@[j] == b@[j],
        decreases a.len() - i,
    {
        if a[i] != b[i] {
            return false;
        }
        i = i + 1;
    }
    assert(a@ =~= b@);
    true
}

} // verus!
