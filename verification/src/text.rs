//! Character classes of the expression grammar, ASCII case folding, and
//! helpers for building strings from character vectors.

use vstd::prelude::*;
use vstd::string::StrSliceExecFns;

verus! {

/// A decimal digit `0` through `9`.
pub open spec fn spec_is_digit(c: char) -> bool {
    '0' as u32 <= c as u32 && c as u32 <= '9' as u32
}

#[verifier::when_used_as_spec(spec_is_digit)]
pub fn is_digit(c: char) -> (r: bool)
    ensures
        r == spec_is_digit(c),
{
    '0' as u32 <= c as u32 && c as u32 <= '9' as u32
}

/// An ASCII letter.
pub open spec fn spec_is_alpha(c: char) -> bool {
    ('a' as u32 <= c as u32 && c as u32 <= 'z' as u32) || ('A' as u32 <= c as u32 && c as u32
        <= 'Z' as u32)
}

#[verifier::when_used_as_spec(spec_is_alpha)]
pub fn is_alpha(c: char) -> (r: bool)
    ensures
        r == spec_is_alpha(c),
{
    ('a' as u32 <= c as u32 && c as u32 <= 'z' as u32) || ('A' as u32 <= c as u32 && c as u32
        <= 'Z' as u32)
}

/// A character that may start an identifier: a letter or an underscore.
pub open spec fn spec_is_ident_start(c: char) -> bool {
    spec_is_alpha(c) || c == '_'
}

#[verifier::when_used_as_spec(spec_is_ident_start)]
pub fn is_ident_start(c: char) -> (r: bool)
    ensures
        r == spec_is_ident_start(c),
{
    is_alpha(c) || c == '_'
}

/// A character that may continue an identifier: a letter, a digit or an
/// underscore.
pub open spec fn spec_is_word(c: char) -> bool {
    spec_is_alpha(c) || spec_is_digit(c) || c == '_'
}

#[verifier::when_used_as_spec(spec_is_word)]
pub fn is_word(c: char) -> (r: bool)
    ensures
        r == spec_is_word(c),
{
    is_alpha(c) || is_digit(c) || c == '_'
}

/// A character of a numeric literal: a digit or the decimal point.
pub open spec fn spec_is_numeric(c: char) -> bool {
    spec_is_digit(c) || c == '.'
}

#[verifier::when_used_as_spec(spec_is_numeric)]
pub fn is_numeric(c: char) -> (r: bool)
    ensures
        r == spec_is_numeric(c),
{
    is_digit(c) || c == '.'
}

/// The whitespace the tokenizer skips: space, tab and newline.
pub open spec fn spec_is_lex_space(c: char) -> bool {
    c == ' ' || c == '\t' || c == '\n'
}

#[verifier::when_used_as_spec(spec_is_lex_space)]
pub fn is_lex_space(c: char) -> (r: bool)
    ensures
        r == spec_is_lex_space(c),
{
    c == ' ' || c == '\t' || c == '\n'
}

/// The ASCII whitespace that the macro expander tolerates between a name and
/// its argument list and strips around arguments.
pub open spec fn spec_is_space(c: char) -> bool {
    c == ' ' || c == '\t' || c == '\n' || c == '\r' || c == '\u{b}' || c == '\u{c}'
}

#[verifier::when_used_as_spec(spec_is_space)]
pub fn is_space(c: char) -> (r: bool)
    ensures
        r == spec_is_space(c),
{
    c == ' ' || c == '\t' || c == '\n' || c == '\r' || c == '\u{b}' || c == '\u{c}'
}

/// The scalar value of `c` with an ASCII upper-case letter folded to lower
/// case.
pub open spec fn spec_lower(c: char) -> int {
    if 'A' as u32 <= c as u32 && c as u32 <= 'Z' as u32 {
        c as u32 + 32
    } else {
        c as u32 as int
    }
}

pub fn lower(c: char) -> (r: u32)
    ensures
        r == spec_lower(c),
{
    if 'A' as u32 <= c as u32 && c as u32 <= 'Z' as u32 {
        c as u32 + 32
    } else {
        c as u32
    }
}

/// Relies on `String::push`: appends the given character to the string.
#[verifier::external_body]
pub(crate) fn string_push(s: &mut String, c: char)
    ensures
        final(s)@ == old(s)@.push(c),
{
    s.push(c)
}

/// Copies the characters `chars[start..end]` into a fresh `String`.
pub fn chars_to_string(chars: &Vec<char>, start: usize, end: usize) -> (s: String)
    requires
        start <= end <= chars@.len(),
    ensures
        s@ == chars@.subrange(start as int, end as int),
{
    let mut s = String::new();
    let mut j = start;
    while j < end
        invariant
            start <= j <= end <= chars@.len(),
            s@ == chars@.subrange(start as int, j as int),
        decreases end - j,
    {
        string_push(&mut s, chars[j]);
        j = j + 1;
        proof {
            assert(s@ =~= chars@.subrange(start as int, j as int));
        }
    }
    s
}

/// Compares two string slices by their characters.
pub fn str_eq(a: &str, b: &str) -> (r: bool)
    ensures
        r == (a@ == b@),
{
    let na = a.unicode_len();
    let nb = b.unicode_len();
    if na != nb {
        return false;
    }
    let mut k: usize = 0;
    while k < na
        invariant
            k <= na == a@.len() && na == b@.len(),
            forall|m: int| 0 <= m < k ==> a@[m] == b@[m],
        decreases na - k,
    {
        if a.get_char(k) != b.get_char(k) {
            return false;
        }
        k = k + 1;
    }
    proof {
        assert(a@ =~= b@);
    }
    true
}

/// Copies all characters of `s` into a vector.
pub fn str_to_chars(s: &str) -> (v: Vec<char>)
    ensures
        v@ == s@,
{
    let n = s.unicode_len();
    let mut v: Vec<char> = Vec::new();
    let mut j: usize = 0;
    while j < n
        invariant
            j <= n == s@.len(),
            v@ == s@.subrange(0, j as int),
        decreases n - j,
    {
        v.push(s.get_char(j));
        j = j + 1;
        proof {
            assert(v@ =~= s@.subrange(0, j as int));
        }
    }
    proof {
        assert(v@ =~= s@);
    }
    v
}

} // verus!
