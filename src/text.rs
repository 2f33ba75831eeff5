//! Whitespace-delimited tokens of a line of text.
use vstd::prelude::*;

verus! {

/// The characters that Unicode classes as `White_Space`.
pub open spec fn is_space(c: char) -> bool {
    ('\u{9}' <= c && c <= '\u{d}') || c == ' ' || c == '\u{85}' || c == '\u{a0}' || c == '\u{1680}'
        || ('\u{2000}' <= c && c <= '\u{200a}') || c == '\u{2028}' || c == '\u{2029}'
        || c == '\u{202f}' || c == '\u{205f}' || c == '\u{3000}'
}

/// The first position at or after `i` that holds no whitespace (or the end).
pub open spec fn skip_space(s: Seq<char>, i: int) -> int
    decreases s.len() - i,
{
    if i < 0 || i >= s.len() {
        s.len() as int
    } else if is_space(s[i]) {
        skip_space(s, i + 1)
    } else {
        i
    }
}

/// The first position at or after `i` that holds whitespace (or the end).
pub open spec fn skip_word(s: Seq<char>, i: int) -> int
    decreases s.len() - i,
{
    if i < 0 || i >= s.len() {
        s.len() as int
    } else if !is_space(s[i]) {
        skip_word(s, i + 1)
    } else {
        i
    }
}

/// The first whitespace-delimited token of `s` (empty when there is none).
pub open spec fn first_token(s: Seq<char>) -> Seq<char> {
    let a = skip_space(s, 0);
    s.subrange(a, skip_word(s, a))
}

/// The second whitespace-delimited token of `s` (empty when there is none).
pub open spec fn second_token(s: Seq<char>) -> Seq<char> {
    let b = skip_space(s, skip_word(s, skip_space(s, 0)));
    s.subrange(b, skip_word(s, b))
}

pub fn is_space_char(c: char) -> (r: bool)
    ensures
        r == is_space(c),
{
    ('\u{9}' <= c && c <= '\u{d}') || c == ' ' || c == '\u{85}' || c == '\u{a0}' || c == '\u{1680}'
        || ('\u{2000}' <= c && c <= '\u{200a}') || c == '\u{2028}' || c == '\u{2029}'
        || c == '\u{202f}' || c == '\u{205f}' || c == '\u{3000}'
}

/// Finds the token that begins at or after position `from` of `line`:
/// returns where it starts and where it ends.
pub fn token_bounds(line: &str, from: usize) -> (r: (usize, usize))
    requires
        from <= line@.len(),
    ensures
        r.0 == skip_space(line@, from as int),
        r.1 == skip_word(line@, r.0 as int),
        from <= r.0 <= r.1 <= line@.len(),
{
    let n = line.unicode_len();
    let mut i: usize = from;
    while i < n && is_space_char(line.get_char(i))
        invariant
            n == line@.len(),
            from <= i <= n,
            skip_space(line@, i as int) == skip_space(line@, from as int),
        decreases n - i,
    {
        i = i + 1;
    }
    let start = i;
    while i < n && !is_space_char(line.get_char(i))
        invariant
            n == line@.len(),
            start <= i <= n,
            start == skip_space(line@, from as int),
            skip_word(line@, i as int) == skip_word(line@, start as int),
        decreases n - i,
    {
        i = i + 1;
    }
    (start, i)
}

/// The first whitespace-delimited token of `line`.
pub fn first_word(line: &str) -> (r: String)
    ensures
        r@ == first_token(line@),
{
    let (a, b) = token_bounds(line, 0);
    String::from_str(line.substring_char(a, b))
}

/// The first two whitespace-delimited tokens of `line`.
pub fn first_two_words(line: &str) -> (r: (String, String))
    ensures
        r.0@ == first_token(line@),
        r.1@ == second_token(line@),
{
    let (a, b) = token_bounds(line, 0);
    let (c, d) = token_bounds(line, b);
    (String::from_str(line.substring_char(a, b)), String::from_str(line.substring_char(c, d)))
}

} // verus!
