//! Reading the status code off a response's status line.
use vstd::prelude::*;
use crate::response::strings_view;
use crate::text::{chars_of, string_of};

verus! {

/// Unicode's White_Space property.
pub open spec fn is_space(c: char) -> bool {
    let u = c as u32;
    (0x09 <= u <= 0x0D) || u == 0x20 || u == 0x85 || u == 0xA0 || u == 0x1680 || (0x2000 <= u
        <= 0x200A) || u == 0x2028 || u == 0x2029 || u == 0x202F || u == 0x205F || u == 0x3000
}

/// Whether `c` is a white-space character.
pub fn is_space_char(c: char) -> (r: bool)
    ensures
        r == is_space(c),
{
    let u = c as u32;
    (0x09 <= u && u <= 0x0D) || u == 0x20 || u == 0x85 || u == 0xA0 || u == 0x1680 || (0x2000 <= u
        && u <= 0x200A) || u == 0x2028 || u == 0x2029 || u == 0x202F || u == 0x205F || u == 0x3000
}

/// The first index at or after `i` that holds no white space (or the end).
pub open spec fn skip_space(s: Seq<char>, i: int) -> int
    decreases s.len() - i,
{
    if i < 0 || i >= s.len() || !is_space(s[i]) {
        i
    } else {
        skip_space(s, i + 1)
    }
}

/// The first index at or after `i` that holds white space (or the end).
pub open spec fn token_end(s: Seq<char>, i: int) -> int
    decreases s.len() - i,
{
    if i < 0 || i >= s.len() || is_space(s[i]) {
        i
    } else {
        token_end(s, i + 1)
    }
}

/// The second white-space-delimited token of `s`, if there is one.
pub open spec fn second_token(s: Seq<char>) -> Option<Seq<char>> {
    let a = skip_space(s, token_end(s, skip_space(s, 0)));
    if a < s.len() {
        Some(s.subrange(a, token_end(s, a)))
    } else {
        None
    }
}

/// The status code of a response with these header lines: the second token
/// of the first line. None where there is no line or no second token.
pub open spec fn status_of(headers: Seq<Seq<char>>) -> Option<Seq<char>> {
    if headers.len() == 0 {
        None
    } else {
        second_token(headers[0])
    }
}

fn skip_space_from(cs: &Vec<char>, i: usize) -> (r: usize)
    requires
        i <= cs@.len(),
    ensures
        r == skip_space(cs@, i as int),
        i <= r <= cs@.len(),
{
    let mut j = i;
    while j < cs.len() && is_space_char(cs[j])
        invariant
            i <= j <= cs@.len(),
            skip_space(cs@, j as int) == skip_space(cs@, i as int),
        decreases cs@.len() - j,
    {
        j = j + 1;
    }
    j
}

fn token_end_from(cs: &Vec<char>, i: usize) -> (r: usize)
    requires
        i <= cs@.len(),
    ensures
        r == token_end(cs@, i as int),
        i <= r <= cs@.len(),
{
    let mut j = i;
    while j < cs.len() && !is_space_char(cs[j])
        invariant
            i <= j <= cs@.len(),
            token_end(cs@, j as int) == token_end(cs@, i as int),
        decreases cs@.len() - j,
    {
        j = j + 1;
    }
    j
}

/// The status code carried by the first of `headers`, e.g. `"200"` for
/// `"HTTP/1.0 200 OK"`; None where the status line is missing or has fewer
/// than two tokens.
pub fn status_code(headers: &Vec<String>) -> (r: Option<String>)
    ensures
        r is Some <==> status_of(strings_view(headers@)) is Some,
        r is Some ==> status_of(strings_view(headers@)) == Some(r->0@),
{
    if headers.len() == 0 {
        return None;
    }
    let cs = chars_of(headers[0].as_str());
    assert(strings_view(headers@)[0] == cs@);
    let a0 = skip_space_from(&cs, 0);
    let e0 = token_end_from(&cs, a0);
    let a1 = skip_space_from(&cs, e0);
    if a1 < cs.len() {
        let e1 = token_end_from(&cs, a1);
        Some(string_of(&cs, a1, e1))
    } else {
        None
    }
}

} // verus!
