//! Character classification and small string helpers.
use vstd::prelude::*;

verus! {

/// Whether `c` is an ASCII letter (`A`-`Z` or `a`-`z`).
pub open spec fn is_ascii_letter(c: char) -> bool {
    (0x41 <= (c as u32) && (c as u32) <= 0x5A) || (0x61 <= (c as u32) && (c as u32) <= 0x7A)
}

/// Whether `c` is an ASCII decimal digit.
pub open spec fn is_ascii_digit(c: char) -> bool {
    0x30 <= (c as u32) && (c as u32) <= 0x39
}

/// `c` with an ASCII upper-case letter mapped to its lower-case form.
pub open spec fn ascii_lower_char(c: char) -> char {
    if 0x41 <= (c as u32) && (c as u32) <= 0x5A {
        ((c as u32) + 32) as char
    } else {
        c
    }
}

/// `s` with every ASCII upper-case letter mapped to lower case.
pub open spec fn ascii_lower(s: Seq<char>) -> Seq<char> {
    s.map_values(|c: char| ascii_lower_char(c))
}

pub fn is_ascii_letter_exec(c: char) -> (b: bool)
    ensures
        b == is_ascii_letter(c),
{
    let u = c as u32;
    (0x41 <= u && u <= 0x5A) || (0x61 <= u && u <= 0x7A)
}

pub fn is_ascii_digit_exec(c: char) -> (b: bool)
    ensures
        b == is_ascii_digit(c),
{
    let u = c as u32;
    0x30 <= u && u <= 0x39
}

/// Appends one character to a `String`: `String::push` of std.
#[verifier::external_body]
pub(crate) fn string_push(s: &mut String, c: char)
    ensures
        final(s)@ == old(s)@.push(c),
{
    s.push(c)
}

/// Lower-cases the ASCII letters of `s`; every other character is kept.
pub fn to_ascii_lower(s: &str) -> (res: String)
    ensures
        res@ == ascii_lower(s@),
{
    let mut res = String::new();
    for c in it: s.chars()
        invariant
            it.seq() == s@,
            res@ == ascii_lower(s@.take(it.index() as int)),
    {
        let u = c as u32;
        let l: char = if 0x41 <= u && u <= 0x5A {
            char_from_u32_lower(u)
        } else {
            c
        };
        proof {
            assert(s@.take(it.index() + 1) == s@.take(it.index() as int).push(c));
        }
        string_push(&mut res, l);
    }
    proof {
        assert(s@.take(s@.len() as int) == s@);
    }
    res
}

fn char_from_u32_lower(u: u32) -> (c: char)
    requires
        0x41 <= u <= 0x5A,
    ensures
        c == ((u + 32) as char),
{
    let b: u8 = (u + 32) as u8;
    b as char
}

} // verus!
