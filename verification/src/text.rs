//! Character classes and string helpers shared by the lexer and the parser.

use vstd::prelude::*;
use vstd::utf8::*;

verus! {

/// Whether a character beyond ASCII is alphanumeric by the standard
/// library's Unicode tables.
pub uninterp spec fn alphanumeric_beyond_ascii(c: char) -> bool;

/// Whether a character beyond ASCII is numeric by the standard library's
/// Unicode tables.
pub uninterp spec fn numeric_beyond_ascii(c: char) -> bool;

pub open spec fn is_ascii(c: char) -> bool {
    c <= '\x7f'
}

pub open spec fn is_ascii_letter(c: char) -> bool {
    ('a' <= c && c <= 'z') || ('A' <= c && c <= 'Z')
}

pub open spec fn is_ascii_digit(c: char) -> bool {
    '0' <= c && c <= '9'
}

/// The alphanumeric characters: within ASCII the letters and the digits,
/// beyond it what the Unicode tables say.
pub open spec fn alphanumeric(c: char) -> bool {
    if is_ascii(c) {
        is_ascii_letter(c) || is_ascii_digit(c)
    } else {
        alphanumeric_beyond_ascii(c)
    }
}

/// The numeric characters: within ASCII the digits, beyond it what the
/// Unicode tables say.
pub open spec fn numeric(c: char) -> bool {
    if is_ascii(c) {
        is_ascii_digit(c)
    } else {
        numeric_beyond_ascii(c)
    }
}

/// `char::is_alphanumeric`. Trusted: within ASCII it holds of the letters
/// and the digits and of nothing else; beyond ASCII its result is only named.
pub assume_specification[ char::is_alphanumeric ](c: char) -> (r: bool)
    ensures
        r == alphanumeric(c),
        !is_ascii(c) ==> r == alphanumeric_beyond_ascii(c),
;

/// `char::is_numeric`. Trusted: within ASCII it holds of the digits and of
/// nothing else; beyond ASCII its result is only named.
pub assume_specification[ char::is_numeric ](c: char) -> (r: bool)
    ensures
        r == numeric(c),
        !is_ascii(c) ==> r == numeric_beyond_ascii(c),
;

/// `String::push`. Trusted: the character is appended at the end and the
/// rest of the string stays as it was.
pub assume_specification[ String::push ](s: &mut String, c: char)
    ensures
        final(s)@ == old(s)@.push(c),
;

/// The characters of `s`, in order.
pub fn chars_of(s: &str) -> (r: Vec<char>)
    ensures
        r@ == s@,
{
    let mut r: Vec<char> = Vec::new();
    for c in it: s.chars()
        invariant
            r@ == it.seq().take(it.index()),
            it.seq() == s@,
    {
        r.push(c);
    }
    r
}

/// Whether two strings hold the same characters.
pub fn same_text(a: &str, b: &str) -> (r: bool)
    ensures
        r == (a@ == b@),
{
    let x = a.as_bytes();
    let y = b.as_bytes();
    proof {
        encode_utf8_decode_utf8(a@);
        encode_utf8_decode_utf8(b@);
    }
    if x.len() != y.len() {
        return false;
    }
    let mut i: usize = 0;
    while i < x.len()
        invariant
            i <= x.len(),
            x.len() == y.len(),
            forall|k: int| 0 <= k < i ==> x@[k] == y@[k],
            x@ == encode_utf8(a@),
            y@ == encode_utf8(b@),
            decode_utf8(encode_utf8(a@)) == a@,
            decode_utf8(encode_utf8(b@)) == b@,
        decreases x.len() - i,
    {
        if x[i] != y[i] {
            return false;
        }
        i += 1;
    }
    assert(x@ =~= y@);
    true
}

} // verus!
