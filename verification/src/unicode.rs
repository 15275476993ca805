//! Number characters: the digits of ASCII, and beyond ASCII what the Unicode
//! tables of the standard library say.

use vstd::prelude::*;

verus! {

/// Whether `c` belongs to one of Unicode's general categories for numbers
/// (`Nd`, `Nl`, `No`), as `char::is_numeric` reports it.
pub uninterp spec fn unicode_numeric(c: char) -> bool;

/// Whether `c` is an ASCII character.
pub open spec fn is_ascii_char(c: char) -> bool {
    c <= '\x7f'
}

/// Whether `c` is a number character. Among the ASCII characters these are
/// the digits `'0'..='9'`; beyond ASCII the Unicode tables decide.
pub open spec fn is_number_char(c: char) -> bool {
    if is_ascii_char(c) {
        '0' <= c && c <= '9'
    } else {
        unicode_numeric(c)
    }
}

/// Whether every character of `s` is a number character. This holds of the
/// empty string.
pub open spec fn all_numeric(s: Seq<char>) -> bool {
    forall|i: int| 0 <= i < s.len() ==> is_number_char(#[trigger] s[i])
}

/// Calls `char::is_numeric`. Trusted: the result is the standard library's
/// classification of `c`, which this crate only names.
#[verifier::external_body]
fn is_numeric(c: char) -> (numeric: bool)
    ensures
        numeric == unicode_numeric(c),
{
    c.is_numeric()
}

/// Whether `c` is a number character.
pub fn is_number(c: char) -> (numeric: bool)
    ensures
        numeric == is_number_char(c),
{
    if c <= '\x7f' {
        c >= '0' && c <= '9'
    } else {
        is_numeric(c)
    }
}

/// Whether `s` consists of number characters only.
pub fn is_all_numeric(s: &str) -> (numeric: bool)
    ensures
        numeric == all_numeric(s@),
{
    let n = s.unicode_len();
    let mut i: usize = 0;
    while i < n
        invariant
            i <= n,
            n == s@.len(),
            forall|j: int| 0 <= j < i ==> is_number_char(#[trigger] s@[j]),
        decreases n - i,
    {
        if !is_number(s.get_char(i)) {
            return false;
        }
        i += 1;
    }
    true
}

} // verus!
