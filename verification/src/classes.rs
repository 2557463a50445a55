//! Character classes of the `regex` crate that the todo.txt grammar uses:
//! `\d` (Unicode decimal digits) and `\w` (Unicode word characters).

use crate::date::is_ascii_digit;
use crate::text::is_white;
use vstd::prelude::*;

verus! {

/// Whether the `regex` class `\d` (Unicode `Decimal_Number`) holds `c`.
pub uninterp spec fn regex_digit(c: char) -> bool;

/// Whether the `regex` class `\w` (Unicode word characters) holds `c`.
pub uninterp spec fn regex_word(c: char) -> bool;

pub open spec fn is_ascii(c: char) -> bool {
    (c as u32) < 128
}

/// `\d`: an ASCII character is a digit exactly when it is `0`-`9`.
pub open spec fn is_digit(c: char) -> bool {
    if is_ascii(c) {
        is_ascii_digit(c)
    } else {
        regex_digit(c)
    }
}

pub open spec fn is_ascii_alnum(c: char) -> bool {
    let u = c as u32;
    (48 <= u <= 57) || (65 <= u <= 90) || (97 <= u <= 122)
}

/// `\w`: an ASCII character is a word character exactly when it is a letter,
/// a digit or `_`.
pub open spec fn is_word(c: char) -> bool {
    if is_ascii(c) {
        is_ascii_alnum(c) || c == '_'
    } else {
        regex_word(c)
    }
}

/// Matches `c` against the regular expression `^\d$`. The result is named
/// `regex_digit`; the contract also claims that no such digit is white space
/// (decimal digits and `White_Space` are disjoint in Unicode).
#[verifier::external_body]
fn regex_matches_digit(c: char) -> (r: bool)
    ensures
        r == regex_digit(c),
        r ==> !is_white(c),
{
    let mut buf = [0u8; 4];
    regex::Regex::new(r"^\d$").expect("a valid pattern").is_match(c.encode_utf8(&mut buf))
}

/// Matches `c` against the regular expression `^\w$`; the result is named
/// `regex_word`.
#[verifier::external_body]
fn regex_matches_word(c: char) -> (r: bool)
    ensures
        r == regex_word(c),
{
    let mut buf = [0u8; 4];
    regex::Regex::new(r"^\w$").expect("a valid pattern").is_match(c.encode_utf8(&mut buf))
}

/// Whether `c` is matched by `\d`.
pub fn is_digit_char(c: char) -> (r: bool)
    ensures
        r == is_digit(c),
        r ==> !is_white(c),
{
    let u = c as u32;
    if u < 128 {
        48 <= u && u <= 57
    } else {
        regex_matches_digit(c)
    }
}

/// Whether `c` is matched by `\w`.
pub fn is_word_char(c: char) -> (r: bool)
    ensures
        r == is_word(c),
{
    let u = c as u32;
    if u < 128 {
        (48 <= u && u <= 57) || (65 <= u && u <= 90) || (97 <= u && u <= 122) || u == 95
    } else {
        regex_matches_word(c)
    }
}

} // verus!
