//! What the library takes from the standard library's handling of text.
//! Verus has no specification for these functions; each stands behind a
//! small function whose contract is believed, not proved.

use vstd::prelude::*;
use vstd::utf8::{decode_utf8, valid_utf8};

verus! {

/// Whether `char::is_alphabetic` holds of a character.
pub uninterp spec fn alphabetic(c: char) -> bool;

/// Whether `char::is_alphanumeric` holds of a character.
pub uninterp spec fn alphanumeric(c: char) -> bool;

/// Whether `char::is_whitespace` holds of a character.
pub uninterp spec fn whitespace(c: char) -> bool;

/// What `str::to_uppercase` makes of a text.
pub uninterp spec fn uppercased(text: Seq<char>) -> Seq<char>;

/// How `char`'s `Debug` writes a character.
pub uninterp spec fn char_debug(c: char) -> Seq<char>;

/// How `str`'s `Debug` writes a text.
pub uninterp spec fn str_debug(text: Seq<char>) -> Seq<char>;

/// How `i64`'s `Display` writes a number.
pub uninterp spec fn i64_display(n: i64) -> Seq<char>;

/// An ASCII decimal digit.
pub open spec fn ascii_digit(c: char) -> bool {
    '0' <= c <= '9'
}

/// The value of a run of decimal digits.
pub open spec fn digits_value(digits: Seq<char>) -> int
    decreases digits.len(),
{
    if digits.len() == 0 {
        0
    } else {
        digits_value(digits.drop_last()) * 10 + (digits.last() as int - '0' as int)
    }
}

/// Every character is an ASCII decimal digit.
pub open spec fn all_digits(digits: Seq<char>) -> bool {
    forall|k: int| 0 <= k < digits.len() ==> ascii_digit(#[trigger] digits[k])
}

/// The `i64` that a text denotes: an optional `+` or `-`, then one digit or
/// more, with a value in range.
pub open spec fn parsed_i64(text: Seq<char>) -> Option<i64> {
    let negative = text.len() > 0 && text[0] == '-';
    let signed = text.len() > 0 && (text[0] == '-' || text[0] == '+');
    let digits = if signed {
        text.skip(1)
    } else {
        text
    };
    let value = if negative {
        -digits_value(digits)
    } else {
        digits_value(digits)
    };
    if digits.len() > 0 && all_digits(digits) && i64::MIN <= value <= i64::MAX {
        Some(value as i64)
    } else {
        None
    }
}

/// `char::is_alphabetic`: whether the character has the Unicode property
/// Alphabetic. The contract only names the answer.
#[verifier::external_body]
pub(crate) fn is_alphabetic(c: char) -> (yes: bool)
    ensures
        yes == alphabetic(c),
{
    c.is_alphabetic()
}

/// `char::is_alphanumeric`: whether the character is alphabetic or numeric
/// by its Unicode properties. The contract only names the answer.
#[verifier::external_body]
pub(crate) fn is_alphanumeric(c: char) -> (yes: bool)
    ensures
        yes == alphanumeric(c),
{
    c.is_alphanumeric()
}

/// `char::is_whitespace`: whether the character has the Unicode property
/// White_Space. The contract only names the answer.
#[verifier::external_body]
pub(crate) fn is_whitespace(c: char) -> (yes: bool)
    ensures
        yes == whitespace(c),
{
    c.is_whitespace()
}

/// `str::to_uppercase`: the text in upper case by the Unicode rules. The
/// contract only names the result.
#[verifier::external_body]
pub(crate) fn to_uppercase(text: &str) -> (upper: String)
    ensures
        upper@ == uppercased(text@),
{
    text.to_uppercase()
}

/// `String::push`: appends one character to the end of the string.
#[verifier::external_body]
pub(crate) fn push_char(text: &mut String, c: char)
    ensures
        final(text)@ == old(text)@.push(c),
{
    text.push(c)
}

/// `str::parse::<i64>`: the number that a text denotes in decimal, with an
/// optional sign in front of at least one ASCII digit and nothing else; no
/// number where the text has another form or the value does not fit.
#[verifier::external_body]
pub(crate) fn parse_i64(text: &str) -> (number: Option<i64>)
    ensures
        number == parsed_i64(text@),
{
    text.parse::<i64>().ok()
}

/// `String::from_utf8`: the string that the bytes are in UTF-8, or nothing
/// where they are not valid UTF-8.
#[verifier::external_body]
pub(crate) fn string_from_utf8(bytes: Vec<u8>) -> (text: Option<String>)
    ensures
        match text {
            Some(s) => valid_utf8(bytes@) && s@ == decode_utf8(bytes@),
            None => !valid_utf8(bytes@),
        },
{
    String::from_utf8(bytes).ok()
}

/// `Debug` for `char`: the character between single quotes, escaped where
/// it has to be. The contract only names the result.
#[verifier::external_body]
pub(crate) fn debug_char(c: char) -> (text: String)
    ensures
        text@ == char_debug(c),
{
    format!("{:?}", c)
}

/// `Debug` for `str`: the text between double quotes, escaped where it has
/// to be. The contract only names the result.
#[verifier::external_body]
pub(crate) fn debug_str(s: &str) -> (text: String)
    ensures
        text@ == str_debug(s@),
{
    format!("{:?}", s)
}

/// `Display` for `i64`: the number in decimal. The contract only names the
/// result.
#[verifier::external_body]
pub(crate) fn display_i64(n: i64) -> (text: String)
    ensures
        text@ == i64_display(n),
{
    format!("{}", n)
}

} // verus!
