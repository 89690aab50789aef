//! Text for numbers and characters
//!
//! The standard library does the formatting; what it returns is stated here.

use vstd::prelude::*;

verus! {

/// Digit for a value below sixteen
pub open spec fn digit_char(value: nat) -> char {
    if value < 10 {
        (('0' as u8) + value as u8) as char
    } else {
        (('a' as u8) + (value - 10) as u8) as char
    }
}

/// Decimal digits of `value`, most significant digit first
pub open spec fn decimal_digits(value: nat) -> Seq<char>
    decreases value,
{
    if value < 10 {
        seq![digit_char(value)]
    } else {
        decimal_digits(value / 10).push(digit_char(value % 10))
    }
}

/// Decimal digits of `value` after a minus sign if it is negative
pub open spec fn decimal_text(value: int) -> Seq<char> {
    if value < 0 {
        seq!['-'] + decimal_digits((-value) as nat)
    } else {
        decimal_digits(value as nat)
    }
}

/// Hexadecimal digits of `value` in lower case, most significant digit first
pub open spec fn lower_hex_text(value: nat) -> Seq<char>
    decreases value,
{
    if value < 16 {
        seq![digit_char(value)]
    } else {
        lower_hex_text(value / 16).push(digit_char(value % 16))
    }
}

/// What formatting a character for debugging gives: the character between single quotes,
/// escaped where it cannot stand for itself
pub uninterp spec fn char_debug_text(value: char) -> Seq<char>;

/// What formatting a string for debugging gives: the string between double quotes, with the
/// characters that cannot stand for themselves escaped
pub uninterp spec fn str_debug_text(value: Seq<char>) -> Seq<char>;

/// Formats `value` in decimal
///
/// This is `Display` for `i64` of the standard library, which gives the decimal digits of the
/// number without leading zeros and with a minus sign in front of negative numbers.
#[verifier::external_body]
pub(crate) fn fmt_decimal(value: i64) -> (text: String)
    ensures
        text@ == decimal_text(value as int),
{
    format!("{}", value)
}

/// Formats `value` in hexadecimal
///
/// This is `LowerHex` for `u64` of the standard library, which gives the hexadecimal digits of
/// the number in lower case without a prefix and without leading zeros.
#[verifier::external_body]
pub(crate) fn fmt_lower_hex(value: u64) -> (text: String)
    ensures
        text@ == lower_hex_text(value as nat),
{
    format!("{:x}", value)
}

/// Formats `value` for debugging
///
/// This is `Debug` for `char` of the standard library. The contract only names the result.
#[verifier::external_body]
pub(crate) fn fmt_char_debug(value: char) -> (text: String)
    ensures
        text@ == char_debug_text(value),
{
    format!("{:?}", value)
}

/// Formats `value` for debugging
///
/// This is `Debug` for `str` of the standard library. The contract only names the result.
#[verifier::external_body]
pub(crate) fn fmt_str_debug(value: &str) -> (text: String)
    ensures
        text@ == str_debug_text(value@),
{
    format!("{:?}", value)
}

} // verus!
