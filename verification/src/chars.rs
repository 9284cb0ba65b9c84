//! Character classification primitives.
//!
//! The closed classes (whitespace, control, digits, punctuation sets) are
//! small enough to be written out and are specified exactly.  The open
//! Unicode letter/number/symbol categories are queried from outside code and
//! are only named here (`lowercase_letter` and friends); for ASCII input the
//! wrappers additionally pin the exact answer.

use vstd::prelude::*;

verus! {

/// The Unicode `White_Space` code points, written out in full.
pub open spec fn is_ws_char(c: char) -> bool {
    c == ' ' || c == '\t' || c == '\n' || c == '\r' || c == '\u{0B}' || c == '\u{0C}'
        || c == '\u{85}' || c == '\u{A0}' || c == '\u{1680}' || ('\u{2000}' <= c && c
        <= '\u{200A}') || c == '\u{2028}' || c == '\u{2029}' || c == '\u{202F}' || c == '\u{205F}'
        || c == '\u{3000}'
}

/// Whether `c` is whitespace, per `is_ws_char`.
pub fn is_whitespace(c: char) -> (r: bool)
    ensures
        r == is_ws_char(c),
{
    c == ' ' || c == '\t' || c == '\n' || c == '\r' || c == '\u{0B}' || c == '\u{0C}'
        || c == '\u{85}' || c == '\u{A0}' || c == '\u{1680}' || ('\u{2000}' <= c && c
        <= '\u{200A}') || c == '\u{2028}' || c == '\u{2029}' || c == '\u{202F}' || c == '\u{205F}'
        || c == '\u{3000}'
}

/// ASCII decimal digit.
pub open spec fn is_digit_char(c: char) -> bool {
    '0' <= c && c <= '9'
}

/// Whether `c` is an ASCII decimal digit.
pub fn is_ascii_digit(c: char) -> (r: bool)
    ensures
        r == is_digit_char(c),
{
    '0' <= c && c <= '9'
}

/// The Unicode `Cc` (control) code points: U+0000..U+001F and U+007F..U+009F.
pub open spec fn is_control_char(c: char) -> bool {
    (c as u32) < 0x20 || (0x7F <= (c as u32) && (c as u32) <= 0x9F)
}

/// The Unicode `Lowercase` property of `c`.  Only the trusted wrapper
/// `char_lowercase` speaks about this name.
pub uninterp spec fn lowercase_letter(c: char) -> bool;

/// The Unicode `Uppercase` property of `c`.
pub uninterp spec fn uppercase_letter(c: char) -> bool;

/// Membership of `c` in the Unicode `Lt` (titlecase letter) category.
pub uninterp spec fn titlecase_letter(c: char) -> bool;

/// The Unicode `Numeric` property of `c` (categories Nd, Nl and No).
pub uninterp spec fn numeric_char(c: char) -> bool;

/// Membership of `c` in the Unicode `Sm` (math symbol) category.
pub uninterp spec fn math_symbol_char(c: char) -> bool;

/// Relies on `char::is_lowercase`: the Unicode `Lowercase` property, which
/// depends on the character alone.  On ASCII it holds exactly of 'a'..='z'.
#[verifier::external_body]
pub fn char_lowercase(c: char) -> (r: bool)
    ensures
        r == lowercase_letter(c),
        (c as u32) < 128 ==> r == ('a' <= c && c <= 'z'),
{
    c.is_lowercase()
}

/// Relies on `char::is_uppercase`: the Unicode `Uppercase` property, which
/// depends on the character alone.  On ASCII it holds exactly of 'A'..='Z'.
#[verifier::external_body]
pub fn char_uppercase(c: char) -> (r: bool)
    ensures
        r == uppercase_letter(c),
        (c as u32) < 128 ==> r == ('A' <= c && c <= 'Z'),
{
    c.is_uppercase()
}

/// Relies on `char::is_numeric`: the Unicode `Numeric` property, which
/// depends on the character alone.  On ASCII it holds exactly of '0'..='9'.
#[verifier::external_body]
pub fn char_numeric(c: char) -> (r: bool)
    ensures
        r == numeric_char(c),
        (c as u32) < 128 ==> r == ('0' <= c && c <= '9'),
{
    c.is_numeric()
}

/// Relies on the regex crate's Unicode class `\p{Lt}` (titlecase letter):
/// membership depends on the character alone, and no ASCII character is in
/// the category.  The pattern is constant and valid, so compilation cannot
/// fail; the error arm is unreachable.  The expression is compiled afresh
/// on each call, since the library keeps no global state.
#[verifier::external_body]
pub fn char_titlecase(c: char) -> (r: bool)
    ensures
        r == titlecase_letter(c),
        (c as u32) < 128 ==> r == false,
{
    let mut buf = [0u8; 4];
    match regex::Regex::new("\\p{Lt}") {
        Ok(re) => re.is_match(c.encode_utf8(&mut buf)),
        Err(_) => false,
    }
}

/// Relies on the regex crate's Unicode class `\p{Sm}` (math symbol):
/// membership depends on the character alone.  The ASCII members of the
/// category are exactly `+ < = > | ~`.  The pattern is constant and valid,
/// so compilation cannot fail; the error arm is unreachable.  The
/// expression is compiled afresh on each call, since the library keeps no
/// global state.
#[verifier::external_body]
pub fn char_math_symbol(c: char) -> (r: bool)
    ensures
        r == math_symbol_char(c),
        (c as u32) < 128 ==> r == (c == '+' || c == '<' || c == '=' || c == '>' || c == '|' || c
            == '~'),
{
    let mut buf = [0u8; 4];
    match regex::Regex::new("\\p{Sm}") {
        Ok(re) => re.is_match(c.encode_utf8(&mut buf)),
        Err(_) => false,
    }
}

} // verus!
