//! The text patterns of the pipeline's own grammar.
//!
//! Four shapes of text drive block merging and TOC detection: a trailing
//! sentence-terminating punctuation mark; a leading numbering prefix (a
//! digits-and-dots run, a single letter followed by a period, or a roman
//! numeral followed by a period or closing parenthesis); a dot leader (at
//! least four repetitions of a period-plus-whitespace or two-plus-space
//! unit, then a number at the end); and a number at the end after
//! non-digit content.  Digits here are ASCII.

use crate::chars::is_ascii_digit;
use crate::chars::is_digit_char;
use crate::chars::is_whitespace;
use crate::chars::is_ws_char;
use crate::text::skip_ws_back;
use crate::text::skip_ws_front;
use vstd::prelude::*;

verus! {

/// Sentence-terminating punctuation, including the full-width variants.
pub open spec fn is_sentence_punct(c: char) -> bool {
    c == '.' || c == '!' || c == '?' || c == ':' || c == '\u{FF1A}' || c == '\u{3002}' || c
        == '\u{FF01}' || c == '\u{FF1F}' || c == '\u{FF0E}'
}

/// Whether the last character of `s` is sentence-terminating punctuation.
pub open spec fn ends_with_sentence_punct(s: Seq<char>) -> bool {
    s.len() > 0 && is_sentence_punct(s.last())
}

/// Whether `text` ends with sentence-terminating punctuation.
pub fn has_sentence_punct_end(text: &Vec<char>) -> (r: bool)
    ensures
        r == ends_with_sentence_punct(text@),
{
    if text.len() == 0 {
        return false;
    }
    let c = text[text.len() - 1];
    c == '.' || c == '!' || c == '?' || c == ':' || c == '\u{FF1A}' || c == '\u{3002}' || c
        == '\u{FF01}' || c == '\u{FF1F}' || c == '\u{FF0E}'
}

/// ASCII letter.
pub open spec fn is_ascii_letter(c: char) -> bool {
    ('A' <= c && c <= 'Z') || ('a' <= c && c <= 'z')
}

/// Upper-case roman numeral character.
pub open spec fn is_roman_char(c: char) -> bool {
    c == 'I' || c == 'V' || c == 'X' || c == 'L' || c == 'C' || c == 'D' || c == 'M'
}

/// Index of the first non-roman-numeral character at or after `i`.
pub open spec fn skip_roman_front(s: Seq<char>, i: int) -> int
    decreases s.len() - i,
{
    if 0 <= i < s.len() && is_roman_char(s[i]) {
        skip_roman_front(s, i + 1)
    } else {
        i
    }
}

/// Whether `s` starts, after optional whitespace, with a numbering prefix:
/// a digit or period, a single ASCII letter followed by a period, or a
/// roman numeral run followed by a period or closing parenthesis.
pub open spec fn numbering_prefix_match(s: Seq<char>) -> bool {
    let k = skip_ws_front(s, 0);
    &&& k < s.len()
    &&& {
        ||| is_digit_char(s[k]) || s[k] == '.'
        ||| (is_ascii_letter(s[k]) && k + 1 < s.len() && s[k + 1] == '.')
        ||| (is_roman_char(s[k]) && {
            let m = skip_roman_front(s, k);
            m < s.len() && (s[m] == '.' || s[m] == ')')
        })
    }
}

proof fn lemma_skip_ws_front_bounds(s: Seq<char>, i: int)
    requires
        0 <= i <= s.len(),
    ensures
        i <= skip_ws_front(s, i) <= s.len(),
        skip_ws_front(s, i) < s.len() ==> !is_ws_char(s[skip_ws_front(s, i)]),
    decreases s.len() - i,
{
    if 0 <= i < s.len() && is_ws_char(s[i]) {
        lemma_skip_ws_front_bounds(s, i + 1);
    }
}

proof fn lemma_skip_roman_front_bounds(s: Seq<char>, i: int)
    requires
        0 <= i <= s.len(),
    ensures
        i <= skip_roman_front(s, i) <= s.len(),
    decreases s.len() - i,
{
    if 0 <= i < s.len() && is_roman_char(s[i]) {
        lemma_skip_roman_front_bounds(s, i + 1);
    }
}

/// Whether `text` starts with a numbering prefix, per
/// `numbering_prefix_match`.
pub fn has_numbering_prefix(text: &Vec<char>) -> (r: bool)
    ensures
        r == numbering_prefix_match(text@),
{
    let n = text.len();
    let mut k: usize = 0;
    while k < n && is_whitespace(text[k])
        invariant
            n == text@.len(),
            k <= n,
            skip_ws_front(text@, 0) == skip_ws_front(text@, k as int),
        decreases n - k,
    {
        k = k + 1;
    }
    if k >= n {
        return false;
    }
    let c = text[k];
    if is_ascii_digit(c) || c == '.' {
        return true;
    }
    let letter = ('A' <= c && c <= 'Z') || ('a' <= c && c <= 'z');
    if letter && k + 1 < n && text[k + 1] == '.' {
        return true;
    }
    let roman = c == 'I' || c == 'V' || c == 'X' || c == 'L' || c == 'C' || c == 'D' || c == 'M';
    if !roman {
        return false;
    }
    let mut m: usize = k;
    while m < n && (text[m] == 'I' || text[m] == 'V' || text[m] == 'X' || text[m] == 'L' || text[m]
        == 'C' || text[m] == 'D' || text[m] == 'M')
        invariant
            n == text@.len(),
            k <= m <= n,
            skip_roman_front(text@, k as int) == skip_roman_front(text@, m as int),
        decreases n - m,
    {
        m = m + 1;
    }
    m < n && (text[m] == '.' || text[m] == ')')
}

/// Index of the first non-digit character at or before `i - 1`, scanning
/// backwards.
pub open spec fn skip_digits_back(s: Seq<char>, i: int) -> int
    decreases i,
{
    if 0 < i <= s.len() && is_digit_char(s[i - 1]) {
        skip_digits_back(s, i - 1)
    } else {
        i
    }
}

proof fn lemma_skip_ws_back_bounds(s: Seq<char>, i: int)
    requires
        0 <= i <= s.len(),
    ensures
        0 <= skip_ws_back(s, i) <= i,
    decreases i,
{
    if 0 < i <= s.len() && is_ws_char(s[i - 1]) {
        lemma_skip_ws_back_bounds(s, i - 1);
    }
}

proof fn lemma_skip_digits_back_bounds(s: Seq<char>, i: int)
    requires
        0 <= i <= s.len(),
    ensures
        0 <= skip_digits_back(s, i) <= i,
    decreases i,
{
    if 0 < i <= s.len() && is_digit_char(s[i - 1]) {
        lemma_skip_digits_back_bounds(s, i - 1);
    }
}

/// How many leader units end at position `i`, scanning backwards: a
/// period is one unit, a pair of whitespace characters is one unit, and a
/// single whitespace character joins a period right before it into one
/// unit.
pub open spec fn leader_units_back(s: Seq<char>, i: int) -> int
    decreases i,
{
    if i <= 0 || i > s.len() {
        0
    } else if s[i - 1] == '.' {
        1 + leader_units_back(s, i - 1)
    } else if is_ws_char(s[i - 1]) {
        if i >= 2 && (is_ws_char(s[i - 2]) || s[i - 2] == '.') {
            1 + leader_units_back(s, i - 2)
        } else {
            0
        }
    } else {
        0
    }
}

proof fn lemma_leader_units_back_bounds(s: Seq<char>, i: int)
    requires
        0 <= i <= s.len(),
    ensures
        0 <= leader_units_back(s, i) <= i,
    decreases i,
{
    if 0 < i <= s.len() {
        lemma_leader_units_back_bounds(s, i - 1);
        if i >= 2 {
            lemma_leader_units_back_bounds(s, i - 2);
        }
    }
}

/// Whether `s` ends in a dot leader followed by a number: at least four
/// leader units, optional whitespace, at least one digit, optional
/// trailing whitespace.
pub open spec fn dot_leader_match(s: Seq<char>) -> bool {
    let a = skip_ws_back(s, s.len() as int);
    &&& a > 0
    &&& is_digit_char(s[a - 1])
    &&& leader_units_back(s, skip_digits_back(s, a)) >= 4
}

/// Whether `text` matches the dot-leader shape, per `dot_leader_match`.
pub fn has_dot_leader(text: &Vec<char>) -> (r: bool)
    ensures
        r == dot_leader_match(text@),
{
    let n = text.len();
    let mut a: usize = n;
    while a > 0 && is_whitespace(text[a - 1])
        invariant
            n == text@.len(),
            a <= n,
            skip_ws_back(text@, n as int) == skip_ws_back(text@, a as int),
        decreases a,
    {
        a = a - 1;
    }
    if a == 0 || !is_ascii_digit(text[a - 1]) {
        return false;
    }
    let mut d: usize = a;
    while d > 0 && is_ascii_digit(text[d - 1])
        invariant
            n == text@.len(),
            d <= a <= n,
            skip_digits_back(text@, a as int) == skip_digits_back(text@, d as int),
        decreases d,
    {
        d = d - 1;
    }
    let mut i: usize = d;
    let mut units: usize = 0;
    loop
        invariant
            n == text@.len(),
            i <= d <= n,
            units + i <= d,
            leader_units_back(text@, d as int) == units + leader_units_back(text@, i as int),
        ensures
            units == leader_units_back(text@, d as int),
        decreases i,
    {
        if i == 0 {
            break ;
        }
        let c = text[i - 1];
        if c == '.' {
            proof {
                lemma_leader_units_back_bounds(text@, i - 1);
            }
            units = units + 1;
            i = i - 1;
        } else if is_whitespace(c) {
            if i >= 2 && (is_whitespace(text[i - 2]) || text[i - 2] == '.') {
                proof {
                    lemma_leader_units_back_bounds(text@, i - 2);
                }
                units = units + 1;
                i = i - 2;
            } else {
                proof {
                    assert(leader_units_back(text@, i as int) == 0);
                }
                break ;
            }
        } else {
            proof {
                assert(leader_units_back(text@, i as int) == 0);
            }
            break ;
        }
    }
    units >= 4
}

/// Whether `s` ends with a run of digits, preceded by whitespace,
/// preceded by content ending in a non-digit: either at least two
/// whitespace characters stand before the digits, or the character before
/// the single whitespace exists and is not a digit.
pub open spec fn numeric_end_match(s: Seq<char>) -> bool {
    let a = skip_ws_back(s, s.len() as int);
    let d = skip_digits_back(s, a);
    let w = skip_ws_back(s, d);
    &&& a > 0
    &&& is_digit_char(s[a - 1])
    &&& d >= 1
    &&& is_ws_char(s[d - 1])
    &&& (d - w >= 2 || (w >= 1 && !is_digit_char(s[w - 1])))
}

/// Whether `text` ends in a number after non-digit content, per
/// `numeric_end_match`.
pub fn has_numeric_end(text: &Vec<char>) -> (r: bool)
    ensures
        r == numeric_end_match(text@),
{
    let n = text.len();
    let mut a: usize = n;
    while a > 0 && is_whitespace(text[a - 1])
        invariant
            n == text@.len(),
            a <= n,
            skip_ws_back(text@, n as int) == skip_ws_back(text@, a as int),
        decreases a,
    {
        a = a - 1;
    }
    if a == 0 || !is_ascii_digit(text[a - 1]) {
        return false;
    }
    let mut d: usize = a;
    while d > 0 && is_ascii_digit(text[d - 1])
        invariant
            n == text@.len(),
            d <= a <= n,
            skip_digits_back(text@, a as int) == skip_digits_back(text@, d as int),
        decreases d,
    {
        d = d - 1;
    }
    if d == 0 || !is_whitespace(text[d - 1]) {
        return false;
    }
    let mut w: usize = d;
    while w > 0 && is_whitespace(text[w - 1])
        invariant
            n == text@.len(),
            w <= d <= n,
            skip_ws_back(text@, d as int) == skip_ws_back(text@, w as int),
        decreases w,
    {
        w = w - 1;
    }
    d - w >= 2 || (w >= 1 && !is_ascii_digit(text[w - 1]))
}

} // verus!
