//! Small text utilities: conversion between `String` and `Vec<char>`,
//! trimming, control-character sanitizing, and ASCII lowercasing.
//!
//! Sequence-building specifications here recurse on `drop_last`, so that a
//! loop which grows its output on the right can relate each step to the
//! specification of the prefix processed so far.

use crate::chars::is_ws_char;
use crate::chars::is_whitespace;
use vstd::prelude::*;
use vstd::string::StrSliceExecFns;

verus! {

/// Relies on `String::push`: appends one character at the end.
#[verifier::external_body]
pub fn push_char(s: &mut String, c: char)
    ensures
        final (s)@ == old(s)@.push(c),
{
    s.push(c);
}

/// The characters of `s`, as a vector.
pub fn chars_of(s: &str) -> (r: Vec<char>)
    ensures
        r@ == s@,
{
    let n = s.unicode_len();
    let mut out: Vec<char> = Vec::new();
    let mut i: usize = 0;
    while i < n
        invariant
            n == s@.len(),
            i <= n,
            out@ == s@.take(i as int),
        decreases n - i,
    {
        let c = s.get_char(i);
        out.push(c);
        i = i + 1;
        proof {
            assert(out@ =~= s@.take(i as int));
        }
    }
    proof {
        assert(s@.take(n as int) =~= s@);
    }
    out
}

/// The string holding exactly the characters of `v`.
pub fn string_of(v: &Vec<char>) -> (r: String)
    ensures
        r@ == v@,
{
    let mut out = String::new();
    let mut i: usize = 0;
    while i < v.len()
        invariant
            i <= v@.len(),
            out@ == v@.take(i as int),
        decreases v@.len() - i,
    {
        push_char(&mut out, v[i]);
        i = i + 1;
        proof {
            assert(out@ =~= v@.take(i as int));
        }
    }
    proof {
        assert(v@.take(v@.len() as int) =~= v@);
    }
    out
}

/// Index of the first non-whitespace character at or after `i`.
pub open spec fn skip_ws_front(s: Seq<char>, i: int) -> int
    decreases s.len() - i,
{
    if 0 <= i < s.len() && is_ws_char(s[i]) {
        skip_ws_front(s, i + 1)
    } else {
        i
    }
}

/// Index after the last non-whitespace character at or before `i - 1`.
pub open spec fn skip_ws_back(s: Seq<char>, i: int) -> int
    decreases i,
{
    if 0 < i <= s.len() && is_ws_char(s[i - 1]) {
        skip_ws_back(s, i - 1)
    } else {
        i
    }
}

/// `s` with leading and trailing whitespace removed.
pub open spec fn trim_of(s: Seq<char>) -> Seq<char> {
    let a = skip_ws_front(s, 0);
    let b = skip_ws_back(s, s.len() as int);
    if a < b {
        s.subrange(a, b)
    } else {
        Seq::empty()
    }
}

proof fn lemma_skip_ws_front_bounds(s: Seq<char>, i: int)
    requires
        0 <= i <= s.len(),
    ensures
        i <= skip_ws_front(s, i) <= s.len(),
    decreases s.len() - i,
{
    if 0 <= i < s.len() && is_ws_char(s[i]) {
        lemma_skip_ws_front_bounds(s, i + 1);
    }
}

proof fn lemma_skip_ws_back_bounds(s: Seq<char>, i: int)
    requires
        0 <= i <= s.len(),
    ensures
        0 <= skip_ws_back(s, i) <= i,
    decreases i,
{
    if 0 < i <= s.len() && is_ws_char(s[i - 1]) {
        lemma_skip_ws_back_bounds(s, i - 1);
    }
}

/// `v` with leading and trailing whitespace removed.
pub fn trimmed_chars(v: &Vec<char>) -> (r: Vec<char>)
    ensures
        r@ == trim_of(v@),
{
    let n = v.len();
    let mut a: usize = 0;
    while a < n && is_whitespace(v[a])
        invariant
            n == v@.len(),
            a <= n,
            skip_ws_front(v@, 0) == skip_ws_front(v@, a as int),
        decreases n - a,
    {
        a = a + 1;
    }
    let mut b: usize = n;
    proof {
        lemma_skip_ws_back_bounds(v@, n as int);
    }
    while b > a && is_whitespace(v[b - 1])
        invariant
            n == v@.len(),
            a <= b <= n,
            a == skip_ws_front(v@, 0),
            a < b ==> skip_ws_back(v@, n as int) == skip_ws_back(v@, b as int),
            a == b ==> skip_ws_back(v@, n as int) <= b,
        decreases b,
    {
        proof {
            lemma_skip_ws_back_bounds(v@, b - 1);
        }
        b = b - 1;
    }
    let mut out: Vec<char> = Vec::new();
    let mut i: usize = a;
    while i < b
        invariant
            n == v@.len(),
            a <= i <= b <= n,
            out@ == v@.subrange(a as int, i as int),
        decreases b - i,
    {
        out.push(v[i]);
        i = i + 1;
        proof {
            assert(out@ =~= v@.subrange(a as int, i as int));
        }
    }
    proof {
        lemma_skip_ws_front_bounds(v@, 0);
        if a < b {
            assert(!is_ws_char(v@[b - 1]));
            assert(skip_ws_back(v@, b as int) == b);
            assert(out@ =~= trim_of(v@));
        } else {
            assert(skip_ws_back(v@, n as int) <= skip_ws_front(v@, 0));
            assert(out@ =~= trim_of(v@));
        }
    }
    out
}

/// `s` without carriage-return and line-feed characters.
pub open spec fn sanitize_of(s: Seq<char>) -> Seq<char>
    decreases s.len(),
{
    if s.len() == 0 {
        Seq::empty()
    } else if s.last() == '\r' || s.last() == '\n' {
        sanitize_of(s.drop_last())
    } else {
        sanitize_of(s.drop_last()).push(s.last())
    }
}

/// `v` with embedded carriage-return and line-feed characters removed.
pub fn sanitized_chars(v: &Vec<char>) -> (r: Vec<char>)
    ensures
        r@ == sanitize_of(v@),
{
    let mut out: Vec<char> = Vec::new();
    let mut i: usize = 0;
    while i < v.len()
        invariant
            i <= v@.len(),
            out@ == sanitize_of(v@.take(i as int)),
        decreases v@.len() - i,
    {
        let c = v[i];
        if !(c == '\r' || c == '\n') {
            out.push(c);
        }
        i = i + 1;
        proof {
            assert(v@.take(i as int).drop_last() =~= v@.take(i - 1));
        }
    }
    proof {
        assert(v@.take(v@.len() as int) =~= v@);
    }
    out
}

/// Whether `needle` occurs as a contiguous run inside `hay`.
pub open spec fn contains_seq(hay: Seq<char>, needle: Seq<char>) -> bool {
    exists|i: int|
        0 <= i && i + needle.len() <= hay.len() && #[trigger] hay.subrange(i, i + needle.len())
            == needle
}

/// Whether `needle` occurs inside `hay`, per `contains_seq`.
pub fn contains_chars(hay: &Vec<char>, needle: &Vec<char>) -> (r: bool)
    ensures
        r == contains_seq(hay@, needle@),
{
    let n = needle.len();
    let h = hay.len();
    if n > h {
        proof {
            assert(!contains_seq(hay@, needle@));
        }
        return false;
    }
    if n == 0 {
        proof {
            let l = needle@.len() as int;
            assert(hay@.subrange(0, 0 + l) =~= needle@);
            assert(contains_seq(hay@, needle@));
        }
        return true;
    }
    let mut i: usize = 0;
    while i <= h - n
        invariant
            n == needle@.len(),
            h == hay@.len(),
            0 < n <= h,
            i <= h - n + 1,
            forall|j: int| 0 <= j < i ==> #[trigger] hay@.subrange(j, j + n) != needle@,
        decreases h - n + 1 - i,
    {
        let mut k: usize = 0;
        let mut matched = true;
        while k < n
            invariant_except_break
                n == needle@.len(),
                h == hay@.len(),
                i + n <= h,
                k <= n,
                matched,
                forall|t: int| 0 <= t < k ==> hay@[i + t] == needle@[t],
            ensures
                n == needle@.len(),
                h == hay@.len(),
                i + n <= h,
                matched ==> (forall|t: int| 0 <= t < n ==> hay@[i + t] == needle@[t]),
                !matched ==> hay@.subrange(i as int, i + n) != needle@,
            decreases n - k,
        {
            if hay[i + k] != needle[k] {
                matched = false;
                proof {
                    assert(hay@.subrange(i as int, i + n)[k as int] != needle@[k as int]);
                }
                break ;
            }
            k = k + 1;
        }
        if matched {
            proof {
                assert(hay@.subrange(i as int, i + n) =~= needle@);
            }
            return true;
        }
        i = i + 1;
    }
    proof {
        assert forall|j: int| 0 <= j && j + needle@.len() <= hay@.len() implies #[trigger] hay@.subrange(
            j,
            j + needle@.len(),
        ) != needle@ by {
            assert(j < i);
        }
        assert(!contains_seq(hay@, needle@));
    }
    false
}

/// `c` with an ASCII capital letter mapped to its small form.
pub open spec fn ascii_lower_char(c: char) -> char {
    if 'A' <= c && c <= 'Z' {
        ((c as u32) + 32) as char
    } else {
        c
    }
}

/// Lowercases one ASCII character.
pub fn to_ascii_lower(c: char) -> (r: char)
    ensures
        r == ascii_lower_char(c),
{
    if 'A' <= c && c <= 'Z' {
        (((c as u32) + 32) as u8) as char
    } else {
        c
    }
}

/// `s` with every ASCII capital letter lowercased.
pub open spec fn ascii_lower_seq(s: Seq<char>) -> Seq<char> {
    Seq::new(s.len(), |i: int| ascii_lower_char(s[i]))
}

/// Lowercases every ASCII capital letter of `s`.
pub fn ascii_lowercase(s: &str) -> (r: String)
    ensures
        r@ == ascii_lower_seq(s@),
{
    let cs = chars_of(s);
    let mut out: Vec<char> = Vec::new();
    let mut i: usize = 0;
    while i < cs.len()
        invariant
            cs@ == s@,
            i <= cs@.len(),
            out@.len() == i,
            forall|j: int| 0 <= j < i ==> out@[j] == ascii_lower_char(cs@[j]),
        decreases cs@.len() - i,
    {
        out.push(to_ascii_lower(cs[i]));
        i = i + 1;
    }
    let r = string_of(&out);
    proof {
        assert(r@ =~= ascii_lower_seq(s@));
    }
    r
}

} // verus!
