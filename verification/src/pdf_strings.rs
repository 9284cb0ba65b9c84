//! Decoding of document text strings: UTF-16BE behind a byte-order mark,
//! with a lossy UTF-8 fallback for everything else.
//!
//! The UTF-16 decoding is spelled out here: big-endian code units,
//! surrogate pairs combined, unpaired surrogates replaced by U+FFFD, and
//! a trailing odd byte dropped.  The UTF-8 fallback is carried out by
//! outside code and only named, except that pure ASCII input is pinned
//! to decode to itself.

use crate::text::push_char;
use vstd::prelude::*;

verus! {

/// The big-endian 16-bit code units of `bytes`, a trailing odd byte
/// dropped.
pub open spec fn be_u16s(bytes: Seq<u8>) -> Seq<u16> {
    Seq::new((bytes.len() / 2) as nat, |i: int| (bytes[2 * i] * 256 + bytes[2 * i + 1]) as u16)
}

/// A high-surrogate code unit.
pub open spec fn is_high_surrogate(u: u16) -> bool {
    0xD800 <= u && u < 0xDC00
}

/// A low-surrogate code unit.
pub open spec fn is_low_surrogate(u: u16) -> bool {
    0xDC00 <= u && u < 0xE000
}

/// The scalar value of a surrogate pair.
pub open spec fn surrogate_pair_code(hi: u16, lo: u16) -> int {
    0x10000 + (hi - 0xD800) * 0x400 + (lo - 0xDC00)
}

/// UTF-16 decoding with replacement: a valid pair becomes its scalar
/// value, an unpaired surrogate becomes U+FFFD, and every other unit is
/// its own scalar value.
pub open spec fn utf16_decode(units: Seq<u16>) -> Seq<char>
    decreases units.len(),
{
    if units.len() == 0 {
        Seq::empty()
    } else if is_high_surrogate(units[0]) && units.len() >= 2 && is_low_surrogate(units[1]) {
        seq![(surrogate_pair_code(units[0], units[1]) as char)] + utf16_decode(units.skip(2))
    } else if is_high_surrogate(units[0]) || is_low_surrogate(units[0]) {
        seq!['\u{FFFD}'] + utf16_decode(units.skip(1))
    } else {
        seq![((units[0] as int) as char)] + utf16_decode(units.skip(1))
    }
}

/// What `String::from_utf8_lossy` yields on `bytes`.  Only the trusted
/// wrapper `utf8_lossy` speaks about this name.
pub uninterp spec fn utf8_lossy_of(bytes: Seq<u8>) -> Seq<char>;

/// Relies on `String::from_utf8_lossy`: replaces invalid UTF-8 with
/// U+FFFD; the result depends on the bytes alone, and a pure-ASCII input
/// decodes to its own characters.
#[verifier::external_body]
fn utf8_lossy(bytes: &[u8]) -> (r: String)
    ensures
        r@ == utf8_lossy_of(bytes@),
        (forall|i: int| 0 <= i < bytes@.len() ==> bytes@[i] < 0x80) ==> r@ == Seq::new(
            bytes@.len(),
            |i: int| bytes@[i] as char,
        ),
{
    String::from_utf8_lossy(bytes).to_string()
}

/// Relies on `char::from_u32`: yields the character with scalar value
/// `code` whenever `code` is a valid scalar value, as required here.
#[verifier::external_body]
fn char_from_code(code: u32) -> (r: char)
    requires
        code < 0xD800 || (0xE000 <= code && code < 0x110000),
    ensures
        r == (code as char),
{
    char::from_u32(code).unwrap_or('\u{FFFD}')
}

/// The decoded text of a document string: UTF-16BE after a byte-order
/// mark, lossy UTF-8 otherwise.
pub open spec fn decoded_pdf_string(bytes: Seq<u8>) -> Seq<char> {
    if bytes.len() >= 2 && bytes[0] == 0xFE && bytes[1] == 0xFF {
        utf16_decode(be_u16s(bytes.skip(2)))
    } else {
        utf8_lossy_of(bytes)
    }
}

/// Decodes a document string, per `decoded_pdf_string`.
pub fn decode_pdf_string(bytes: &[u8]) -> (r: String)
    ensures
        r@ == decoded_pdf_string(bytes@),
{
    let n = bytes.len();
    if n >= 2 && bytes[0] == 0xFE && bytes[1] == 0xFF {
        let mut units: Vec<u16> = Vec::new();
        let ghost tail = bytes@.skip(2);
        let mut i: usize = 2;
        while i + 1 < n
            invariant
                n == bytes@.len(),
                n >= 2,
                tail == bytes@.skip(2),
                2 <= i,
                i % 2 == 0,
                i <= n,
                units@.len() == (i - 2) / 2,
                forall|j: int| 0 <= j < units@.len() ==> units@[j] == be_u16s(tail)[j],
            decreases n - i,
        {
            let u: u16 = (bytes[i] as u16) * 256 + (bytes[i + 1] as u16);
            proof {
                let j = units@.len() as int;
                assert(tail[2 * j] == bytes@[i as int]);
                assert(tail[2 * j + 1] == bytes@[i + 1]);
            }
            units.push(u);
            i = i + 2;
        }
        proof {
            assert(units@.len() == be_u16s(tail).len());
            assert(units@ =~= be_u16s(tail));
        }
        let mut out = String::new();
        let ghost um = units@;
        let mut k: usize = 0;
        proof {
            assert(um.skip(0) =~= um);
        }
        while k < units.len()
            invariant
                um == units@,
                k <= um.len(),
                out@ + utf16_decode(um.skip(k as int)) == utf16_decode(um),
            decreases um.len() - k,
        {
            let u = units[k];
            if 0xD800 <= u && u < 0xDC00 && k + 1 < units.len() && 0xDC00 <= units[k + 1]
                && units[k + 1] < 0xE000 {
                let lo = units[k + 1];
                let code: u32 = 0x10000 + (((u - 0xD800) as u32) * 0x400) + ((lo - 0xDC00) as u32);
                let c = char_from_code(code);
                push_char(&mut out, c);
                proof {
                    assert(um.skip(k as int)[0] == um[k as int]);
                    assert(um.skip(k as int)[1] == um[k + 1]);
                    assert(um.skip(k as int).skip(2) =~= um.skip(k + 2));
                }
                k = k + 2;
            } else if 0xD800 <= u && u < 0xE000 {
                push_char(&mut out, '\u{FFFD}');
                proof {
                    assert(um.skip(k as int)[0] == um[k as int]);
                    assert(um.skip(k as int).skip(1) =~= um.skip(k + 1));
                }
                k = k + 1;
            } else {
                let c = char_from_code(u as u32);
                push_char(&mut out, c);
                proof {
                    assert(um.skip(k as int)[0] == um[k as int]);
                    assert(um.skip(k as int).skip(1) =~= um.skip(k + 1));
                }
                k = k + 1;
            }
        }
        proof {
            assert(um.skip(um.len() as int) =~= Seq::<u16>::empty());
            assert(out@ =~= utf16_decode(um));
        }
        out
    } else {
        utf8_lossy(bytes)
    }
}

} // verus!
