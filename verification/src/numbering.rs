//! Page-number formatting: roman numerals, letter numbering, and decimal
//! digits, in the styles a page-label dictionary can call for.

use crate::page_label::PageLabelNumberingStyle;
use crate::text::ascii_lower_seq;
use crate::text::ascii_lowercase;
use crate::text::push_char;
use vstd::prelude::*;
use vstd::string::StringExecFns;

verus! {

/// The roman form of one decimal digit, over the digit's one, five and
/// ten symbols.
pub open spec fn roman_digit(d: int, one: char, five: char, ten: char) -> Seq<char> {
    if d == 1 {
        seq![one]
    } else if d == 2 {
        seq![one, one]
    } else if d == 3 {
        seq![one, one, one]
    } else if d == 4 {
        seq![one, five]
    } else if d == 5 {
        seq![five]
    } else if d == 6 {
        seq![five, one]
    } else if d == 7 {
        seq![five, one, one]
    } else if d == 8 {
        seq![five, one, one, one]
    } else if d == 9 {
        seq![one, ten]
    } else {
        Seq::empty()
    }
}

/// The thousands of a roman numeral: up to three `M`s.
pub open spec fn roman_thousands(d: int) -> Seq<char> {
    if d == 1 {
        seq!['M']
    } else if d == 2 {
        seq!['M', 'M']
    } else if d == 3 {
        seq!['M', 'M', 'M']
    } else {
        Seq::empty()
    }
}

/// The upper-case roman numeral for `n`, empty outside 1..=3999.
pub open spec fn roman_upper_of(n: int) -> Seq<char> {
    if n < 1 || n > 3999 {
        Seq::empty()
    } else {
        roman_thousands(n / 1000) + roman_digit((n % 1000) / 100, 'C', 'D', 'M') + roman_digit(
            (n % 100) / 10,
            'X',
            'L',
            'C',
        ) + roman_digit(n % 10, 'I', 'V', 'X')
    }
}

/// The decimal digits of a positive number, empty for zero and below.
pub open spec fn dec_digits(n: int) -> Seq<char>
    decreases n,
{
    if n <= 0 {
        Seq::empty()
    } else {
        dec_digits(n / 10) + seq![((48 + (n % 10)) as u32) as char]
    }
}

/// The decimal form of `n`, sign included.
pub open spec fn decimal_of(n: int) -> Seq<char> {
    if n == 0 {
        seq!['0']
    } else if n > 0 {
        dec_digits(n)
    } else {
        seq!['-'] + dec_digits(-n)
    }
}

/// The letter numbering of `n`: A..Z, then AA..AZ, and so on; empty for
/// zero and below.
pub open spec fn latin_upper_of(n: int) -> Seq<char>
    decreases n,
{
    if n <= 0 {
        Seq::empty()
    } else {
        latin_upper_of((n - 1) / 26) + seq![((65 + ((n - 1) % 26)) as u32) as char]
    }
}

/// Appends the roman form of one digit.
fn push_roman_digit(s: &mut String, d: u64, one: char, five: char, ten: char)
    requires
        d < 10,
    ensures
        final (s)@ == old(s)@ + roman_digit(d as int, one, five, ten),
{
    if d == 1 {
        push_char(s, one);
    } else if d == 2 {
        push_char(s, one);
        push_char(s, one);
    } else if d == 3 {
        push_char(s, one);
        push_char(s, one);
        push_char(s, one);
    } else if d == 4 {
        push_char(s, one);
        push_char(s, five);
    } else if d == 5 {
        push_char(s, five);
    } else if d == 6 {
        push_char(s, five);
        push_char(s, one);
    } else if d == 7 {
        push_char(s, five);
        push_char(s, one);
        push_char(s, one);
    } else if d == 8 {
        push_char(s, five);
        push_char(s, one);
        push_char(s, one);
        push_char(s, one);
    } else if d == 9 {
        push_char(s, one);
        push_char(s, ten);
    }
    proof {
        assert(final (s)@ =~= old(s)@ + roman_digit(d as int, one, five, ten));
    }
}

/// Appends the decimal digits of `n`.
fn push_dec_digits(s: &mut String, n: u64)
    ensures
        final (s)@ == old(s)@ + dec_digits(n as int),
    decreases n,
{
    if n == 0 {
        proof {
            assert(final (s)@ =~= old(s)@ + dec_digits(0));
        }
        return ;
    }
    proof {
        assert(n / 10 < n) by (nonlinear_arith)
            requires
                n > 0,
        ;
    }
    push_dec_digits(s, n / 10);
    let d: u32 = 48 + ((n % 10) as u32);
    push_char(s, (d as u8) as char);
    proof {
        assert(final (s)@ =~= old(s)@ + dec_digits(n as int));
    }
}

/// The decimal form of `n`, as `decimal_of` gives it.
pub fn decimal_string(n: i64) -> (r: String)
    ensures
        r@ == decimal_of(n as int),
{
    let mut s = String::new();
    if n == 0 {
        push_char(&mut s, '0');
        proof {
            assert(s@ =~= decimal_of(0));
        }
        return s;
    }
    if n > 0 {
        push_dec_digits(&mut s, n as u64);
        return s;
    }
    push_char(&mut s, '-');
    let m: u64 = if n == i64::MIN {
        9223372036854775808u64
    } else {
        (-n) as u64
    };
    push_dec_digits(&mut s, m);
    proof {
        assert(s@ =~= decimal_of(n as int));
    }
    s
}

/// Appends the letter numbering of `n`.
fn push_latin_digits(s: &mut String, n: u64)
    ensures
        final (s)@ == old(s)@ + latin_upper_of(n as int),
    decreases n,
{
    if n == 0 {
        proof {
            assert(final (s)@ =~= old(s)@ + latin_upper_of(0));
        }
        return ;
    }
    let m = n - 1;
    proof {
        assert(m / 26 < n) by (nonlinear_arith)
            requires
                m == n - 1,
                n > 0,
        ;
    }
    push_latin_digits(s, m / 26);
    let d: u32 = 65 + ((m % 26) as u32);
    push_char(s, (d as u8) as char);
    proof {
        assert(final (s)@ =~= old(s)@ + latin_upper_of(n as int));
    }
}

/// Page-number formatting.
pub struct Numbering;

impl Numbering {
    /// The roman numeral for `number`, in the requested case.
    pub fn to_roman(number: i64, upper_case: bool) -> (r: String)
        ensures
            upper_case ==> r@ == roman_upper_of(number as int),
            !upper_case ==> r@ == ascii_lower_seq(roman_upper_of(number as int)),
    {
        if upper_case {
            Self::to_roman_upper_case(number)
        } else {
            Self::to_roman_lower_case(number)
        }
    }

    /// The lower-case roman numeral for `number`.
    pub fn to_roman_lower_case(number: i64) -> (r: String)
        ensures
            r@ == ascii_lower_seq(roman_upper_of(number as int)),
    {
        let upper = Self::to_roman_upper_case(number);
        ascii_lowercase(upper.as_str())
    }

    /// The upper-case roman numeral for `number`, empty outside 1..=3999.
    pub fn to_roman_upper_case(number: i64) -> (r: String)
        ensures
            r@ == roman_upper_of(number as int),
    {
        if number < 1 || number > 3999 {
            let r = String::new();
            return r;
        }
        let n = number as u64;
        let mut s = String::new();
        let th = n / 1000;
        if th == 1 {
            push_char(&mut s, 'M');
        } else if th == 2 {
            push_char(&mut s, 'M');
            push_char(&mut s, 'M');
        } else if th == 3 {
            push_char(&mut s, 'M');
            push_char(&mut s, 'M');
            push_char(&mut s, 'M');
        }
        proof {
            assert(s@ =~= roman_thousands((number as int) / 1000));
        }
        push_roman_digit(&mut s, (n % 1000) / 100, 'C', 'D', 'M');
        push_roman_digit(&mut s, (n % 100) / 10, 'X', 'L', 'C');
        push_roman_digit(&mut s, n % 10, 'I', 'V', 'X');
        proof {
            assert(s@ =~= roman_upper_of(number as int));
        }
        s
    }

    /// The letter numbering for `number`, in the requested case.
    pub fn to_latin_alphabet_number(number: i64, upper_case: bool) -> (r: String)
        ensures
            upper_case ==> r@ == latin_upper_of(number as int),
            !upper_case ==> r@ == ascii_lower_seq(latin_upper_of(number as int)),
    {
        if upper_case {
            Self::to_latin_alphabet_number_upper_case(number)
        } else {
            Self::to_latin_alphabet_number_lower_case(number)
        }
    }

    /// The lower-case letter numbering for `number`.
    pub fn to_latin_alphabet_number_lower_case(number: i64) -> (r: String)
        ensures
            r@ == ascii_lower_seq(latin_upper_of(number as int)),
    {
        let upper = Self::to_latin_alphabet_number_upper_case(number);
        ascii_lowercase(upper.as_str())
    }

    /// The upper-case letter numbering for `number`, empty for zero and
    /// below.
    pub fn to_latin_alphabet_number_upper_case(number: i64) -> (r: String)
        ensures
            r@ == latin_upper_of(number as int),
    {
        let mut s = String::new();
        if number <= 0 {
            proof {
                assert(s@ =~= latin_upper_of(number as int));
            }
            return s;
        }
        push_latin_digits(&mut s, number as u64);
        s
    }

    /// The label text for one page number: the style's numbering, with
    /// the prefix, if any, in front.
    pub fn format_page_number(style: &PageLabelNumberingStyle, number: i64, prefix: Option<&str>) -> (r:
        String)
        ensures
            r@ == match prefix {
                Some(p) => p@ + page_label_text(*style, number as int),
                None => page_label_text(*style, number as int),
            },
    {
        let label = match style {
            PageLabelNumberingStyle::NoNumbering => String::new(),
            PageLabelNumberingStyle::DecimalArabicNumerals => decimal_string(number),
            PageLabelNumberingStyle::UppercaseRomanNumerals => Self::to_roman_upper_case(number),
            PageLabelNumberingStyle::LowercaseRomanNumerals => Self::to_roman_lower_case(number),
            PageLabelNumberingStyle::UppercaseLetters => Self::to_latin_alphabet_number_upper_case(
                number,
            ),
            PageLabelNumberingStyle::LowercaseLetters => Self::to_latin_alphabet_number_lower_case(
                number,
            ),
        };
        match prefix {
            Some(p) => {
                let mut out = String::from_str(p);
                out.append(label.as_str());
                out
            },
            None => label,
        }
    }
}

/// The numbering a style gives to one page number.
pub open spec fn page_label_text(style: PageLabelNumberingStyle, n: int) -> Seq<char> {
    match style {
        PageLabelNumberingStyle::NoNumbering => Seq::empty(),
        PageLabelNumberingStyle::DecimalArabicNumerals => decimal_of(n),
        PageLabelNumberingStyle::UppercaseRomanNumerals => roman_upper_of(n),
        PageLabelNumberingStyle::LowercaseRomanNumerals => ascii_lower_seq(roman_upper_of(n)),
        PageLabelNumberingStyle::UppercaseLetters => latin_upper_of(n),
        PageLabelNumberingStyle::LowercaseLetters => ascii_lower_seq(latin_upper_of(n)),
    }
}

} // verus!
