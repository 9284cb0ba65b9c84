use pdf_analysis::numbering::decimal_string;
use pdf_analysis::numbering::Numbering;
use pdf_analysis::page_label::PageLabelNumberingStyle;

#[test]
fn roman_upper_basics() {
    assert_eq!(Numbering::to_roman_upper_case(1), "I");
    assert_eq!(Numbering::to_roman_upper_case(4), "IV");
    assert_eq!(Numbering::to_roman_upper_case(9), "IX");
    assert_eq!(Numbering::to_roman_upper_case(14), "XIV");
    assert_eq!(Numbering::to_roman_upper_case(40), "XL");
    assert_eq!(Numbering::to_roman_upper_case(90), "XC");
    assert_eq!(Numbering::to_roman_upper_case(400), "CD");
    assert_eq!(Numbering::to_roman_upper_case(1990), "MCMXC");
    assert_eq!(Numbering::to_roman_upper_case(2024), "MMXXIV");
    assert_eq!(Numbering::to_roman_upper_case(3999), "MMMCMXCIX");
}

#[test]
fn roman_out_of_range_is_empty() {
    assert_eq!(Numbering::to_roman_upper_case(0), "");
    assert_eq!(Numbering::to_roman_upper_case(4000), "");
    assert_eq!(Numbering::to_roman_upper_case(-5), "");
}

#[test]
fn roman_lower() {
    assert_eq!(Numbering::to_roman_lower_case(14), "xiv");
    assert_eq!(Numbering::to_roman_lower_case(3999), "mmmcmxcix");
}

#[test]
fn roman_dispatch() {
    assert_eq!(Numbering::to_roman(14, true), "XIV");
    assert_eq!(Numbering::to_roman(14, false), "xiv");
}

#[test]
fn latin_upper_basics() {
    assert_eq!(Numbering::to_latin_alphabet_number_upper_case(1), "A");
    assert_eq!(Numbering::to_latin_alphabet_number_upper_case(26), "Z");
    assert_eq!(Numbering::to_latin_alphabet_number_upper_case(27), "AA");
    assert_eq!(Numbering::to_latin_alphabet_number_upper_case(28), "AB");
    assert_eq!(Numbering::to_latin_alphabet_number_upper_case(52), "AZ");
    assert_eq!(Numbering::to_latin_alphabet_number_upper_case(53), "BA");
    assert_eq!(Numbering::to_latin_alphabet_number_upper_case(702), "ZZ");
    assert_eq!(Numbering::to_latin_alphabet_number_upper_case(703), "AAA");
    assert_eq!(Numbering::to_latin_alphabet_number_upper_case(0), "");
}

#[test]
fn latin_lower_and_dispatch() {
    assert_eq!(Numbering::to_latin_alphabet_number_lower_case(28), "ab");
    assert_eq!(Numbering::to_latin_alphabet_number(27, true), "AA");
    assert_eq!(Numbering::to_latin_alphabet_number(27, false), "aa");
}

#[test]
fn decimal_basics() {
    assert_eq!(decimal_string(0), "0");
    assert_eq!(decimal_string(7), "7");
    assert_eq!(decimal_string(42), "42");
    assert_eq!(decimal_string(-123), "-123");
}

#[test]
fn format_page_number_styles() {
    assert_eq!(
        Numbering::format_page_number(&PageLabelNumberingStyle::DecimalArabicNumerals, 42, None),
        "42"
    );
    assert_eq!(
        Numbering::format_page_number(
            &PageLabelNumberingStyle::DecimalArabicNumerals,
            42,
            Some("p-")
        ),
        "p-42"
    );
    assert_eq!(
        Numbering::format_page_number(&PageLabelNumberingStyle::UppercaseRomanNumerals, 9, None),
        "IX"
    );
    assert_eq!(
        Numbering::format_page_number(&PageLabelNumberingStyle::LowercaseRomanNumerals, 9, None),
        "ix"
    );
    assert_eq!(
        Numbering::format_page_number(&PageLabelNumberingStyle::UppercaseLetters, 27, None),
        "AA"
    );
    assert_eq!(
        Numbering::format_page_number(&PageLabelNumberingStyle::LowercaseLetters, 2, None),
        "b"
    );
    assert_eq!(
        Numbering::format_page_number(&PageLabelNumberingStyle::NoNumbering, 42, Some("X")),
        "X"
    );
}
