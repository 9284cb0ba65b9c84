use pdf_analysis::page_label::PageLabel;
use pdf_analysis::page_label::PageLabelNumberingStyle;
use pdf_analysis::page_label::PageLabelProcessor;

fn rule(
    page_num: i32,
    style: PageLabelNumberingStyle,
    prefix: Option<&str>,
    first: Option<i32>,
) -> PageLabel {
    PageLabel {
        page_num,
        numbering_style: style,
        label_prefix: prefix.map(|p| p.to_string()),
        first_page: first,
    }
}

#[test]
fn no_rules_gives_decimal_defaults() {
    let labels = PageLabelProcessor::simulate_page_labels(Vec::new(), 3);
    assert_eq!(labels, vec!["1", "2", "3"]);
}

#[test]
fn zero_pages_gives_no_labels() {
    let labels = PageLabelProcessor::simulate_page_labels(Vec::new(), 0);
    assert!(labels.is_empty());
}

#[test]
fn roman_front_matter_then_decimal() {
    let rules = vec![
        rule(1, PageLabelNumberingStyle::LowercaseRomanNumerals, None, None),
        rule(4, PageLabelNumberingStyle::DecimalArabicNumerals, None, Some(1)),
    ];
    let labels = PageLabelProcessor::simulate_page_labels(rules, 5);
    assert_eq!(labels, vec!["i", "ii", "iii", "1", "2"]);
}

#[test]
fn prefix_and_start_value() {
    let rules = vec![rule(
        1,
        PageLabelNumberingStyle::DecimalArabicNumerals,
        Some("A-"),
        Some(5),
    )];
    let labels = PageLabelProcessor::simulate_page_labels(rules, 3);
    assert_eq!(labels, vec!["A-5", "A-6", "A-7"]);
}

#[test]
fn later_rule_with_same_start_wins() {
    let rules = vec![
        rule(2, PageLabelNumberingStyle::DecimalArabicNumerals, Some("x"), None),
        rule(2, PageLabelNumberingStyle::DecimalArabicNumerals, Some("y"), None),
    ];
    let labels = PageLabelProcessor::simulate_page_labels(rules, 3);
    assert_eq!(labels, vec!["1", "y1", "y2"]);
}

#[test]
fn pages_before_first_rule_are_decimal() {
    let rules = vec![rule(
        3,
        PageLabelNumberingStyle::UppercaseLetters,
        None,
        None,
    )];
    let labels = PageLabelProcessor::simulate_page_labels(rules, 4);
    assert_eq!(labels, vec!["1", "2", "A", "B"]);
}

#[test]
fn unsorted_rules_are_sorted_first() {
    let rules = vec![
        rule(4, PageLabelNumberingStyle::DecimalArabicNumerals, None, Some(1)),
        rule(1, PageLabelNumberingStyle::LowercaseRomanNumerals, None, None),
    ];
    let labels = PageLabelProcessor::simulate_page_labels(rules, 5);
    assert_eq!(labels, vec!["i", "ii", "iii", "1", "2"]);
}

#[test]
fn no_numbering_style_gives_prefix_only() {
    let rules = vec![rule(
        1,
        PageLabelNumberingStyle::NoNumbering,
        Some("Cover "),
        None,
    )];
    let labels = PageLabelProcessor::simulate_page_labels(rules, 2);
    assert_eq!(labels, vec!["Cover ", "Cover "]);
}
