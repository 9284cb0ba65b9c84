use pdf_analysis::patterns::has_dot_leader;
use pdf_analysis::patterns::has_numbering_prefix;
use pdf_analysis::patterns::has_numeric_end;
use pdf_analysis::patterns::has_sentence_punct_end;

fn cv(s: &str) -> Vec<char> {
    s.chars().collect()
}

#[test]
fn dot_leader_classic() {
    assert!(has_dot_leader(&cv("Chapter 1 Introduction ..................... 12")));
}

#[test]
fn dot_leader_spaced_dots() {
    assert!(has_dot_leader(&cv("Intro . . . . 5")));
}

#[test]
fn dot_leader_wide_spaces_only() {
    assert!(has_dot_leader(&cv("Intro         42")));
    assert!(!has_dot_leader(&cv("Intro    42")));
}

#[test]
fn dot_leader_too_few_units() {
    assert!(!has_dot_leader(&cv("A.. 12")));
    assert!(!has_dot_leader(&cv("A... 12")));
    assert!(has_dot_leader(&cv("A.... 12")));
}

#[test]
fn dot_leader_needs_final_number() {
    assert!(!has_dot_leader(&cv("no digits ....")));
    assert!(has_dot_leader(&cv("a.....12")));
    assert!(has_dot_leader(&cv("a.... 12  ")));
}

#[test]
fn dot_leader_mixed_units() {
    // Four units: two periods-with-space and two bare periods.
    assert!(has_dot_leader(&cv("a .. .. 12")));
    // Only two period-with-space units.
    assert!(!has_dot_leader(&cv("a. . 12")));
    // The leader may directly follow digits in the title.
    assert!(has_dot_leader(&cv("1234567....89")));
}

#[test]
fn numeric_end_accepts_page_reference() {
    assert!(has_numeric_end(&cv("See page 12")));
    assert!(has_numeric_end(&cv("x 12")));
    assert!(has_numeric_end(&cv("x  12")));
    assert!(has_numeric_end(&cv("page 12 ")));
}

#[test]
fn numeric_end_rejects_bare_or_double_numbers() {
    assert!(!has_numeric_end(&cv("12")));
    assert!(!has_numeric_end(&cv(" 12")));
    assert!(!has_numeric_end(&cv("12 34")));
    assert!(has_numeric_end(&cv("12  34")));
}

#[test]
fn numbering_prefix_digits_and_dots() {
    assert!(has_numbering_prefix(&cv("1. Introduction")));
    assert!(has_numbering_prefix(&cv("  2 things")));
    assert!(has_numbering_prefix(&cv(". dotted")));
    assert!(has_numbering_prefix(&cv("1.2.3 deep")));
}

#[test]
fn numbering_prefix_letter_dot() {
    assert!(has_numbering_prefix(&cv("A. Thing")));
    assert!(has_numbering_prefix(&cv("b. thing")));
    assert!(!has_numbering_prefix(&cv("AB. Thing")));
}

#[test]
fn numbering_prefix_roman() {
    assert!(has_numbering_prefix(&cv("IV) Caesar")));
    assert!(has_numbering_prefix(&cv("I. First")));
    assert!(has_numbering_prefix(&cv("XIV. Fourteenth")));
    assert!(!has_numbering_prefix(&cv("IVX")));
    assert!(!has_numbering_prefix(&cv("hello")));
}

#[test]
fn sentence_punct_end() {
    assert!(has_sentence_punct_end(&cv("end.")));
    assert!(has_sentence_punct_end(&cv("end:")));
    assert!(has_sentence_punct_end(&cv("end\u{3002}")));
    assert!(has_sentence_punct_end(&cv("end\u{FF1F}")));
    assert!(!has_sentence_punct_end(&cv("end")));
    assert!(!has_sentence_punct_end(&cv("")));
}
