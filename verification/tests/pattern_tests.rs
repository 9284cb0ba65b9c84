use pdf_analysis::models::CharacterPattern;

#[test]
fn classify_lowercase_letter() {
    assert_eq!(CharacterPattern::get_char_type('a'), 3);
    assert_eq!(CharacterPattern::get_char_type('z'), 3);
    assert_eq!(CharacterPattern::get_char_type('é'), 3);
}

#[test]
fn classify_uppercase_letter() {
    assert_eq!(CharacterPattern::get_char_type('A'), 2);
    assert_eq!(CharacterPattern::get_char_type('Z'), 2);
}

#[test]
fn classify_titlecase_letter() {
    // U+01C5 is a titlecase letter, neither upper nor lower case.
    assert_eq!(CharacterPattern::get_char_type('\u{01C5}'), 2);
}

#[test]
fn classify_digit() {
    assert_eq!(CharacterPattern::get_char_type('5'), 1);
    // An Arabic-Indic digit is numeric too.
    assert_eq!(CharacterPattern::get_char_type('\u{0663}'), 1);
}

#[test]
fn classify_whitespace() {
    assert_eq!(CharacterPattern::get_char_type(' '), 10);
    assert_eq!(CharacterPattern::get_char_type('\t'), 10);
    assert_eq!(CharacterPattern::get_char_type('\u{3000}'), 10);
}

#[test]
fn classify_punctuation() {
    assert_eq!(CharacterPattern::get_char_type('.'), 6);
    assert_eq!(CharacterPattern::get_char_type('?'), 6);
    assert_eq!(CharacterPattern::get_char_type('!'), 6);
}

#[test]
fn classify_dashes() {
    assert_eq!(CharacterPattern::get_char_type('-'), 7);
    assert_eq!(CharacterPattern::get_char_type('_'), 7);
    assert_eq!(CharacterPattern::get_char_type('\u{2013}'), 7);
    assert_eq!(CharacterPattern::get_char_type('\u{2014}'), 7);
}

#[test]
fn classify_brackets() {
    assert_eq!(CharacterPattern::get_char_type('('), 8);
    assert_eq!(CharacterPattern::get_char_type(']'), 8);
    assert_eq!(CharacterPattern::get_char_type('}'), 8);
}

#[test]
fn classify_math_symbol() {
    assert_eq!(CharacterPattern::get_char_type('+'), 9);
    assert_eq!(CharacterPattern::get_char_type('='), 9);
    assert_eq!(CharacterPattern::get_char_type('\u{2211}'), 9);
}

#[test]
fn classify_control() {
    assert_eq!(CharacterPattern::get_char_type('\u{1}'), 0);
}

#[test]
fn classify_other_defaults_to_bracket_class() {
    assert_eq!(CharacterPattern::get_char_type('@'), 8);
    assert_eq!(CharacterPattern::get_char_type('#'), 8);
}

#[test]
fn counts_sum_to_total_and_length() {
    let text = "Hello, World 42! (a-b) = \u{2211}";
    let p = CharacterPattern::new(text);
    let sum: usize = p.counts.iter().sum();
    assert_eq!(sum, p.total);
    assert_eq!(p.total, text.chars().count());
}

#[test]
fn counts_exact_for_small_text() {
    let p = CharacterPattern::new("Ab1 .");
    assert_eq!(p.total, 5);
    assert_eq!(p.counts[2], 1);
    assert_eq!(p.counts[3], 1);
    assert_eq!(p.counts[1], 1);
    assert_eq!(p.counts[10], 1);
    assert_eq!(p.counts[6], 1);
}

#[test]
fn pattern_type_empty_is_zero() {
    let p = CharacterPattern::new("");
    assert_eq!(p.get_pattern_type(), 0);
}

#[test]
fn pattern_type_uppercase_dominates() {
    let p = CharacterPattern::new("ABC");
    assert_eq!(p.get_pattern_type(), 2);
}

#[test]
fn pattern_type_lowercase() {
    let p = CharacterPattern::new("abc");
    assert_eq!(p.get_pattern_type(), 3);
}

#[test]
fn pattern_type_digits_score_nothing() {
    // The digit class carries no weight of its own, so a digits-only
    // text falls back to the first class.
    let p = CharacterPattern::new("123");
    assert_eq!(p.get_pattern_type(), 0);
}

#[test]
fn pattern_type_punctuation_beats_penalized_lowercase() {
    // One lowercase letter and one period: the period's class scores 1,
    // the lowercase class scores 1 - 3 = -2.
    let p = CharacterPattern::new("a.");
    assert_eq!(p.get_pattern_type(), 6);
}
