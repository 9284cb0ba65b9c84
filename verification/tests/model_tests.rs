use pdf_analysis::dest_paths::candidate_file_name;
use pdf_analysis::models::AnalyzableChar;
use pdf_analysis::models::PdfBlock;
use pdf_analysis::models::PdfLine;
use pdf_analysis::models::PdfRectValue;
use pdf_analysis::models::PdfStyle;
use pdf_analysis::page_label::PageLabelNumberingStyle;
use pdf_analysis::page_label::PageLabelProcessor;

const PT: i64 = 10000;

fn line(text: &str, font: &str, font_size: i64, y: i64, left: i64, skew: i64) -> PdfLine {
    let rect = PdfRectValue { left, top: y + 12 * PT, right: left + 8 * PT, bottom: y };
    let style = PdfStyle::new(font.to_string(), font_size);
    let mut l = PdfLine::new(rect, 1, style, skew, y);
    l.append_char_replica(text, rect, 0, left);
    l
}

#[test]
fn rect_extents_are_absolute() {
    let r = PdfRectValue { left: 3 * PT, top: PT, right: PT, bottom: 5 * PT };
    assert_eq!(r.width(), 2 * PT);
    assert_eq!(r.height(), 4 * PT);
}

#[test]
fn style_scaling_rounds_to_tenths() {
    assert_eq!(PdfStyle::new("F".to_string(), 120000).get_size(), 120);
    assert_eq!(PdfStyle::new("F".to_string(), 120499).get_size(), 120);
    assert_eq!(PdfStyle::new("F".to_string(), 120500).get_size(), 121);
    assert_eq!(PdfStyle::new("F".to_string(), -15500).get_size(), -16);
}

#[test]
fn style_equality_is_exact() {
    let a = PdfStyle::new("F".to_string(), 120000);
    let b = PdfStyle::new("F".to_string(), 120000);
    let c = PdfStyle::new("F".to_string(), 121000);
    let d = PdfStyle::new("G".to_string(), 120000);
    assert!(a.same_style(&b));
    assert!(!a.same_style(&c));
    assert!(!a.same_style(&d));
}

#[test]
fn block_getters_report_first_line() {
    let mut b = PdfBlock::from_line(line("Top", "Serif", 12 * PT, 50 * PT, 3 * PT, 0));
    b.merge_line(line("Bottom", "Serif", 12 * PT, 30 * PT, 3 * PT, 0));
    assert_eq!(b.get_x(), 3 * PT);
    assert_eq!(b.get_y(), 50 * PT);
    assert_eq!(b.get_page_num(), 1);
    assert_eq!(b.get_primary_style().get_size(), 120);
    assert_eq!(b.get_width(), 8 * PT);
    // Height: top baseline down to the last baseline less its 12pt size.
    assert_eq!(b.get_height(), 50 * PT - (30 * PT - 120 * 1000));
}

#[test]
fn block_skew_is_mean_of_lines() {
    let mut b = PdfBlock::from_line(line("A", "Serif", 12 * PT, 50 * PT, 0, 6 * PT));
    b.merge_line(line("B", "Serif", 12 * PT, 30 * PT, 0, 3 * PT));
    assert_eq!(b.get_skew(), 45000);
}

#[test]
fn bold_detection_ignores_ascii_case() {
    let b = PdfBlock::from_line(line("A", "Helvetica-BoldOblique", 12 * PT, 50 * PT, 0, 0));
    assert!(b.is_bold());
    let p = PdfBlock::from_line(line("A", "Helvetica", 12 * PT, 50 * PT, 0, 0));
    assert!(!p.is_bold());
}

#[test]
fn text_plain_is_cached_and_invalidated() {
    let mut b = PdfBlock::from_line(line("One", "Serif", 12 * PT, 50 * PT, 0, 0));
    assert_eq!(b.get_text_plain(), "One");
    assert_eq!(b.get_text_plain(), "One");
    b.merge_line(line("Two", "Serif", 12 * PT, 30 * PT, 0, 0));
    assert_eq!(b.get_text_plain(), "One Two");
}

#[test]
fn char_pattern_of_block_counts_plain_text() {
    let mut b = PdfBlock::from_line(line("Ab1", "Serif", 12 * PT, 50 * PT, 0, 0));
    let p = b.get_char_pattern();
    assert_eq!(p.total, 3);
    assert_eq!(p.counts[2], 1);
    assert_eq!(p.counts[3], 1);
    assert_eq!(p.counts[1], 1);
}

#[test]
fn well_formedness_check_matches_bounds() {
    let mut c = AnalyzableChar {
        text: "a".to_string(),
        x: 0,
        y: 0,
        width: 0,
        height: 0,
        left: 0,
        right: 0,
        top: 0,
        bottom: 0,
        font_name: "F".to_string(),
        font_size: 0,
        skew: 0,
    };
    assert!(c.is_well_formed());
    c.width = -1;
    assert!(!c.is_well_formed());
    c.width = 0;
    c.y = 10_000_000_000_001;
    assert!(!c.is_well_formed());
}

#[test]
fn style_name_round_trip() {
    let styles = [
        PageLabelNumberingStyle::DecimalArabicNumerals,
        PageLabelNumberingStyle::UppercaseRomanNumerals,
        PageLabelNumberingStyle::LowercaseRomanNumerals,
        PageLabelNumberingStyle::UppercaseLetters,
        PageLabelNumberingStyle::LowercaseLetters,
    ];
    for s in styles {
        let name = PageLabelProcessor::map_style_to_name(&s).unwrap();
        assert_eq!(PageLabelProcessor::map_name_to_style(&name), s);
    }
    assert!(PageLabelProcessor::map_style_to_name(&PageLabelNumberingStyle::NoNumbering).is_none());
    assert_eq!(
        PageLabelProcessor::map_name_to_style("Z"),
        PageLabelNumberingStyle::NoNumbering
    );
}

#[test]
fn candidate_names_follow_the_counter() {
    assert_eq!(candidate_file_name("doc", "pdf", 0), "doc_new.pdf");
    assert_eq!(candidate_file_name("doc", "pdf", 1), "doc_new_1.pdf");
    assert_eq!(candidate_file_name("doc", "pdf", 12), "doc_new_12.pdf");
}
