use pdf_analysis::models::AnalyzableChar;
use pdf_analysis::processor::PdfProcessor;

// One coordinate unit is 1/10000 of a point.
const PT: i64 = 10000;

fn ch(text: &str, x: i64, y: i64, left: i64, right: i64, height: i64) -> AnalyzableChar {
    AnalyzableChar {
        text: text.to_string(),
        x,
        y,
        width: right - left,
        height,
        left,
        right,
        top: y + height,
        bottom: y,
        font_name: "Serif".to_string(),
        font_size: 12 * PT,
        skew: 0,
    }
}

#[test]
fn baseline_shift_of_exactly_one_point_keeps_the_line() {
    let chars = vec![
        ch("a", 0, 50 * PT, 0, PT, 12 * PT),
        ch("b", PT, 50 * PT - PT, PT, 2 * PT, 12 * PT),
    ];
    let mut blocks = PdfProcessor::extract_blocks_from_page(&chars, 1);
    assert_eq!(blocks.len(), 1);
    assert_eq!(blocks[0].lines.len(), 1);
    assert_eq!(blocks[0].get_text_plain(), "ab");
}

#[test]
fn baseline_shift_just_over_one_point_breaks_the_line() {
    let chars = vec![
        ch("a", 0, 50 * PT, 0, PT, 12 * PT),
        ch("b", PT, 50 * PT - PT - 1, PT, 2 * PT, 12 * PT),
    ];
    let mut blocks = PdfProcessor::extract_blocks_from_page(&chars, 1);
    // The two lines still merge into one block (small vertical gap).
    assert_eq!(blocks.len(), 1);
    assert_eq!(blocks[0].lines.len(), 2);
    assert_eq!(blocks[0].get_text_plain(), "a b");
}

#[test]
fn merge_boundary_at_exactly_1_8_average_font_size() {
    // Each line holds one character of height 12pt, so the average font
    // size is 12pt and the merge bound is 21.6pt.
    let chars = vec![
        ch("A", 0, 50 * PT, 0, PT, 12 * PT),
        ch("B", 0, 50 * PT - 216000, 0, PT, 12 * PT),
    ];
    let blocks = PdfProcessor::extract_blocks_from_page(&chars, 1);
    assert_eq!(blocks.len(), 1);
    assert_eq!(blocks[0].lines.len(), 2);
}

#[test]
fn merge_rejected_just_over_1_8_average_font_size() {
    let chars = vec![
        ch("A", 0, 50 * PT, 0, PT, 12 * PT),
        ch("B", 0, 50 * PT - 216001, 0, PT, 12 * PT),
    ];
    let blocks = PdfProcessor::extract_blocks_from_page(&chars, 1);
    assert_eq!(blocks.len(), 2);
}

#[test]
fn sentence_punctuation_rejects_merge() {
    let chars = vec![
        ch("Done.", 0, 50 * PT, 0, PT, 12 * PT),
        ch("next", 0, 50 * PT - 2 * PT, 0, PT, 12 * PT),
    ];
    let blocks = PdfProcessor::extract_blocks_from_page(&chars, 1);
    assert_eq!(blocks.len(), 2);
}

#[test]
fn numbering_prefix_rejects_merge() {
    let chars = vec![
        ch("Heading", 0, 50 * PT, 0, PT, 12 * PT),
        ch("2. item", 0, 50 * PT - 2 * PT, 0, PT, 12 * PT),
    ];
    let blocks = PdfProcessor::extract_blocks_from_page(&chars, 1);
    assert_eq!(blocks.len(), 2);
}

#[test]
fn lowercase_continuation_merges_even_after_long_line() {
    let long = "a".repeat(61);
    let chars = vec![
        ch(&long, 0, 50 * PT, 0, PT, 12 * PT),
        ch("continues", 0, 50 * PT - 2 * PT, 0, PT, 12 * PT),
    ];
    let blocks = PdfProcessor::extract_blocks_from_page(&chars, 1);
    assert_eq!(blocks.len(), 1);
}

#[test]
fn long_line_without_lowercase_continuation_does_not_merge() {
    let long = "a".repeat(61);
    let chars = vec![
        ch(&long, 0, 50 * PT, 0, PT, 12 * PT),
        ch("Continues", 0, 50 * PT - 2 * PT, 0, PT, 12 * PT),
    ];
    let blocks = PdfProcessor::extract_blocks_from_page(&chars, 1);
    assert_eq!(blocks.len(), 2);
}

#[test]
fn different_styles_do_not_merge() {
    let mut big = ch("Title", 0, 50 * PT, 0, PT, 12 * PT);
    big.font_size = 18 * PT;
    let chars = vec![big, ch("Body", 0, 50 * PT - 2 * PT, 0, PT, 12 * PT)];
    let blocks = PdfProcessor::extract_blocks_from_page(&chars, 1);
    assert_eq!(blocks.len(), 2);
}

#[test]
fn control_characters_are_sanitized_out() {
    let chars = vec![ch("a\r\nb", 0, 50 * PT, 0, PT, 12 * PT)];
    let mut blocks = PdfProcessor::extract_blocks_from_page(&chars, 1);
    assert_eq!(blocks.len(), 1);
    assert_eq!(blocks[0].get_text_plain(), "ab");
}

#[test]
fn wide_gap_inserts_five_spaces() {
    // No space character appears, so the page space width is the mean
    // advance width.  The neighbour delta of 20pt is beyond 1.5 font
    // sizes, so both advances are the 1pt glyph width and the space
    // width is 1pt; the 19pt gap exceeds five space widths.
    let chars = vec![
        ch("a", 0, 50 * PT, 0, PT, 12 * PT),
        ch("b", 20 * PT, 50 * PT, 20 * PT, 21 * PT, 12 * PT),
    ];
    let mut blocks = PdfProcessor::extract_blocks_from_page(&chars, 1);
    assert_eq!(blocks[0].get_text_plain(), "a     b");
}

#[test]
fn moderate_gap_inserts_one_space() {
    let chars = vec![
        ch("a", 0, 50 * PT, 0, PT, 12 * PT),
        ch("b", 2 * PT, 50 * PT, 2 * PT, 3 * PT, 12 * PT),
    ];
    let mut blocks = PdfProcessor::extract_blocks_from_page(&chars, 1);
    assert_eq!(blocks[0].get_text_plain(), "a b");
}

#[test]
fn blank_lines_are_dropped() {
    let chars = vec![ch(" ", 0, 50 * PT, 0, PT, 12 * PT)];
    let blocks = PdfProcessor::extract_blocks_from_page(&chars, 1);
    assert_eq!(blocks.len(), 0);
}

#[test]
fn unsorted_input_is_sorted_into_reading_order() {
    let sorted = vec![
        ch("a", 0, 50 * PT, 0, PT, 12 * PT),
        ch("b", PT, 50 * PT, PT, 2 * PT, 12 * PT),
        ch("c", 0, 20 * PT, 0, PT, 12 * PT),
    ];
    let shuffled = vec![sorted[2].clone(), sorted[0].clone(), sorted[1].clone()];
    let mut b1 = PdfProcessor::extract_blocks_from_page(&sorted, 1);
    let mut b2 = PdfProcessor::extract_blocks_from_page(&shuffled, 1);
    assert_eq!(b1.len(), b2.len());
    for (x, y) in b1.iter_mut().zip(b2.iter_mut()) {
        assert_eq!(x.get_text_plain(), y.get_text_plain());
    }
}
