use pdf_analysis::models::AnalyzableChar;
use pdf_analysis::text_metrics::TextMetrics;

const PT: i64 = 10000;

fn ch(text: &str, x: i64, width: i64, y: i64) -> AnalyzableChar {
    AnalyzableChar {
        text: text.to_string(),
        x,
        y,
        width,
        height: 12 * PT,
        left: x,
        right: x + width,
        top: y + 12 * PT,
        bottom: y,
        font_name: "Serif".to_string(),
        font_size: 12 * PT,
        skew: 0,
    }
}

#[test]
fn advance_width_inferred_from_consistent_spacing() {
    // Characters 10pt apart on one baseline, 12pt font: the inferred
    // advance is the 10pt delta, not the 5pt glyph width.
    let chars = vec![
        ch("1", 0, 5 * PT, 50 * PT),
        ch("2", 10 * PT, 5 * PT, 50 * PT),
        ch("3", 20 * PT, 5 * PT, 50 * PT),
    ];
    let (space, widths) = TextMetrics::compute_page_metrics(&chars);
    assert_eq!(widths, vec![10 * PT, 10 * PT, 5 * PT]);
    // No space character: the space width is the mean advance width.
    assert_eq!(space, (10 * PT + 10 * PT + 5 * PT) / 3);
}

#[test]
fn delta_beyond_1_5_font_sizes_keeps_glyph_width() {
    // An 18pt delta equals 1.5 font sizes and is not taken.
    let chars = vec![
        ch("a", 0, 5 * PT, 50 * PT),
        ch("b", 18 * PT, 5 * PT, 50 * PT),
    ];
    let (_, widths) = TextMetrics::compute_page_metrics(&chars);
    assert_eq!(widths[0], 5 * PT);
}

#[test]
fn negative_delta_keeps_glyph_width() {
    let chars = vec![
        ch("a", 10 * PT, 5 * PT, 50 * PT),
        ch("b", 10 * PT, 5 * PT, 50 * PT),
    ];
    let (_, widths) = TextMetrics::compute_page_metrics(&chars);
    assert_eq!(widths[0], 5 * PT);
}

#[test]
fn different_baselines_keep_glyph_width() {
    let chars = vec![
        ch("a", 0, 5 * PT, 50 * PT),
        ch("b", 10 * PT, 5 * PT, 30 * PT),
    ];
    let (_, widths) = TextMetrics::compute_page_metrics(&chars);
    assert_eq!(widths[0], 5 * PT);
}

#[test]
fn observed_space_character_sets_space_width() {
    let chars = vec![
        ch("a", 0, 5 * PT, 50 * PT),
        ch(" ", 5 * PT, 3 * PT, 50 * PT),
        ch("b", 8 * PT, 5 * PT, 50 * PT),
    ];
    let (space, _) = TextMetrics::compute_page_metrics(&chars);
    assert_eq!(space, 3 * PT);
}

#[test]
fn last_observed_space_wins() {
    let chars = vec![
        ch(" ", 0, 3 * PT, 50 * PT),
        ch(" ", 5 * PT, 4 * PT, 50 * PT),
    ];
    let (space, _) = TextMetrics::compute_page_metrics(&chars);
    assert_eq!(space, 4 * PT);
}

#[test]
fn empty_page_gives_zero() {
    let chars: Vec<AnalyzableChar> = Vec::new();
    let (space, widths) = TextMetrics::compute_page_metrics(&chars);
    assert_eq!(space, 0);
    assert!(widths.is_empty());
}
