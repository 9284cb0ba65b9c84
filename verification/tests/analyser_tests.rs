use pdf_analysis::models::AnalyzableChar;
use pdf_analysis::models::PdfBlock;
use pdf_analysis::models::PdfLine;
use pdf_analysis::models::PdfRectValue;
use pdf_analysis::models::PdfStyle;
use pdf_analysis::models::TextChunk;
use pdf_analysis::toc_analyser::TocAnalyser;

const PT: i64 = 10000;

fn block(text: &str, font: &str, font_size: i64) -> PdfBlock {
    let rect = PdfRectValue { left: 0, top: 62 * PT, right: PT, bottom: 50 * PT };
    let style = PdfStyle::new(font.to_string(), font_size);
    let mut line = PdfLine::new(rect, 1, style, 0, 50 * PT);
    line.append_char_replica(text, rect, 0, 0);
    PdfBlock::from_line(line)
}

#[test]
fn dominant_style_is_most_frequent() {
    let blocks = vec![
        block("one", "Serif", 12 * PT),
        block("two", "Sans", 10 * PT),
        block("three", "Serif", 12 * PT),
    ];
    let dom = TocAnalyser::find_dominant_style(&blocks);
    assert_eq!(dom.font_name, "Serif");
    assert_eq!(dom.font_size_scaled, 120);
}

#[test]
fn dominant_style_tie_goes_to_first_seen() {
    let blocks = vec![
        block("one", "Sans", 10 * PT),
        block("two", "Serif", 12 * PT),
    ];
    let dom = TocAnalyser::find_dominant_style(&blocks);
    assert_eq!(dom.font_name, "Sans");
    assert_eq!(dom.font_size_scaled, 100);
}

#[test]
fn dominant_style_of_nothing_is_placeholder() {
    let dom = TocAnalyser::find_dominant_style(&Vec::new());
    assert_eq!(dom.font_name, "Default");
    assert_eq!(dom.font_size_scaled, 100);
}

#[test]
fn dot_leader_text_is_toc_like() {
    let dom = PdfStyle::new("Serif".to_string(), 12 * PT);
    let mut b = block(
        "Chapter 1 Introduction ..................... 12",
        "Serif",
        12 * PT,
    );
    assert!(TocAnalyser::is_toc_like_block(&mut b, &dom));
}

#[test]
fn short_bare_text_is_rejected() {
    let dom = PdfStyle::new("Serif".to_string(), 12 * PT);
    let mut b = block("ok", "Serif", 12 * PT);
    assert!(!TocAnalyser::is_toc_like_block(&mut b, &dom));
}

#[test]
fn numeric_ending_without_size_anomaly_is_rejected() {
    let dom = PdfStyle::new("Serif".to_string(), 12 * PT);
    let mut b = block("See page 12", "Serif", 12 * PT);
    assert!(!TocAnalyser::is_toc_like_block(&mut b, &dom));
}

#[test]
fn numeric_ending_with_larger_style_is_accepted() {
    // 12.6pt against a 12pt dominant style: more than half a point larger.
    let dom = PdfStyle::new("Serif".to_string(), 12 * PT);
    let mut b = block("See page 12", "Serif", 126000);
    assert!(TocAnalyser::is_toc_like_block(&mut b, &dom));
}

#[test]
fn numeric_ending_just_half_point_larger_is_rejected() {
    // Exactly half a point larger does not count as strictly larger.
    let dom = PdfStyle::new("Serif".to_string(), 12 * PT);
    let mut b = block("See page 12", "Serif", 125000);
    assert!(!TocAnalyser::is_toc_like_block(&mut b, &dom));
}

#[test]
fn overlong_text_is_rejected() {
    let dom = PdfStyle::new("Serif".to_string(), 12 * PT);
    let body = "x".repeat(142);
    let ok = format!("{}..... 12", body);
    let mut b = block(&ok, "Serif", 12 * PT);
    assert_eq!(ok.chars().count(), 150);
    assert!(TocAnalyser::is_toc_like_block(&mut b, &dom));
    let long_body = "x".repeat(143);
    let too_long = format!("{}..... 12", long_body);
    let mut b2 = block(&too_long, "Serif", 12 * PT);
    assert!(!TocAnalyser::is_toc_like_block(&mut b2, &dom));
}

#[test]
fn page_gate_requires_three_candidates() {
    let dom = PdfStyle::new("Serif".to_string(), 12 * PT);
    let mut two = vec![
        block("Alpha ..................... 1", "Serif", 12 * PT),
        block("Beta ..................... 2", "Serif", 12 * PT),
        block("Just some body text here", "Serif", 12 * PT),
    ];
    let out = TocAnalyser::find_toc_blocks_in_page(&mut two, &dom);
    assert!(out.is_empty());

    let mut three = vec![
        block("Alpha ..................... 1", "Serif", 12 * PT),
        block("Beta ..................... 2", "Serif", 12 * PT),
        block("Gamma ..................... 3", "Serif", 12 * PT),
    ];
    let out = TocAnalyser::find_toc_blocks_in_page(&mut three, &dom);
    assert_eq!(out.len(), 3);
}

#[test]
fn reconstruction_uses_chunk_gaps() {
    let rect = PdfRectValue { left: 0, top: 62 * PT, right: PT, bottom: 50 * PT };
    let style = PdfStyle::new("Serif".to_string(), 12 * PT);
    let mut line = PdfLine::new(rect, 1, style, 0, 50 * PT);
    let chunk = |text: &str, x: i64| TextChunk {
        text: text.to_string(),
        x,
        y: 50 * PT,
        width: PT,
        font_name: "Serif".to_string(),
        font_size: 12 * PT,
        single_space_width: PT,
        skew: 0,
    };
    line.add_chunk(chunk("A", 0));
    // Adjacent: x equals the previous end.
    line.add_chunk(chunk("B", PT));
    // One space: the gap of 2pt is beyond half a space width.
    line.add_chunk(chunk("C", 4 * PT));
    // Five spaces: the gap of 7pt is beyond six space widths.
    line.add_chunk(chunk("D", 12 * PT));
    let b = PdfBlock::from_line(line);
    assert_eq!(b.get_text_reconstructed(), "AB C     D");
}

#[test]
fn reconstruction_joins_lines_with_newline() {
    let rect = PdfRectValue { left: 0, top: 62 * PT, right: PT, bottom: 50 * PT };
    let style = PdfStyle::new("Serif".to_string(), 12 * PT);
    let mut l1 = PdfLine::new(rect, 1, style.clone(), 0, 50 * PT);
    l1.append_char_replica("First", rect, 0, 0);
    let mut l2 = PdfLine::new(rect, 1, style, 0, 30 * PT);
    l2.append_char_replica("Second", rect, 0, 0);
    let mut b = PdfBlock::from_line(l1);
    b.merge_line(l2);
    assert_eq!(b.get_text_reconstructed(), "First\nSecond");
}

#[test]
fn zero_space_width_falls_back_to_quarter_font_size() {
    let rect = PdfRectValue { left: 0, top: 62 * PT, right: PT, bottom: 50 * PT };
    let style = PdfStyle::new("Serif".to_string(), 12 * PT);
    let mut line = PdfLine::new(rect, 1, style, 0, 50 * PT);
    let chunk = |text: &str, x: i64, ssw: i64| TextChunk {
        text: text.to_string(),
        x,
        y: 50 * PT,
        width: PT,
        font_name: "Serif".to_string(),
        font_size: 12 * PT,
        single_space_width: ssw,
        skew: 0,
    };
    // Fallback space width is 3pt; a 2pt gap is beyond half of it.
    line.add_chunk(chunk("A", 0, 0));
    line.add_chunk(chunk("B", 3 * PT, 0));
    let b = PdfBlock::from_line(line);
    assert_eq!(b.get_text_reconstructed(), "A B");
}
