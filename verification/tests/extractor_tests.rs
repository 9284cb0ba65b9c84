use pdf_analysis::models::AnalyzableChar;
use pdf_analysis::toc_extractor::PageContentProvider;
use pdf_analysis::toc_extractor::TocExtractor;

const PT: i64 = 10000;

fn entry(text: &str, y: i64) -> AnalyzableChar {
    AnalyzableChar {
        text: text.to_string(),
        x: 0,
        y,
        width: 20 * PT,
        height: 12 * PT,
        left: 0,
        right: 20 * PT,
        top: y + 12 * PT,
        bottom: y,
        font_name: "Serif".to_string(),
        font_size: 12 * PT,
        skew: 0,
    }
}

fn toc_page() -> Vec<AnalyzableChar> {
    // Three widely separated lines, so no two merge into one block.
    vec![
        entry("Alpha ..................... 1", 700 * PT),
        entry("Beta ..................... 2", 400 * PT),
        entry("Gamma ..................... 3", 100 * PT),
    ]
}

#[test]
fn end_to_end_detects_toc_lines() {
    let pages = vec![toc_page()];
    let lines = TocExtractor::extract_toc_from_pages(&pages);
    assert_eq!(
        lines,
        vec![
            "Alpha ..................... 1",
            "Beta ..................... 2",
            "Gamma ..................... 3",
        ]
    );
}

#[test]
fn running_twice_gives_identical_output() {
    let pages = vec![toc_page(), toc_page()];
    let first = TocExtractor::extract_toc_from_pages(&pages);
    let second = TocExtractor::extract_toc_from_pages(&pages);
    assert_eq!(first, second);
    assert_eq!(first.len(), 6);
}

#[test]
fn resorting_sorted_input_changes_nothing() {
    // The page is already in reading order; a shuffled copy of the same
    // characters yields the same output, and feeding the sorted page
    // again is a no-op.
    let sorted = toc_page();
    let shuffled = vec![
        sorted[2].clone(),
        sorted[0].clone(),
        sorted[1].clone(),
    ];
    let a = TocExtractor::extract_toc_from_pages(&vec![sorted.clone()]);
    let b = TocExtractor::extract_toc_from_pages(&vec![shuffled]);
    let c = TocExtractor::extract_toc_from_pages(&vec![sorted]);
    assert_eq!(a, b);
    assert_eq!(a, c);
}

#[test]
fn two_candidates_are_gated_away() {
    let pages = vec![vec![
        entry("Alpha ..................... 1", 700 * PT),
        entry("Beta ..................... 2", 400 * PT),
    ]];
    let lines = TocExtractor::extract_toc_from_pages(&pages);
    assert!(lines.is_empty());
}

#[test]
fn empty_document_gives_empty_output() {
    let pages: Vec<Vec<AnalyzableChar>> = Vec::new();
    assert!(TocExtractor::extract_toc_from_pages(&pages).is_empty());
    let one_empty = vec![Vec::new()];
    assert!(TocExtractor::extract_toc_from_pages(&one_empty).is_empty());
}

struct FakeProvider {
    pages: Vec<Option<Vec<AnalyzableChar>>>,
}

impl PageContentProvider for FakeProvider {
    fn page_count(&self) -> usize {
        self.pages.len()
    }

    fn get_characters(&self, page_index: usize) -> Option<Vec<AnalyzableChar>> {
        self.pages[page_index].clone()
    }
}

#[test]
fn provider_driven_extraction() {
    let provider = FakeProvider { pages: vec![Some(toc_page())] };
    let lines = TocExtractor::extract_toc(&provider);
    assert_eq!(lines.len(), 3);
    assert_eq!(lines[0], "Alpha ..................... 1");
}

#[test]
fn failing_page_counts_as_empty() {
    let provider = FakeProvider { pages: vec![None, Some(toc_page())] };
    let lines = TocExtractor::extract_toc(&provider);
    assert_eq!(lines.len(), 3);
}

#[test]
fn out_of_bounds_page_counts_as_empty() {
    let mut bad = toc_page();
    bad[0].x = 20_000_000_000_000;
    let provider = FakeProvider { pages: vec![Some(bad)] };
    let lines = TocExtractor::extract_toc(&provider);
    assert!(lines.is_empty());
}
