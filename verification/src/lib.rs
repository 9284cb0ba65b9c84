//! Reconstruction of human-readable text layout from a page of positioned
//! glyphs, and detection of table-of-contents (TOC) entries among the
//! reconstructed text blocks.
//!
//! Raw glyph-position streams carry no notion of words, lines or paragraphs:
//! spacing, font metrics and baseline jitter are inferred from geometry
//! alone.  All geometry is carried in fixed-point coordinates, in units of
//! one ten-thousandth of a typographic point, so that every threshold of the
//! pipeline is an exact integer comparison.
//!
//! The pipeline: per-page metrics (advance-width and space-width inference),
//! baseline clustering into lines, merging of lines into blocks, statistical
//! style analysis, character-pattern classification, and TOC-candidate
//! detection.  Side modules hold the page-number formatting helpers
//! (`numbering`, `page_label`) and the document string decoder
//! (`pdf_strings`).

pub mod chars;
pub mod dest_paths;
pub mod models;
pub mod numbering;
pub mod page_label;
pub mod patterns;
pub mod pdf_strings;
pub mod processor;
pub mod text;
pub mod text_metrics;
pub mod toc_analyser;
pub mod toc_extractor;
