use pdf_analysis::pdf_strings::decode_pdf_string;

#[test]
fn ascii_passes_through() {
    assert_eq!(decode_pdf_string(b"Hello"), "Hello");
    assert_eq!(decode_pdf_string(b""), "");
}

#[test]
fn utf16_bmp_characters() {
    let bytes = [0xFEu8, 0xFF, 0x00, 0x48, 0x00, 0x69];
    assert_eq!(decode_pdf_string(&bytes), "Hi");
}

#[test]
fn utf16_non_ascii() {
    // U+00E9, U+4E2D
    let bytes = [0xFEu8, 0xFF, 0x00, 0xE9, 0x4E, 0x2D];
    assert_eq!(decode_pdf_string(&bytes), "\u{E9}\u{4E2D}");
}

#[test]
fn utf16_surrogate_pair() {
    // D83D DE00 is U+1F600.
    let bytes = [0xFEu8, 0xFF, 0xD8, 0x3D, 0xDE, 0x00];
    assert_eq!(decode_pdf_string(&bytes), "\u{1F600}");
}

#[test]
fn utf16_unpaired_surrogate_replaced() {
    let bytes = [0xFEu8, 0xFF, 0xD8, 0x00, 0x00, 0x41];
    assert_eq!(decode_pdf_string(&bytes), "\u{FFFD}A");
    let lone_low = [0xFEu8, 0xFF, 0xDC, 0x00];
    assert_eq!(decode_pdf_string(&lone_low), "\u{FFFD}");
}

#[test]
fn utf16_trailing_odd_byte_dropped() {
    let bytes = [0xFEu8, 0xFF, 0x00, 0x41, 0x7A];
    assert_eq!(decode_pdf_string(&bytes), "A");
}

#[test]
fn utf16_empty_payload() {
    let bytes = [0xFEu8, 0xFF];
    assert_eq!(decode_pdf_string(&bytes), "");
}

#[test]
fn lone_bom_byte_falls_back_to_utf8() {
    let bytes = [0xFEu8];
    assert_eq!(decode_pdf_string(&bytes), "\u{FFFD}");
}

#[test]
fn invalid_utf8_is_replaced() {
    let bytes = [0x41u8, 0xFF, 0x42];
    assert_eq!(decode_pdf_string(&bytes), "A\u{FFFD}B");
}
