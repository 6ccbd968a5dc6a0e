use silent_cartographer::graph::range::{position_to_byte, range_to_span, ByteSpan, LineIndex};
use silent_cartographer::model::{PositionEncoding, SourceRange};

#[test]
fn utf8_ascii_maps_char_to_byte() {
    let source = "let x = 1;\nlet y = 2;\n";
    let index = LineIndex::new(source);
    let span = range_to_span(source, &index, SourceRange::new(1, 4, 1, 5), PositionEncoding::Utf8).unwrap();
    assert_eq!(&source[span.start..span.end], "y");
}

#[test]
fn utf16_encoding_accounts_for_wide_chars() {
    let source = "let \u{1F600}x = 1;\n";
    let index = LineIndex::new(source);
    let span16 = range_to_span(source, &index, SourceRange::new(0, 6, 0, 7), PositionEncoding::Utf16).unwrap();
    assert_eq!(&source[span16.start..span16.end], "x");
    let span8 = range_to_span(source, &index, SourceRange::new(0, 8, 0, 9), PositionEncoding::Utf8).unwrap();
    assert_eq!(&source[span8.start..span8.end], "x");
}

#[test]
fn out_of_range_line_is_none() {
    let source = "one line\n";
    let index = LineIndex::new(source);
    assert!(range_to_span(source, &index, SourceRange::new(9, 0, 9, 1), PositionEncoding::Utf8).is_none());
}

#[test]
fn utf32_counts_code_points() {
    let source = "é = \u{1F600}y\n";
    let index = LineIndex::new(source);
    let span = range_to_span(source, &index, SourceRange::new(0, 5, 0, 6), PositionEncoding::Utf32).unwrap();
    assert_eq!(&source[span.start..span.end], "y");
}

#[test]
fn a_character_offset_past_the_line_clamps_to_its_content_end() {
    let source = "ab\ncd";
    let index = LineIndex::new(source);
    assert_eq!(position_to_byte(source, &index, 0, 99, PositionEncoding::Utf8), Some(2));
    assert_eq!(position_to_byte(source, &index, 1, 99, PositionEncoding::Utf8), Some(5));
    assert_eq!(position_to_byte(source, &index, 1, 0, PositionEncoding::Utf8), Some(3));
    assert_eq!(position_to_byte(source, &index, 2, 0, PositionEncoding::Utf8), None);
}

#[test]
fn an_offset_inside_a_wide_character_advances_past_it() {
    let source = "\u{1F600}z";
    let index = LineIndex::new(source);
    assert_eq!(position_to_byte(source, &index, 0, 1, PositionEncoding::Utf16), Some(4));
    assert_eq!(position_to_byte(source, &index, 0, 2, PositionEncoding::Utf8), Some(4));
}

#[test]
fn a_reversed_range_is_none() {
    let source = "abcdef";
    let index = LineIndex::new(source);
    assert!(range_to_span(source, &index, SourceRange::new(0, 4, 0, 2), PositionEncoding::Utf8).is_none());
}

#[test]
fn span_containment() {
    let outer = ByteSpan { start: 2, end: 10 };
    assert!(outer.contains(&ByteSpan { start: 2, end: 10 }));
    assert!(outer.contains(&ByteSpan { start: 3, end: 4 }));
    assert!(!outer.contains(&ByteSpan { start: 1, end: 4 }));
    assert!(!outer.contains(&ByteSpan { start: 3, end: 11 }));
}
