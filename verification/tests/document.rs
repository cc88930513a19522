use noti_lsp::ast::Span;
use noti_lsp::document::{normalize_line_endings, Document};
use noti_lsp::protocol::{Position, Range};

fn pos(line: u32, character: u32) -> Position {
    Position { line, character }
}

#[test]
fn lines_start_after_each_newline() {
    let doc = Document::new("ab\ncd\n\nx".to_string());
    assert_eq!(doc.lines, vec![0, 3, 6, 7]);
}

#[test]
fn crlf_is_normalized() {
    let doc = Document::new("a\r\nb".to_string());
    assert_eq!(doc.source, "a\nb");
    assert_eq!(doc.lines, vec![0, 2]);
}

#[test]
fn lone_carriage_return_is_kept() {
    assert_eq!(normalize_line_endings("a\rb\r\r\nc"), "a\rb\r\nc");
}

#[test]
fn plain_text_is_not_changed_by_normalizing() {
    let text = "FlexContainer()\n  // note\n";
    assert_eq!(normalize_line_endings(text), text);
}

#[test]
fn offset_to_position_finds_line_and_column() {
    let doc = Document::new("ab\ncd".to_string());
    assert_eq!(doc.offset_to_position(0), pos(0, 0));
    assert_eq!(doc.offset_to_position(2), pos(0, 2));
    assert_eq!(doc.offset_to_position(3), pos(1, 0));
    assert_eq!(doc.offset_to_position(4), pos(1, 1));
}

#[test]
fn position_to_offset_clamps_the_line() {
    let doc = Document::new("ab\ncd".to_string());
    assert_eq!(doc.position_to_offset(pos(1, 1)), 4);
    assert_eq!(doc.position_to_offset(pos(7, 0)), 3);
    assert_eq!(doc.position_to_offset(pos(0, 9)), 9);
}

#[test]
fn offset_position_round_trip() {
    let doc = Document::new("alias A = Text()\nA(\n  kind = body\n)".to_string());
    for offset in 0..doc.source.len() + 3 {
        let p = doc.offset_to_position(offset);
        assert_eq!(doc.position_to_offset(p), offset);
    }
}

#[test]
fn position_offset_round_trip() {
    let doc = Document::new("ab\ncde\n".to_string());
    for (line, len) in [(0u32, 2u32), (1, 3)] {
        for character in 0..=len {
            let p = pos(line, character);
            assert_eq!(doc.offset_to_position(doc.position_to_offset(p)), p);
        }
    }
}

#[test]
fn span_to_range_converts_both_ends() {
    let doc = Document::new("ab\ncd".to_string());
    let span = Span { start: 1, end: 4 };
    assert_eq!(span.to_range(&doc), Range { start: pos(0, 1), end: pos(1, 1) });
}

#[test]
fn span_contains_is_half_open() {
    let span = Span { start: 2, end: 5 };
    assert!(!span.contains(1));
    assert!(span.contains(2));
    assert!(span.contains(4));
    assert!(!span.contains(5));
}

#[test]
fn document_that_parses_has_no_errors() {
    let doc = Document::new("FlexContainer()".to_string());
    assert!(doc.layout.is_some());
    assert!(doc.errors.is_empty());
}

#[test]
fn document_that_fails_has_exactly_one_error() {
    let doc = Document::new("FlexContainer(".to_string());
    assert!(doc.layout.is_none());
    assert_eq!(doc.errors.len(), 1);
    assert_eq!(doc.errors[0].message, "expected an identifier");
    assert_eq!(doc.errors[0].offset, 14);
}

#[test]
fn reads_crlf_text_with_trailing_newline() {
    let doc = Document::new("a\r\nb\n".to_string());
    assert_eq!(doc.source, "a\nb\n");
    assert_eq!(doc.lines, vec![0, 2, 4]);
}

#[test]
fn position_fits_unless_the_offset_overflows() {
    let doc = Document::new("ab\ncd".to_string());
    assert!(doc.position_fits(pos(1, 7)));
    assert!(doc.position_fits(pos(9, u32::MAX)));
    assert!(doc.position_fits(pos(0, u32::MAX)));
}
