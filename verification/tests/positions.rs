use dolfin_lsp_core::diagnostics::{
    fallback_range, location_to_position, offset_of, position_to_location, span_contains,
    span_to_range,
};
use dolfin_lsp_core::rename::byte_to_position;
use dolfin_lsp_core::types::{Location, Position, Range, SourceSpan};
use ropey::Rope;

fn at(line: u32, character: u32) -> Position {
    Position { line, character }
}

fn loc(line: usize, column: usize, offset: usize) -> Location {
    Location { line, column, offset }
}

#[test]
fn offset_in_ascii_text() {
    let rope = Rope::from_str("concept A:\n  has b: C\n");
    assert_eq!(offset_of(&rope, at(0, 0)), 0);
    assert_eq!(offset_of(&rope, at(0, 8)), 8);
    assert_eq!(offset_of(&rope, at(1, 0)), 11);
    assert_eq!(offset_of(&rope, at(1, 6)), 17);
    assert_eq!(offset_of(&rope, at(2, 0)), 22);
}

#[test]
fn offset_counts_bytes_of_characters() {
    let rope = Rope::from_str("é→x\nü");
    assert_eq!(offset_of(&rope, at(0, 1)), 2);
    assert_eq!(offset_of(&rope, at(0, 2)), 5);
    assert_eq!(offset_of(&rope, at(0, 3)), 6);
    assert_eq!(offset_of(&rope, at(1, 0)), 7);
    assert_eq!(offset_of(&rope, at(1, 1)), 9);
}

#[test]
fn offset_beyond_the_text_is_its_end() {
    let rope = Rope::from_str("ab\ncd");
    assert_eq!(offset_of(&rope, at(2, 0)), 5);
    assert_eq!(offset_of(&rope, at(1, 99)), 5);
    assert_eq!(offset_of(&rope, at(u32::MAX, u32::MAX)), 5);
    let empty = Rope::from_str("");
    assert_eq!(offset_of(&empty, at(0, 0)), 0);
    assert_eq!(offset_of(&empty, at(0, 5)), 0);
}

#[test]
fn offset_past_a_line_runs_into_the_next() {
    let rope = Rope::from_str("ab\ncdef");
    assert_eq!(offset_of(&rope, at(0, 5)), 5);
}

#[test]
fn line_breaks_of_all_kinds() {
    let rope = Rope::from_str("a\r\nb\rc\u{85}d\u{2028}e");
    assert_eq!(offset_of(&rope, at(1, 0)), 3);
    assert_eq!(offset_of(&rope, at(2, 0)), 5);
    assert_eq!(offset_of(&rope, at(3, 0)), 8);
    assert_eq!(offset_of(&rope, at(4, 0)), 12);
    assert_eq!(offset_of(&rope, at(5, 0)), 13);
}

#[test]
fn position_of_a_byte() {
    let rope = Rope::from_str("é→x\nü");
    assert_eq!(byte_to_position(&rope, 0), at(0, 0));
    assert_eq!(byte_to_position(&rope, 1), at(0, 0));
    assert_eq!(byte_to_position(&rope, 2), at(0, 1));
    assert_eq!(byte_to_position(&rope, 5), at(0, 2));
    assert_eq!(byte_to_position(&rope, 7), at(1, 0));
    assert_eq!(byte_to_position(&rope, 9), at(1, 1));
    assert_eq!(byte_to_position(&rope, 1000), at(1, 1));
}

#[test]
fn positions_of_characters_lead_back() {
    let text = "a\r\nbé\rc→\u{2028}\n\nüx";
    let rope = Rope::from_str(text);
    for (b, _) in text.char_indices() {
        assert_eq!(offset_of(&rope, byte_to_position(&rope, b)), b);
    }
    assert_eq!(offset_of(&rope, byte_to_position(&rope, text.len())), text.len());
}

#[test]
fn locations_count_from_one() {
    assert_eq!(location_to_position(loc(1, 1, 0)), at(0, 0));
    assert_eq!(location_to_position(loc(7, 3, 40)), at(6, 2));
    assert_eq!(location_to_position(loc(0, 0, 0)), at(0, 0));
    assert_eq!(position_to_location(at(6, 2)), loc(7, 3, 0));
    assert_eq!(location_to_position(position_to_location(at(9, 4))), at(9, 4));
}

#[test]
fn ranges_of_spans() {
    let span = SourceSpan { start: loc(2, 3, 10), end: loc(4, 1, 30) };
    assert_eq!(span_to_range(span), Range { start: at(1, 2), end: at(3, 0) });
    assert_eq!(fallback_range(Some(span)), Range { start: at(1, 2), end: at(3, 0) });
    assert_eq!(fallback_range(None), Range { start: at(0, 0), end: at(0, 0) });
}

#[test]
fn spans_hold_both_ends() {
    let span = SourceSpan { start: loc(1, 4, 3), end: loc(1, 9, 8) };
    assert!(!span_contains(Some(span), 2));
    assert!(span_contains(Some(span), 3));
    assert!(span_contains(Some(span), 8));
    assert!(!span_contains(Some(span), 9));
    assert!(!span_contains(None, 3));
}
