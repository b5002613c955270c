use pseudoscript::convert::{full_range, offset_to_position, position_to_offset, span_to_range, Position};
use pseudoscript::span::{LineIndex, Span};

#[test]
fn ascii_offset_round_trips() {
    let src = "public system Banking;\n";
    let index = LineIndex::new(src);
    let pos = offset_to_position(src, &index, 7);
    assert_eq!(pos, Position::new(0, 7));
    assert_eq!(position_to_offset(src, pos), 7);
}

#[test]
fn second_line_offset() {
    let src = "a\nbc;\n";
    let index = LineIndex::new(src);
    let pos = offset_to_position(src, &index, 4);
    assert_eq!(pos, Position::new(1, 2));
}

#[test]
fn non_ascii_counts_utf16_units() {
    let src = "//é𝄞x\n";
    let index = LineIndex::new(src);
    let pos = offset_to_position(src, &index, 8);
    assert_eq!(pos, Position::new(0, 5));
    assert_eq!(position_to_offset(src, pos), 8);
}

#[test]
fn full_range_spans_whole_doc() {
    let src = "ab\ncd\n";
    let index = LineIndex::new(src);
    let range = full_range(src, &index);
    assert_eq!(range.start, Position::new(0, 0));
    assert_eq!(range.end, Position::new(2, 0));
}

#[test]
fn positions_past_a_line_clamp_to_its_end() {
    let src = "ab\ncd\n";
    assert_eq!(position_to_offset(src, Position::new(0, 99)), 2);
    assert_eq!(position_to_offset(src, Position::new(7, 0)), 6);
    assert_eq!(position_to_offset(src, Position::new(1, 1)), 4);
}

#[test]
fn offsets_past_the_end_clamp_and_spans_convert() {
    let src = "x\ny";
    let index = LineIndex::new(src);
    assert_eq!(offset_to_position(src, &index, 99), Position::new(1, 1));
    let r = span_to_range(src, &index, Span::new(0, 3));
    assert_eq!((r.start, r.end), (Position::new(0, 0), Position::new(1, 1)));
}

#[test]
fn every_boundary_round_trips() {
    let src = "a é\n𝄞b\n\nz";
    let index = LineIndex::new(src);
    for (i, _) in src.char_indices().chain(std::iter::once((src.len(), ' '))) {
        let p = offset_to_position(src, &index, i as u32);
        assert_eq!(position_to_offset(src, p) as usize, i);
    }
}
