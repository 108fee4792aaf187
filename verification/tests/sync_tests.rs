use ief_lsp::sync::{delete_range, edit_delta, insert_text, TextSync};
use ief_lsp::types::{Position, Range, TextEdit};

fn pos(line: u32, character: u32) -> Position {
    Position { line, character }
}

fn edit(sl: u32, sc: u32, el: u32, ec: u32, new_text: &str) -> TextEdit {
    TextEdit {
        range: Range { start: pos(sl, sc), end: pos(el, ec) },
        new_text: new_text.as_bytes().to_vec(),
    }
}

#[test]
fn test_tests() {
    assert_eq!(2 + 2, 4);
}

#[test]
fn test_lines() {
    let obj = TextSync::new("\n\n\n".as_bytes().to_vec());
    assert_eq!(obj.lines(), 3)
}

#[test]
fn test_characters() {
    let obj = TextSync::new("\n\n\n".as_bytes().to_vec());
    assert_eq!(obj.characters(1), 0)
}

#[test]
fn test_byte_pos() {
    let obj = TextSync::new("\n\n\n".as_bytes().to_vec());
    assert_eq!(obj.byte_pos(1, 0), Some(1));
    assert_eq!(obj.byte_pos(1, 1), Some(2));
}

#[test]
fn test_byte_pos_with_text() {
    let obj = TextSync::new("abc\n\n\n".as_bytes().to_vec());
    assert_eq!(obj.byte_pos(0, 2), Some(2));
    assert_eq!(obj.byte_pos(1, 0), Some(4));
}

#[test]
fn test_delete_text() {
    let mut obj = TextSync::new("abc\nabc\n\n".as_bytes().to_vec());
    let s = edit(1, 0, 1, 2, "");
    assert!(obj.edit(&s));
    assert_eq!(obj.text().as_slice(), "abc\nc\n\n".as_bytes());
}

#[test]
fn test_insert_text() {
    let mut obj = TextSync::new("abc\nc\n\n".as_bytes().to_vec());
    let s = edit(1, 0, 1, 0, "ab");
    assert!(obj.edit(&s));
    assert_eq!(obj.text().as_slice(), "abc\nabc\n\n".as_bytes());
}

#[test]
fn test_byte_pos_line_out_of_range() {
    let obj = TextSync::new("abc".as_bytes().to_vec());
    assert_eq!(obj.byte_pos(0, 1), Some(1));
    assert_eq!(obj.byte_pos(2, 0), None);
    assert_eq!(obj.byte_pos(0, 4), None);
}

#[test]
fn test_delete_and_insert_helpers() {
    let txt = "abcdef".as_bytes().to_vec();
    let deleted = delete_range(&txt, 1, 3);
    assert_eq!(deleted.as_slice(), "adef".as_bytes());
    let inserted = insert_text(&txt, &"XY".as_bytes().to_vec(), 2);
    assert_eq!(inserted.as_slice(), "abXYcdef".as_bytes());
}

#[test]
fn test_noop_edit_keeps_text() {
    let mut obj = TextSync::new("abc\ndef".as_bytes().to_vec());
    let e = edit(1, 1, 1, 1, "");
    assert!(obj.edit(&e));
    assert_eq!(obj.text().as_slice(), "abc\ndef".as_bytes());
}

#[test]
fn test_batch_equivalence() {
    // Two non-overlapping edits applied in order, the second against the
    // text the first produced ...
    let mut sequential = TextSync::new("abcdef".as_bytes().to_vec());
    assert!(sequential.edit(&edit(0, 0, 0, 2, "X")));
    assert_eq!(sequential.text().as_slice(), "Xcdef".as_bytes());
    assert!(sequential.edit(&edit(0, 3, 0, 5, "Y")));
    assert_eq!(sequential.text().as_slice(), "XcdY".as_bytes());

    // ... equal one composed edit covering both spans, with the text
    // between them carried along unchanged.
    let mut composed = TextSync::new("abcdef".as_bytes().to_vec());
    assert!(composed.edit(&edit(0, 0, 0, 6, "XcdY")));
    assert_eq!(composed.text().as_slice(), sequential.text().as_slice());
}

#[test]
fn test_batch_equivalence_reversed() {
    // The second edit lies before the first: sequential application ...
    let mut sequential = TextSync::new("abcdef".as_bytes().to_vec());
    assert!(sequential.edit(&edit(0, 4, 0, 6, "X")));
    assert_eq!(sequential.text().as_slice(), "abcdX".as_bytes());
    assert!(sequential.edit(&edit(0, 0, 0, 2, "Y")));
    assert_eq!(sequential.text().as_slice(), "YcdX".as_bytes());

    // ... equals one composed edit covering both spans.
    let mut composed = TextSync::new("abcdef".as_bytes().to_vec());
    assert!(composed.edit(&edit(0, 0, 0, 6, "YcdX")));
    assert_eq!(composed.text().as_slice(), sequential.text().as_slice());
}

#[test]
fn test_position_round_trip() {
    let obj = TextSync::new("ab\ncde\nf".as_bytes().to_vec());
    for &(line, character) in &[(0, 0), (0, 2), (1, 0), (1, 3), (2, 1)] {
        let offset = obj.byte_pos(line, character).unwrap();
        assert_eq!(obj.position_of_byte(offset), Some((line, character)));
    }
}

#[test]
fn test_multi_line_insertion_delta() {
    // Inserting a three-line replacement at (2, 4): the new end lands two
    // lines below the start, at the column after the last line break.
    let text = TextSync::new("aaaa\nbbbb\ncccccc\n".as_bytes().to_vec());
    let e = edit(2, 4, 2, 4, "x\ny\nz");
    let d = edit_delta(&text, &e).unwrap();
    assert_eq!(d.start_byte, 14);
    assert_eq!(d.old_end_byte, 14);
    assert_eq!(d.new_end_byte, 19);
    assert_eq!(d.start_row, 2);
    assert_eq!(d.start_col, 4);
    assert_eq!(d.new_end_row, 4);
    assert_eq!(d.new_end_col, 1);
}

#[test]
fn test_single_line_insertion_delta() {
    let text = TextSync::new("aaaa\nbb".as_bytes().to_vec());
    let e = edit(1, 1, 1, 2, "xyz");
    let d = edit_delta(&text, &e).unwrap();
    assert_eq!(d.start_byte, 6);
    assert_eq!(d.old_end_byte, 7);
    assert_eq!(d.new_end_byte, 9);
    assert_eq!(d.new_end_row, 1);
    assert_eq!(d.new_end_col, 4);
}

#[test]
fn test_edit_delta_malformed_position() {
    let text = TextSync::new("aaaa".as_bytes().to_vec());
    let e = edit(3, 0, 3, 0, "x");
    assert!(edit_delta(&text, &e).is_none());
}

#[test]
fn test_lines_edge_cases() {
    assert_eq!(TextSync::new(Vec::new()).lines(), 0);
    assert_eq!(TextSync::new("abc".as_bytes().to_vec()).lines(), 1);
    assert_eq!(TextSync::new("abc\n".as_bytes().to_vec()).lines(), 1);
    assert_eq!(TextSync::new("abc\nd".as_bytes().to_vec()).lines(), 2);
}

#[test]
fn test_position_of_byte_out_of_range() {
    let obj = TextSync::new("abc".as_bytes().to_vec());
    assert_eq!(obj.position_of_byte(4), None);
    assert_eq!(obj.position_of_byte(3), Some((0, 3)));
}
