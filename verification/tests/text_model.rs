use uzumaki::text_model::TextModel;

fn model(text: &str) -> TextModel {
    let mut m = TextModel::new();
    m.set_value(text.to_string());
    m
}

// ── flat_to_rowcol / rowcol_to_flat round-trip ───────────────────

#[test]
fn flat_to_rowcol_single_line() {
    let m = model("hello");
    assert_eq!(m.flat_to_rowcol(0), (0, 0));
    assert_eq!(m.flat_to_rowcol(3), (0, 3));
    assert_eq!(m.flat_to_rowcol(5), (0, 5));
}

#[test]
fn flat_to_rowcol_multiline() {
    let m = model("ab\ncd\nef");
    assert_eq!(m.flat_to_rowcol(0), (0, 0));
    assert_eq!(m.flat_to_rowcol(2), (0, 2));
    assert_eq!(m.flat_to_rowcol(3), (1, 0));
    assert_eq!(m.flat_to_rowcol(5), (1, 2));
    assert_eq!(m.flat_to_rowcol(6), (2, 0));
    assert_eq!(m.flat_to_rowcol(8), (2, 2));
}

#[test]
fn rowcol_to_flat_roundtrip() {
    let m = model("hello\nworld\nfoo");
    for i in 0..=m.grapheme_count() {
        let (r, c) = m.flat_to_rowcol(i);
        assert_eq!(m.rowcol_to_flat(r, c), i, "round-trip failed for flat index {i}");
    }
}

#[test]
fn rowcol_to_flat_values() {
    let m = model("ab\ncd\nef");
    assert_eq!(m.rowcol_to_flat(0, 0), 0);
    assert_eq!(m.rowcol_to_flat(0, 2), 2);
    assert_eq!(m.rowcol_to_flat(1, 0), 3);
    assert_eq!(m.rowcol_to_flat(1, 2), 5);
    assert_eq!(m.rowcol_to_flat(2, 0), 6);
    assert_eq!(m.rowcol_to_flat(2, 2), 8);
}

// ── Insert / newline ─────────────────────────────────────────────

#[test]
fn insert_text_then_newline_then_more() {
    let mut m = TextModel::new();
    m.insert("hello");
    m.insert("\n");
    m.insert("world");
    assert_eq!(m.text(), "hello\nworld");
    assert_eq!(m.line_count(), 2);
    assert_eq!(m.line(0), "hello");
    assert_eq!(m.line(1), "world");
}

#[test]
fn insert_in_middle_of_line() {
    let mut m = model("hllo");
    m.move_to(1, false);
    m.insert("e");
    assert_eq!(m.text(), "hello");
}

#[test]
fn insert_newline_splits_line() {
    let mut m = model("helloworld");
    m.move_to(5, false);
    m.insert("\n");
    assert_eq!(m.text(), "hello\nworld");
    assert_eq!(m.line_count(), 2);
}

// ── Backspace ────────────────────────────────────────────────────

#[test]
fn backspace_at_col0_joins_lines() {
    let mut m = model("hello\nworld");
    m.move_to(6, false);
    m.delete_backward();
    assert_eq!(m.text(), "helloworld");
    assert_eq!(m.line_count(), 1);
    assert_eq!(m.selection.active, 5);
}

#[test]
fn backspace_within_line() {
    let mut m = model("hello");
    m.move_to(5, false);
    m.delete_backward();
    assert_eq!(m.text(), "hell");
}

// ── Delete forward ───────────────────────────────────────────────

#[test]
fn delete_forward_at_eol_joins_lines() {
    let mut m = model("hello\nworld");
    m.move_to(5, false);
    m.delete_forward();
    assert_eq!(m.text(), "helloworld");
    assert_eq!(m.line_count(), 1);
}

// ── Move left/right across newline ───────────────────────────────

#[test]
fn move_right_across_newline() {
    let mut m = model("ab\ncd");
    m.move_to(2, false);
    m.move_right(false);
    assert_eq!(m.selection.active, 3);
    assert_eq!(m.flat_to_rowcol(3), (1, 0));
}

#[test]
fn move_left_across_newline() {
    let mut m = model("ab\ncd");
    m.move_to(3, false);
    m.move_left(false);
    assert_eq!(m.selection.active, 2);
    assert_eq!(m.flat_to_rowcol(2), (0, 2));
}

// ── move_home / move_end per line ────────────────────────────────

#[test]
fn move_home_on_second_line() {
    let mut m = model("hello\nworld");
    m.move_to(8, false);
    m.move_home(false);
    assert_eq!(m.selection.active, 6);
}

#[test]
fn move_end_on_first_line() {
    let mut m = model("hello\nworld");
    m.move_to(2, false);
    m.move_end(false);
    assert_eq!(m.selection.active, 5);
}

#[test]
fn move_home_end_on_each_line() {
    let mut m = model("abc\ndef\nghi");
    m.move_to(1, false);
    m.move_home(false);
    assert_eq!(m.selection.active, 0);
    m.move_end(false);
    assert_eq!(m.selection.active, 3);

    m.move_to(5, false);
    m.move_home(false);
    assert_eq!(m.selection.active, 4);
    m.move_end(false);
    assert_eq!(m.selection.active, 7);

    m.move_to(9, false);
    m.move_home(false);
    assert_eq!(m.selection.active, 8);
    m.move_end(false);
    assert_eq!(m.selection.active, 11);
}

// ── select_all / selected_text multiline ─────────────────────────

#[test]
fn select_all_multiline() {
    let mut m = model("hello\nworld");
    m.select_all();
    assert_eq!(m.selection.anchor, 0);
    assert_eq!(m.selection.active, 11);
    assert_eq!(m.selected_text(), "hello\nworld");
}

#[test]
fn selected_text_across_lines() {
    let mut m = model("abc\ndef\nghi");
    m.selection.anchor = 2;
    m.selection.active = 6;
    assert_eq!(m.selected_text(), "c\nde");
}

// ── Arrow up/down with sticky column ─────────────────────────────

#[test]
fn move_up_down_preserves_column() {
    let mut m = model("abcdef\nab\nabcdef");
    m.move_to(5, false);
    let (_, col) = m.cursor_rowcol();
    assert_eq!(col, 5);

    m.move_down(false, Some(5));
    assert_eq!(m.cursor_rowcol(), (1, 2));

    m.move_down(false, Some(5));
    assert_eq!(m.cursor_rowcol(), (2, 5));
}

#[test]
fn move_up_from_first_line_snaps_to_start() {
    let mut m = model("hello\nworld");
    m.move_to(3, false);
    let moved = m.move_up(false, None);
    assert!(!moved);
    assert_eq!(m.selection.active, 0);
}

#[test]
fn move_down_from_last_line_snaps_to_end() {
    let mut m = model("hello\nworld");
    m.move_to(8, false);
    let moved = m.move_down(false, None);
    assert!(!moved);
    assert_eq!(m.selection.active, m.grapheme_count());
}

// ── Delete selection spanning multiple lines ─────────────────────

#[test]
fn delete_selection_multiline() {
    let mut m = model("abc\ndef\nghi");
    m.selection.anchor = 2;
    m.selection.active = 9;
    m.delete_selection();
    assert_eq!(m.text(), "abhi");
    assert_eq!(m.selection.active, 2);
}

#[test]
fn delete_selection_same_line() {
    let mut m = model("hello world");
    m.selection.anchor = 5;
    m.selection.active = 11;
    m.delete_selection();
    assert_eq!(m.text(), "hello");
}

// ── Empty document edge cases ────────────────────────────────────

#[test]
fn empty_model_state() {
    let m = TextModel::new();
    assert_eq!(m.text(), "");
    assert_eq!(m.grapheme_count(), 0);
    assert_eq!(m.line_count(), 1);
    assert_eq!(m.line(0), "");
    assert_eq!(m.flat_to_rowcol(0), (0, 0));
    assert_eq!(m.rowcol_to_flat(0, 0), 0);
}

// ── set_value splits on newlines ─────────────────────────────────

#[test]
fn set_value_splits_lines() {
    let mut m = TextModel::new();
    m.set_value("line1\nline2\nline3".to_string());
    assert_eq!(m.line_count(), 3);
    assert_eq!(m.line(0), "line1");
    assert_eq!(m.line(1), "line2");
    assert_eq!(m.line(2), "line3");
    assert_eq!(m.text(), "line1\nline2\nline3");
}

// ── Trailing newline ─────────────────────────────────────────────

#[test]
fn trailing_newline() {
    let mut m = TextModel::new();
    m.insert("hello");
    m.insert("\n");
    assert_eq!(m.text(), "hello\n");
    assert_eq!(m.line_count(), 2);
    assert_eq!(m.line(0), "hello");
    assert_eq!(m.line(1), "");
    let (row, col) = m.cursor_rowcol();
    assert_eq!(row, 1);
    assert_eq!(col, 0);
}

// ── Multi-line paste ─────────────────────────────────────────────

#[test]
fn insert_multiline_text() {
    let mut m = TextModel::new();
    m.insert("line1\nline2\nline3");
    assert_eq!(m.text(), "line1\nline2\nline3");
    assert_eq!(m.line_count(), 3);
    assert_eq!(m.selection.active, m.grapheme_count());
}
