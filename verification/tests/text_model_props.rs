use uzumaki::edit_spec::{EditKind, Key, KeyResult, NamedKey};
use uzumaki::text_model::TextModel;

fn model(text: &str) -> TextModel {
    let mut m = TextModel::new();
    m.set_value(text.to_string());
    m
}

#[test]
fn combining_mark_is_one_grapheme() {
    let m = model("e\u{301}a");
    assert_eq!(m.grapheme_count(), 2);
    assert_eq!(m.flat_to_rowcol(1), (0, 1));
}

#[test]
fn roundtrip_with_combining_marks() {
    let m = model("he\u{301}llo\nwo\u{308}rld\n\nx");
    for i in 0..=m.grapheme_count() {
        let (r, c) = m.flat_to_rowcol(i);
        assert_eq!(m.rowcol_to_flat(r, c), i);
    }
}

#[test]
fn flat_to_rowcol_past_end_lands_at_end() {
    let m = model("ab\ncd");
    assert_eq!(m.flat_to_rowcol(100), (1, 2));
}

#[test]
fn rowcol_to_flat_clamps_row_and_column() {
    let m = model("ab\ncd");
    assert_eq!(m.rowcol_to_flat(0, 10), 2);
    assert_eq!(m.rowcol_to_flat(5, 1), 7);
}

#[test]
fn backspace_removes_whole_cluster() {
    let mut m = model("ae\u{301}");
    m.move_to(2, false);
    let ev = m.delete_backward();
    assert!(matches!(ev, Some(e) if matches!(e.kind, EditKind::DeleteBackward) && e.inserted.is_none()));
    assert_eq!(m.text(), "a");
    assert_eq!(m.selection.active, 1);
}

#[test]
fn backspace_at_start_does_nothing() {
    let mut m = model("abc");
    m.move_to(0, false);
    assert!(m.delete_backward().is_none());
    assert_eq!(m.text(), "abc");
}

#[test]
fn delete_forward_at_end_does_nothing() {
    let mut m = model("abc");
    m.move_to(3, false);
    assert!(m.delete_forward().is_none());
    assert_eq!(m.text(), "abc");
}

#[test]
fn delete_forward_within_line_keeps_cursor() {
    let mut m = model("abc");
    m.move_to(1, false);
    m.delete_forward();
    assert_eq!(m.text(), "ac");
    assert_eq!(m.selection.active, 1);
}

#[test]
fn select_all_then_delete_empties() {
    let mut m = model("one\ntwo");
    m.select_all();
    assert_eq!(m.selected_text(), m.text());
    assert!(m.delete_selection());
    assert_eq!(m.text(), "");
    assert_eq!(m.line_count(), 1);
    assert_eq!(m.selection.active, 0);
}

#[test]
fn collapsed_selection_deletes_nothing() {
    let mut m = model("abc");
    m.move_to(1, false);
    assert!(!m.delete_selection());
    assert_eq!(m.selected_text(), "");
    assert_eq!(m.text(), "abc");
}

#[test]
fn set_value_gives_text_back() {
    let mut m = TextModel::new();
    for v in ["", "a", "\n", "a\n\nb\n", "x\u{301}y"] {
        m.set_value(v.to_string());
        assert_eq!(m.text(), v);
        assert_eq!(m.line_count(), v.matches('\n').count() + 1);
    }
}

#[test]
fn set_value_clamps_selection() {
    let mut m = model("hello world");
    m.selection.anchor = 11;
    m.selection.active = 3;
    m.set_value("hi".to_string());
    assert_eq!(m.selection.anchor, 2);
    assert_eq!(m.selection.active, 2);
}

#[test]
fn set_value_same_text_keeps_selection() {
    let mut m = model("hi");
    m.selection.anchor = 7;
    m.set_value("hi".to_string());
    assert_eq!(m.selection.anchor, 7);
}

#[test]
fn insert_replaces_selection() {
    let mut m = model("hello world");
    m.selection.anchor = 0;
    m.selection.active = 5;
    let ev = m.insert("bye");
    assert!(matches!(ev, Some(e) if matches!(e.kind, EditKind::Insert) && e.inserted.as_deref() == Some("bye")));
    assert_eq!(m.text(), "bye world");
    assert_eq!(m.selection.active, 3);
    assert_eq!(m.selection.anchor, 3);
}

#[test]
fn insert_empty_is_refused() {
    let mut m = model("abc");
    assert!(m.insert("").is_none());
    assert_eq!(m.text(), "abc");
}

#[test]
fn max_length_refuses_overflowing_insert() {
    let mut m = model("abc");
    m.max_length = Some(4);
    m.move_to(3, false);
    assert!(m.insert("de").is_none());
    assert_eq!(m.text(), "abc");
    assert!(m.insert("d").is_some());
    assert_eq!(m.text(), "abcd");
}

#[test]
fn max_length_counts_replaced_selection() {
    let mut m = model("abcd");
    m.max_length = Some(4);
    m.selection.anchor = 0;
    m.selection.active = 2;
    assert!(m.insert("xy").is_some());
    assert_eq!(m.text(), "xycd");
}

#[test]
fn move_left_collapses_selection_to_start() {
    let mut m = model("abcdef");
    m.selection.anchor = 4;
    m.selection.active = 1;
    m.move_right(false);
    assert_eq!((m.selection.anchor, m.selection.active), (4, 4));
    m.selection.anchor = 4;
    m.selection.active = 1;
    m.move_left(false);
    assert_eq!((m.selection.anchor, m.selection.active), (1, 1));
}

#[test]
fn extend_moves_only_active() {
    let mut m = model("abcdef");
    m.move_to(2, false);
    m.move_right(true);
    m.move_right(true);
    assert_eq!((m.selection.anchor, m.selection.active), (2, 4));
    assert_eq!(m.selected_text(), "cd");
}

#[test]
fn word_movement() {
    let mut m = model("foo  bar\tbaz");
    m.move_to(0, false);
    m.move_word_right(false);
    assert_eq!(m.selection.active, 5);
    m.move_word_right(false);
    assert_eq!(m.selection.active, 9);
    m.move_word_right(false);
    assert_eq!(m.selection.active, 12);
    m.move_word_left(false);
    assert_eq!(m.selection.active, 9);
    m.move_word_left(true);
    assert_eq!((m.selection.anchor, m.selection.active), (9, 5));
}

#[test]
fn delete_word_backward_and_forward() {
    let mut m = model("foo bar baz");
    m.move_to(7, false);
    let ev = m.delete_word_backward();
    assert!(matches!(ev, Some(e) if matches!(e.kind, EditKind::DeleteWordBackward)));
    assert_eq!(m.text(), "foo  baz");
    assert_eq!(m.selection.active, 4);
    let ev = m.delete_word_forward();
    assert!(matches!(ev, Some(e) if matches!(e.kind, EditKind::DeleteWordForward)));
    assert_eq!(m.text(), "foo baz");
    m.move_to(0, false);
    assert!(m.delete_word_backward().is_none());
    m.move_to(7, false);
    assert!(m.delete_word_forward().is_none());
}

#[test]
fn word_at_finds_word_bounds() {
    let m = model("hello big world");
    assert_eq!(m.word_at(7), (6, 9));
    assert_eq!(m.word_at(100), (10, 15));
    assert_eq!(m.word_at(5), (0, 5));
    assert_eq!(TextModel::new().word_at(3), (0, 0));
}

#[test]
fn move_absolute_home_end() {
    let mut m = model("ab\ncd");
    m.move_to(4, false);
    m.move_absolute_home(true);
    assert_eq!((m.selection.anchor, m.selection.active), (4, 0));
    m.move_absolute_end(false);
    assert_eq!((m.selection.anchor, m.selection.active), (5, 5));
}

#[test]
fn move_up_down_with_current_column() {
    let mut m = model("abc\nde\nfghi");
    m.move_to(10, false);
    assert!(m.move_up(false, None));
    assert_eq!(m.cursor_rowcol(), (1, 2));
    assert!(m.move_up(false, None));
    assert_eq!(m.cursor_rowcol(), (0, 2));
    assert!(!m.move_up(true, None));
    assert_eq!(m.selection.active, 0);
    assert_eq!(m.selection.anchor, 2);
}

#[test]
fn handle_key_dispatch() {
    let mut m = model("ab");
    m.move_to(2, false);
    assert!(matches!(m.handle_key(&Key::Character("c".to_string()), 0), KeyResult::Edit(_)));
    assert_eq!(m.text(), "abc");
    assert!(matches!(m.handle_key(&Key::Named(NamedKey::Enter), 0), KeyResult::Edit(_)));
    assert!(matches!(m.handle_key(&Key::Named(NamedKey::Tab), 0), KeyResult::Edit(_)));
    assert_eq!(m.text(), "abc\n    ");
    assert!(matches!(m.handle_key(&Key::Named(NamedKey::Space), 0), KeyResult::Edit(_)));
    assert!(matches!(m.handle_key(&Key::Named(NamedKey::Backspace), 0), KeyResult::Edit(_)));
    assert!(matches!(m.handle_key(&Key::Named(NamedKey::Escape), 0), KeyResult::Blur));
    assert!(matches!(m.handle_key(&Key::Named(NamedKey::ArrowUp), 0), KeyResult::Ignored));
    assert!(matches!(m.handle_key(&Key::Unidentified, 0), KeyResult::Ignored));
    assert!(matches!(m.handle_key(&Key::Character("A".to_string()), 1), KeyResult::Handled));
    assert_eq!(m.selected_text(), "abc\n    ");
    assert!(matches!(m.handle_key(&Key::Character("b".to_string()), 1), KeyResult::Ignored));
    assert!(matches!(m.handle_key(&Key::Named(NamedKey::Home), 1), KeyResult::Handled));
    assert_eq!(m.selection.active, 0);
    assert!(matches!(m.handle_key(&Key::Named(NamedKey::End), 4), KeyResult::Handled));
    assert_eq!(m.selection.anchor, 0);
    assert_eq!(m.selection.active, 3);
    assert!(matches!(m.handle_key(&Key::Named(NamedKey::Delete), 0), KeyResult::Edit(_)));
    assert_eq!(m.text(), "\n    ");
}

#[test]
fn handle_key_ctrl_backspace_deletes_word() {
    let mut m = model("one two");
    m.move_to(7, false);
    assert!(matches!(m.handle_key(&Key::Named(NamedKey::Backspace), 1), KeyResult::Edit(_)));
    assert_eq!(m.text(), "one ");
    m.move_to(0, false);
    assert!(matches!(m.handle_key(&Key::Named(NamedKey::Delete), 1), KeyResult::Edit(_)));
    assert_eq!(m.text(), "");
    assert!(matches!(m.handle_key(&Key::Named(NamedKey::Backspace), 0), KeyResult::Handled));
}

#[test]
fn enter_refused_by_limit_is_ignored() {
    let mut m = model("ab");
    m.max_length = Some(2);
    m.move_to(2, false);
    assert!(matches!(m.handle_key(&Key::Named(NamedKey::Enter), 0), KeyResult::Ignored));
    assert!(matches!(m.handle_key(&Key::Character("x".to_string()), 0), KeyResult::Handled));
    assert_eq!(m.text(), "ab");
}

#[test]
fn crlf_line_end_is_one_text_cluster() {
    // "\r" ends the first line; in the whole text "\r\n" is one cluster.
    let mut m = model("a\r\nb");
    assert_eq!(m.grapheme_count(), 4);
    m.move_to(0, false);
    m.move_word_right(false);
    assert_eq!(m.selection.active, 2);
}

#[test]
fn reinserting_a_deleted_selection_restores_the_text() {
    let mut m = model("abc\ndef\nghi");
    m.move_to(2, false);
    m.move_to(9, true);
    let before = m.text();
    let sel = m.selected_text();
    assert!(m.delete_selection());
    assert!(m.insert(&sel).is_some());
    assert_eq!(m.text(), before);
    assert_eq!(m.selection.anchor, 9);
    assert_eq!(m.selection.active, 9);
}
