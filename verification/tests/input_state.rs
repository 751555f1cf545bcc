use uzumaki::clipboard::{text_read_result, ClipboardError, TextRead};
use uzumaki::edit_spec::{Key, KeyResult, NamedKey};
use uzumaki::input::{caret_phase_visible, InputState};
use uzumaki::strings::char_is_whitespace;

fn input(text: &str) -> InputState {
    let mut s = InputState::new();
    s.set_value(text.to_string());
    s
}

#[test]
fn new_input_is_empty_and_unfocused() {
    let s = InputState::new();
    assert_eq!(s.model.text(), "");
    assert!(!s.focused && !s.disabled && !s.secure && !s.multiline);
    assert_eq!(s.sticky_col, None);
    assert_eq!(s.grapheme_count(), 0);
}

#[test]
fn single_line_input_drops_line_breaks() {
    let mut s = input("");
    assert!(s.insert_text("a\r\nb\n").is_some());
    assert_eq!(s.model.text(), "ab");
    assert!(s.insert_text("\n\r").is_none());
    assert_eq!(s.model.text(), "ab");
}

#[test]
fn multiline_input_keeps_line_breaks() {
    let mut s = input("");
    s.multiline = true;
    assert!(s.insert_text("a\nb").is_some());
    assert_eq!(s.model.text(), "a\nb");
    assert_eq!(s.model.line_count(), 2);
}

#[test]
fn disabled_input_ignores_edits_and_keys() {
    let mut s = input("abc");
    s.disabled = true;
    s.move_absolute_end(false);
    assert!(s.insert_text("x").is_none());
    assert!(s.delete_backward().is_none());
    assert!(s.delete_forward().is_none());
    assert!(s.delete_word_backward().is_none());
    assert!(s.delete_word_forward().is_none());
    assert!(matches!(s.handle_key(&Key::Character("x".to_string()), 0), KeyResult::Ignored));
    assert_eq!(s.model.text(), "abc");
}

#[test]
fn enter_is_ignored_by_single_line_input() {
    let mut s = input("abc");
    assert!(matches!(s.handle_key(&Key::Named(NamedKey::Enter), 0), KeyResult::Ignored));
    assert_eq!(s.model.text(), "abc");
    s.multiline = true;
    s.move_absolute_end(false);
    assert!(matches!(s.handle_key(&Key::Named(NamedKey::Enter), 0), KeyResult::Edit(_)));
    assert_eq!(s.model.text(), "abc\n");
}

#[test]
fn secure_input_shows_bullets() {
    let mut s = input("pa\u{0301}ss");
    assert_eq!(s.display_text(), "pa\u{0301}ss");
    s.secure = true;
    assert_eq!(s.display_text(), "\u{2022}\u{2022}\u{2022}\u{2022}");
}

#[test]
fn edits_clear_the_sticky_column() {
    let mut s = input("ab");
    s.sticky_col = Some(3);
    s.move_absolute_end(false);
    s.delete_backward();
    assert_eq!(s.sticky_col, None);
    assert_eq!(s.model.text(), "a");
}

#[test]
fn word_operations_through_the_input() {
    let mut s = input("hello big world");
    assert_eq!(s.word_at(7), (6, 9));
    s.move_absolute_end(false);
    s.move_word_left(false);
    assert_eq!(s.model.selection.active, 10);
    s.delete_word_backward();
    assert_eq!(s.model.text(), "hello world");
    s.move_absolute_home(false);
    s.delete_word_forward();
    assert_eq!(s.model.text(), "world");
    s.select_all();
    assert_eq!(s.model.selected_text(), "world");
}

#[test]
fn caret_blinks_in_halves_of_1060_ms() {
    assert!(caret_phase_visible(0));
    assert!(caret_phase_visible(529));
    assert!(!caret_phase_visible(530));
    assert!(!caret_phase_visible(1059));
    assert!(caret_phase_visible(1060));
}

#[test]
fn caret_hidden_without_focus() {
    let mut s = input("x");
    assert!(!s.blink_visible(true));
    s.focused = true;
    assert!(!s.blink_visible(false));
    s.reset_blink();
    assert!(s.blink_visible(true));
}

#[test]
fn clipboard_reads() {
    assert_eq!(text_read_result(TextRead::Text("hi".to_string())).ok(), Some(Some("hi".to_string())));
    assert_eq!(text_read_result(TextRead::Text(String::new())).ok(), Some(None));
    assert_eq!(text_read_result(TextRead::NotAvailable).ok(), Some(None));
    match text_read_result(TextRead::Failed("busy".to_string())) {
        Err(e @ ClipboardError::Access(_)) => assert_eq!(e.message(), "clipboard error: busy"),
        _ => panic!("expected an access error"),
    }
}

#[test]
fn white_space_agrees_with_std_on_every_char() {
    for u in 0u32..=0x10FFFF {
        if let Some(c) = char::from_u32(u) {
            assert_eq!(char_is_whitespace(c), c.is_whitespace(), "U+{u:04X}");
        }
    }
}

#[test]
fn disabled_input_ignores_inserts_whatever_its_selection() {
    let mut s = input("ab");
    s.model.max_length = Some(5);
    s.model.selection.anchor = 0;
    s.model.selection.active = 9;
    s.disabled = true;
    assert!(s.insert_text("x").is_none());
    assert!(matches!(s.handle_key(&Key::Character("x".to_string()), 0), KeyResult::Ignored));
    assert_eq!(s.model.text(), "ab");
}
