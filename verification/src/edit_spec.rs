//! What each editing and movement operation of the text model does, stated
//! over the model's abstract state.

use crate::graphemes::{grapheme_clusters, grapheme_len};
use crate::layout::{
    char_offset, char_start, flat_to_rowcol, join_lines, lines_wf, rowcol_offset, rowcol_to_flat,
    split_lines, total_graphemes,
};
use crate::selection::Selection;
use crate::strings::is_a_letter;
use crate::words::{word_left, word_right};
use vstd::prelude::*;

verus! {

/// What an edit did.
#[derive(Clone, Debug)]
pub enum EditKind {
    Insert,
    DeleteBackward,
    DeleteForward,
    DeleteWordBackward,
    DeleteWordForward,
}

/// An edit that changed the text.
#[derive(Clone, Debug)]
pub struct EditEvent {
    pub kind: EditKind,
    pub inserted: Option<String>,
}

/// The abstract state of a text model: its lines, its selection and its
/// length limit.
pub struct TextState {
    pub lines: Seq<Seq<char>>,
    pub selection: Selection,
    pub max_length: Option<usize>,
}

impl TextState {
    /// The line buffer is well formed (see `lines_wf`).
    pub open spec fn wf(self) -> bool {
        lines_wf(self.lines)
    }

    /// The whole text: the lines joined with `'\n'`.
    pub open spec fn text(self) -> Seq<char> {
        join_lines(self.lines)
    }

    /// Number of flat grapheme positions.
    pub open spec fn grapheme_count(self) -> int {
        total_graphemes(self.lines)
    }

    /// The grapheme clusters of the whole text (word movement reads these).
    pub open spec fn clusters(self) -> Seq<Seq<char>> {
        grapheme_clusters(self.text())
    }

    /// The selection is a plain cursor.
    pub open spec fn collapsed(self) -> bool {
        self.selection.anchor == self.selection.active
    }

    /// (row, column) of the cursor.
    pub open spec fn cursor(self) -> (int, int) {
        flat_to_rowcol(self.lines, self.selection.active as int)
    }
}

/// The smaller of two integers.
pub open spec fn min_int(a: int, b: int) -> int {
    if a <= b { a } else { b }
}

/// `x`, lowered to `bound` when it exceeds it.
pub open spec fn clamp_to(x: usize, bound: int) -> usize {
    if x > bound { bound as usize } else { x }
}

/// The strings' views.
pub open spec fn views(gs: Seq<String>) -> Seq<Seq<char>> {
    gs.map_values(|g: String| g@)
}

/// `ev` is an event of kind `kind` that inserted nothing.
pub open spec fn is_deletion_event(ev: Option<EditEvent>, kind: EditKind) -> bool {
    match ev {
        Some(e) => e.kind == kind && e.inserted is None,
        None => false,
    }
}

/// `ev` is an insertion event carrying `ch`.
pub open spec fn is_insert_event(ev: Option<EditEvent>, ch: Seq<char>) -> bool {
    match ev {
        Some(e) => e.kind == EditKind::Insert && (e.inserted matches Some(s) && s@ == ch),
        None => false,
    }
}

// ── Texts after an edit ─────────────────────────────────────────────────

/// The text of `lines` without the characters between the offsets of the
/// ends of `sel`.
pub open spec fn text_without_selection(lines: Seq<Seq<char>>, sel: Selection) -> Seq<char> {
    join_lines(lines).take(char_offset(lines, sel.spec_start() as int)) + join_lines(lines).skip(
        char_offset(lines, sel.spec_end() as int),
    )
}

/// The text after inserting `ch`: a non-collapsed selection is deleted
/// first, then `ch` goes in at the character offset of the selection's
/// start within the text that is left.
pub open spec fn text_with_insertion(lines: Seq<Seq<char>>, sel: Selection, ch: Seq<char>) -> Seq<char> {
    let t1 = if sel.anchor == sel.active { join_lines(lines) } else { text_without_selection(lines, sel) };
    let o = char_offset(split_lines(t1), sel.spec_start() as int);
    t1.take(o) + ch + t1.skip(o)
}

/// The text after removing the grapheme (or line break) just before flat
/// index `active`.
pub open spec fn text_after_backspace(lines: Seq<Seq<char>>, active: int) -> Seq<char> {
    let rc = flat_to_rowcol(lines, active);
    let end = rowcol_offset(lines, rc.0, rc.1);
    let start = if rc.1 == 0 { char_start(lines, rc.0) - 1 } else { rowcol_offset(lines, rc.0, rc.1 - 1) };
    join_lines(lines).take(start) + join_lines(lines).skip(end)
}

/// The text after removing the grapheme (or line break) at flat index `active`.
pub open spec fn text_after_delete_forward(lines: Seq<Seq<char>>, active: int) -> Seq<char> {
    let rc = flat_to_rowcol(lines, active);
    let start = rowcol_offset(lines, rc.0, rc.1);
    let end = if rc.1 == grapheme_len(lines[rc.0]) {
        char_start(lines, rc.0 + 1)
    } else {
        rowcol_offset(lines, rc.0, rc.1 + 1)
    };
    join_lines(lines).take(start) + join_lines(lines).skip(end)
}

// ── Operations ──────────────────────────────────────────────────────────

/// The selection of `s` was deleted: its text is gone and the cursor sits
/// at the selection's start.
pub open spec fn selection_deleted(s: TextState, t: TextState) -> bool {
    &&& t.text() == text_without_selection(s.lines, s.selection)
    &&& t.selection == (Selection { anchor: s.selection.spec_start(), active: s.selection.spec_start() })
}

/// `insert(ch)` has nothing to do: `ch` is empty, or a length limit would
/// be exceeded.
pub open spec fn insert_refused(s: TextState, ch: Seq<char>) -> bool {
    ||| ch.len() == 0
    ||| s.max_length matches Some(max) && s.grapheme_count() - (s.selection.spec_end()
        - s.selection.spec_start()) + grapheme_len(ch) > max
}

/// `insert(ch)` took `s` to `t`, returning `ev`.
pub open spec fn insert_post(s: TextState, t: TextState, ch: Seq<char>, ev: Option<EditEvent>) -> bool {
    &&& t.max_length == s.max_length
    &&& if insert_refused(s, ch) {
        ev is None && t == s
    } else {
        &&& is_insert_event(ev, ch)
        &&& t.text() == text_with_insertion(s.lines, s.selection, ch)
        &&& t.selection.active == s.selection.spec_start() + grapheme_len(ch)
        &&& t.selection.anchor == t.selection.active
    }
}

/// `delete_backward()` took `s` to `t`, returning `ev`.
pub open spec fn delete_backward_post(s: TextState, t: TextState, ev: Option<EditEvent>) -> bool {
    let sel = s.selection;
    &&& t.max_length == s.max_length
    &&& if !s.collapsed() {
        is_deletion_event(ev, EditKind::DeleteBackward) && selection_deleted(s, t)
    } else if sel.active == 0 {
        ev is None && t == s
    } else {
        &&& is_deletion_event(ev, EditKind::DeleteBackward)
        &&& t.text() == text_after_backspace(s.lines, sel.active as int)
        &&& t.selection == (Selection { anchor: (sel.active - 1) as usize, active: (sel.active - 1) as usize })
    }
}

/// `delete_forward()` took `s` to `t`, returning `ev`.
pub open spec fn delete_forward_post(s: TextState, t: TextState, ev: Option<EditEvent>) -> bool {
    let sel = s.selection;
    &&& t.max_length == s.max_length
    &&& if !s.collapsed() {
        is_deletion_event(ev, EditKind::DeleteForward) && selection_deleted(s, t)
    } else if sel.active >= s.grapheme_count() {
        ev is None && t == s
    } else {
        &&& is_deletion_event(ev, EditKind::DeleteForward)
        &&& t.text() == text_after_delete_forward(s.lines, sel.active as int)
        &&& t.selection == sel
    }
}

/// `delete_word_backward()` took `s` to `t`, returning `ev`.
pub open spec fn delete_word_backward_post(s: TextState, t: TextState, ev: Option<EditEvent>) -> bool {
    let sel = s.selection;
    &&& t.max_length == s.max_length
    &&& if !s.collapsed() {
        is_deletion_event(ev, EditKind::DeleteWordBackward) && selection_deleted(s, t)
    } else if sel.active == 0 {
        ev is None && t == s
    } else {
        let pos = word_left(s.clusters(), sel.active as int) as usize;
        &&& is_deletion_event(ev, EditKind::DeleteWordBackward)
        &&& t.text() == text_without_selection(s.lines, Selection { anchor: pos, active: sel.active })
        &&& t.selection == (Selection { anchor: pos, active: pos })
    }
}

/// Where `delete_word_forward()` scans to from the cursor: the start of the
/// next word among the clusters of the text, below the flat grapheme count.
pub open spec fn word_forward_target(s: TextState) -> int {
    word_right(
        s.clusters(),
        s.selection.active as int,
        min_int(s.grapheme_count(), s.clusters().len() as int),
    )
}

/// `delete_word_forward()` took `s` to `t`, returning `ev`.
pub open spec fn delete_word_forward_post(s: TextState, t: TextState, ev: Option<EditEvent>) -> bool {
    let sel = s.selection;
    &&& t.max_length == s.max_length
    &&& if !s.collapsed() {
        is_deletion_event(ev, EditKind::DeleteWordForward) && selection_deleted(s, t)
    } else if sel.active >= s.grapheme_count() {
        ev is None && t == s
    } else {
        let pos = word_forward_target(s) as usize;
        &&& is_deletion_event(ev, EditKind::DeleteWordForward)
        &&& t.text() == text_without_selection(s.lines, Selection { anchor: sel.active, active: pos })
        &&& t.selection == (Selection { anchor: sel.active, active: sel.active })
    }
}

/// `t` is `s` with its selection replaced by `sel`.
pub open spec fn only_selection(s: TextState, t: TextState, sel: Selection) -> bool {
    &&& t.lines == s.lines
    &&& t.max_length == s.max_length
    &&& t.selection == sel
}

/// `move_left(extend)` took `s` to `t`.
pub open spec fn move_left_post(s: TextState, t: TextState, extend: bool) -> bool {
    let sel = s.selection;
    only_selection(
        s,
        t,
        if !extend && !s.collapsed() {
            sel.moved_to(sel.spec_start(), false)
        } else if sel.active > 0 {
            sel.moved_to((sel.active - 1) as usize, extend)
        } else {
            sel
        },
    )
}

/// `move_right(extend)` took `s` to `t`.
pub open spec fn move_right_post(s: TextState, t: TextState, extend: bool) -> bool {
    let sel = s.selection;
    only_selection(
        s,
        t,
        if !extend && !s.collapsed() {
            sel.moved_to(sel.spec_end(), false)
        } else if sel.active < s.grapheme_count() {
            sel.moved_to((sel.active + 1) as usize, extend)
        } else {
            sel
        },
    )
}

/// `move_word_left(extend)` took `s` to `t`.
pub open spec fn move_word_left_post(s: TextState, t: TextState, extend: bool) -> bool {
    only_selection(s, t, s.selection.moved_to(word_left(s.clusters(), s.selection.active as int) as usize, extend))
}

/// `move_word_right(extend)` took `s` to `t`.
pub open spec fn move_word_right_post(s: TextState, t: TextState, extend: bool) -> bool {
    only_selection(
        s,
        t,
        s.selection.moved_to(
            word_right(s.clusters(), s.selection.active as int, s.clusters().len() as int) as usize,
            extend,
        ),
    )
}

/// `move_line_start(extend)` (Home) took `s` to `t`.
pub open spec fn line_start_post(s: TextState, t: TextState, extend: bool) -> bool {
    only_selection(s, t, s.selection.moved_to(rowcol_to_flat(s.lines, s.cursor().0, 0) as usize, extend))
}

/// `move_line_end(extend)` (End) took `s` to `t`.
pub open spec fn line_end_post(s: TextState, t: TextState, extend: bool) -> bool {
    let row = s.cursor().0;
    only_selection(
        s,
        t,
        s.selection.moved_to(rowcol_to_flat(s.lines, row, grapheme_len(s.lines[row]) as int) as usize, extend),
    )
}

/// `move_absolute_home(extend)` took `s` to `t`.
pub open spec fn absolute_home_post(s: TextState, t: TextState, extend: bool) -> bool {
    only_selection(s, t, s.selection.moved_to(0, extend))
}

/// `move_absolute_end(extend)` took `s` to `t`.
pub open spec fn absolute_end_post(s: TextState, t: TextState, extend: bool) -> bool {
    only_selection(s, t, s.selection.moved_to(s.grapheme_count() as usize, extend))
}

/// `select_all()` took `s` to `t`.
pub open spec fn select_all_post(s: TextState, t: TextState) -> bool {
    only_selection(s, t, Selection { anchor: 0, active: s.grapheme_count() as usize })
}

// ── Keys ────────────────────────────────────────────────────────────────

/// A key press as the text model reads it.
pub enum Key {
    /// A key that produces text.
    Character(String),
    /// A named (non-text) key.
    Named(NamedKey),
    /// Any other key.
    Unidentified,
}

/// The named keys the text model tells apart.
#[derive(Clone, Copy, Debug, PartialEq, Eq)]
pub enum NamedKey {
    Backspace,
    Delete,
    ArrowLeft,
    ArrowRight,
    ArrowUp,
    ArrowDown,
    Home,
    End,
    Space,
    Escape,
    Enter,
    Tab,
    Other,
}

/// What handling a key did.
pub enum KeyResult {
    Edit(EditEvent),
    Blur,
    Handled,
    Ignored,
}

/// Shift is held (bit 2 of the modifier mask).
pub open spec fn shift_held(modifiers: u32) -> bool {
    modifiers & 4 != 0
}

/// Ctrl is held (bit 0 of the modifier mask).
pub open spec fn ctrl_held(modifiers: u32) -> bool {
    modifiers & 1 != 0
}

/// The edit event a key result carries.
pub open spec fn event_of(r: KeyResult) -> Option<EditEvent> {
    match r {
        KeyResult::Edit(e) => Some(e),
        _ => None,
    }
}

/// Word deletion backward would read past the clusters of the text.
pub open spec fn word_back_out_of_range(s: TextState) -> bool {
    s.collapsed() && s.selection.active > s.clusters().len()
}

/// Word deletion forward would read past the clusters of the text.
pub open spec fn word_fwd_out_of_range(s: TextState) -> bool {
    &&& s.collapsed()
    &&& s.selection.active < s.grapheme_count()
    &&& s.grapheme_count() > s.clusters().len()
    &&& word_right(s.clusters(), s.selection.active as int, s.clusters().len() as int) >= s.clusters().len()
}

/// Moving a word left would read past the clusters of the text.
pub open spec fn word_left_out_of_range(s: TextState) -> bool {
    s.selection.active > s.clusters().len()
}

/// Inserting `ch` would move the cursor past `usize::MAX`.
pub open spec fn insert_overflows(s: TextState, ch: Seq<char>) -> bool {
    !insert_refused(s, ch) && s.selection.spec_start() + grapheme_len(ch) > usize::MAX
}

/// Inserting `ch` for a key: as `insert_post`, reported as an edit, or as
/// `none` when nothing is inserted; ignored when the cursor would overflow.
pub open spec fn key_insert_post(s: TextState, t: TextState, ch: Seq<char>, r: KeyResult, none: KeyResult) -> bool {
    if insert_overflows(s, ch) {
        t == s && r is Ignored
    } else {
        insert_post(s, t, ch, event_of(r)) && (r is Edit || r == none)
    }
}

/// A deletion for a key: as `post`, reported as an edit or as handled.
pub open spec fn key_delete_reported(r: KeyResult) -> bool {
    r is Edit || r is Handled
}

/// The key inserts text (a character without Ctrl, Space, Enter or Tab).
pub open spec fn key_inserts(key: Key, modifiers: u32) -> bool {
    match key {
        Key::Character(_) => !ctrl_held(modifiers),
        Key::Named(n) => n == NamedKey::Space || n == NamedKey::Enter || n == NamedKey::Tab,
        Key::Unidentified => false,
    }
}

/// `handle_key(key, modifiers)` took `s` to `t`, returning `r`.
pub open spec fn handle_key_post(s: TextState, t: TextState, key: Key, modifiers: u32, r: KeyResult) -> bool {
    let shift = shift_held(modifiers);
    let ctrl = ctrl_held(modifiers);
    match key {
        Key::Character(ch) => if ctrl {
            if is_a_letter(ch@) {
                select_all_post(s, t) && r is Handled
            } else {
                t == s && r is Ignored
            }
        } else {
            key_insert_post(s, t, ch@, r, KeyResult::Handled)
        },
        Key::Named(n) => match n {
            NamedKey::Backspace => if ctrl {
                if word_back_out_of_range(s) {
                    t == s && r is Ignored
                } else {
                    delete_word_backward_post(s, t, event_of(r)) && key_delete_reported(r)
                }
            } else {
                delete_backward_post(s, t, event_of(r)) && key_delete_reported(r)
            },
            NamedKey::Delete => if ctrl {
                if word_fwd_out_of_range(s) {
                    t == s && r is Ignored
                } else {
                    delete_word_forward_post(s, t, event_of(r)) && key_delete_reported(r)
                }
            } else {
                delete_forward_post(s, t, event_of(r)) && key_delete_reported(r)
            },
            NamedKey::ArrowLeft => if ctrl {
                if word_left_out_of_range(s) {
                    t == s && r is Ignored
                } else {
                    move_word_left_post(s, t, shift) && r is Handled
                }
            } else {
                move_left_post(s, t, shift) && r is Handled
            },
            NamedKey::ArrowRight => r is Handled && if ctrl {
                move_word_right_post(s, t, shift)
            } else {
                move_right_post(s, t, shift)
            },
            NamedKey::Home => r is Handled && if ctrl {
                absolute_home_post(s, t, shift)
            } else {
                line_start_post(s, t, shift)
            },
            NamedKey::End => r is Handled && if ctrl {
                absolute_end_post(s, t, shift)
            } else {
                line_end_post(s, t, shift)
            },
            NamedKey::Space => key_insert_post(s, t, seq![' '], r, KeyResult::Handled),
            NamedKey::Escape => t == s && r is Blur,
            NamedKey::Enter => key_insert_post(s, t, seq!['\n'], r, KeyResult::Ignored),
            NamedKey::Tab => key_insert_post(s, t, seq![' ', ' ', ' ', ' '], r, KeyResult::Ignored),
            _ => t == s && r is Ignored,
        },
        Key::Unidentified => t == s && r is Ignored,
    }
}

} // verus!
