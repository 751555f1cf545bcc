//! The input widget state around a `TextModel`: focus, caret blink,
//! disabled, secure and single-line modes. Scroll offsets in pixels are
//! floating-point presentation state and live with the renderer.

use crate::edit_spec::{
    absolute_end_post, absolute_home_post, delete_backward_post, delete_forward_post,
    delete_word_backward_post, delete_word_forward_post, handle_key_post, insert_overflows,
    insert_post, line_end_post, line_start_post, move_left_post, move_right_post,
    move_word_left_post, move_word_right_post, select_all_post, word_back_out_of_range,
    word_fwd_out_of_range, word_left_out_of_range, EditEvent, Key, KeyResult, NamedKey,
    clamp_to, ctrl_held, key_inserts, min_int,
};
use crate::selection::Selection;
use crate::strings::push_char;
use crate::text_model::TextModel;
use crate::words::skip_word_back;
use std::time::{Duration, Instant};
use vstd::prelude::*;

verus! {

#[verifier::external_type_specification]
#[verifier::external_body]
pub struct ExInstant(Instant);

/// Calls `Instant::now()`: the current time; nothing is stated of it.
#[verifier::external_body]
fn instant_now() -> Instant {
    Instant::now()
}

/// Calls `Instant::elapsed`: the time since `t`; nothing is stated of it.
#[verifier::external_body]
fn instant_elapsed(t: &Instant) -> Duration {
    t.elapsed()
}

/// Calls `Duration::as_millis`: whole milliseconds; nothing is stated of it.
#[verifier::external_body]
fn duration_as_millis(d: &Duration) -> u128 {
    d.as_millis()
}

/// `s` without its `'\n'` and `'\r'` characters.
pub open spec fn without_line_breaks(s: Seq<char>) -> Seq<char>
    decreases s.len(),
{
    if s.len() == 0 {
        s
    } else {
        let rest = without_line_breaks(s.drop_last());
        if s.last() == '\n' || s.last() == '\r' {
            rest
        } else {
            rest.push(s.last())
        }
    }
}

/// Removes `'\n'` and `'\r'` from `s`.
fn strip_line_breaks(s: &str) -> (r: String)
    ensures
        r@ == without_line_breaks(s@),
{
    let mut r = String::new();
    for c in it: s.chars()
        invariant
            it.seq() == s@,
            r@ == without_line_breaks(s@.take(it.index() as int)),
    {
        proof {
            let k = it.index() as int;
            assert(s@.take(k + 1).drop_last() =~= s@.take(k));
            assert(s@.take(k + 1).last() == c);
        }
        if c != '\n' && c != '\r' {
            push_char(&mut r, c);
        }
    }
    proof {
        assert(s@.take(s@.len() as int) =~= s@);
    }
    r
}

/// The bullet shown for each grapheme of a secure input.
pub open spec fn bullets(n: int) -> Seq<char> {
    Seq::new(n as nat, |i: int| '\u{2022}')
}

/// Whether the caret shows `elapsed_ms` milliseconds after its last reset:
/// it is on for 530 ms of every 1060 ms.
pub fn caret_phase_visible(elapsed_ms: u128) -> (b: bool)
    ensures
        b == (elapsed_ms % 1060 < 530),
{
    elapsed_ms % 1060 < 530
}

/// Widget-layer state of a text input. The `TextModel` holds the text and
/// the selection; this adds focus, caret blink, and the input's modes.
pub struct InputState {
    pub model: TextModel,
    pub placeholder: String,
    pub focused: bool,
    pub blink_reset: Instant,
    pub disabled: bool,
    pub secure: bool,
    pub multiline: bool,
    /// Preserved column for vertical navigation (sticky column in grapheme units).
    pub sticky_col: Option<usize>,
}

/// The input ignores `key` without looking at it: it is disabled, or it is
/// single-line and the key is Enter.
pub open spec fn key_blocked(s: InputState, key: Key) -> bool {
    s.disabled || (!s.multiline && key == Key::Named(NamedKey::Enter))
}

impl InputState {
    /// `self` and `other` have the same placeholder, focus and modes.
    pub open spec fn same_settings(&self, other: &InputState) -> bool {
        &&& self.placeholder@ == other.placeholder@
        &&& self.focused == other.focused
        &&& self.disabled == other.disabled
        &&& self.secure == other.secure
        &&& self.multiline == other.multiline
    }

    /// The model is well formed.
    pub open spec fn wf(&self) -> bool {
        self.model.wf()
    }

    /// A focused-less, enabled, single-line input holding an empty text.
    pub fn new() -> (s: Self)
        ensures
            s.wf(),
            s.model@.text() == Seq::<char>::empty(),
            s.model@.selection == (Selection { anchor: 0, active: 0 }),
            s.model@.max_length is None,
            s.placeholder@ == Seq::<char>::empty(),
            !s.focused && !s.disabled && !s.secure && !s.multiline,
            s.sticky_col is None,
    {
        InputState {
            model: TextModel::new(),
            placeholder: String::new(),
            focused: false,
            blink_reset: instant_now(),
            disabled: false,
            secure: false,
            multiline: false,
            sticky_col: None,
        }
    }

    // ── Delegation to the model (with the disabled guard) ───────────

    /// Inserts `ch` at the cursor unless the input is disabled. A
    /// single-line input drops `'\n'` and `'\r'` from `ch` and inserts
    /// nothing when none is left. Where the cursor would move past
    /// `usize::MAX`, nothing is inserted.
    pub fn insert_text(&mut self, ch: &str) -> (ev: Option<EditEvent>)
        requires
            old(self).wf(),
            !old(self).disabled ==> old(self).model.text_view().len() + ch@.len() <= isize::MAX,
            !old(self).disabled && (old(self).multiline || without_line_breaks(ch@).len() > 0)
                && old(self).model@.max_length is Some ==> old(self).model@.selection.spec_end()
                - old(self).model@.selection.spec_start() <= old(self).model.spec_grapheme_count(),
        ensures
            final(self).wf(),
            final(self).same_settings(old(self)),
            final(self).sticky_col is None,
            ({
                let s = old(self).model@;
                let t = final(self).model@;
                let input = if old(self).multiline { ch@ } else { without_line_breaks(ch@) };
                if old(self).disabled || (!old(self).multiline && input.len() == 0) || insert_overflows(s, input) {
                    ev is None && t == s
                } else {
                    insert_post(s, t, input, ev)
                }
            }),
    {
        self.sticky_col = None;
        if self.disabled {
            return None;
        }
        let result = if !self.multiline {
            let text_to_insert = strip_line_breaks(ch);
            proof {
                lemma_without_line_breaks_len(ch@);
            }
            if text_to_insert.as_str().is_empty() {
                return None;
            }
            self.model.try_insert(text_to_insert.as_str())
        } else {
            self.model.try_insert(ch)
        };
        match result {
            Some(ev) => {
                if ev.is_some() {
                    self.reset_blink();
                }
                ev
            },
            None => None,
        }
    }

    /// Backspace unless the input is disabled.
    pub fn delete_backward(&mut self) -> (ev: Option<EditEvent>)
        requires
            old(self).wf(),
            !old(self).disabled && old(self).model@.selection.anchor == old(self).model@.selection.active
                && old(self).model@.selection.active > 0 ==> old(self).model.text_view().len() > 0,
        ensures
            final(self).wf(),
            final(self).same_settings(old(self)),
            final(self).sticky_col is None,
            old(self).disabled ==> ev is None && final(self).model@ == old(self).model@,
            !old(self).disabled ==> delete_backward_post(old(self).model@, final(self).model@, ev),
    {
        self.sticky_col = None;
        if self.disabled {
            return None;
        }
        let result = self.model.delete_backward();
        if result.is_some() {
            self.reset_blink();
        }
        result
    }

    /// Delete unless the input is disabled.
    pub fn delete_forward(&mut self) -> (ev: Option<EditEvent>)
        requires
            old(self).wf(),
        ensures
            final(self).wf(),
            final(self).same_settings(old(self)),
            final(self).sticky_col is None,
            old(self).disabled ==> ev is None && final(self).model@ == old(self).model@,
            !old(self).disabled ==> delete_forward_post(old(self).model@, final(self).model@, ev),
    {
        self.sticky_col = None;
        if self.disabled {
            return None;
        }
        let result = self.model.delete_forward();
        if result.is_some() {
            self.reset_blink();
        }
        result
    }

    /// Ctrl+Backspace unless the input is disabled; nothing happens where
    /// the scan would read past the clusters of the text.
    pub fn delete_word_backward(&mut self) -> (ev: Option<EditEvent>)
        requires
            old(self).wf(),
        ensures
            final(self).wf(),
            final(self).same_settings(old(self)),
            final(self).sticky_col is None,
            old(self).disabled || word_back_out_of_range(old(self).model@) ==> ev is None
                && final(self).model@ == old(self).model@,
            !old(self).disabled && !word_back_out_of_range(old(self).model@) ==> delete_word_backward_post(
                old(self).model@,
                final(self).model@,
                ev,
            ),
    {
        self.sticky_col = None;
        if self.disabled {
            return None;
        }
        let result = match self.model.try_delete_word_backward() {
            Some(ev) => ev,
            None => None,
        };
        if result.is_some() {
            self.reset_blink();
        }
        result
    }

    /// Ctrl+Delete unless the input is disabled; nothing happens where the
    /// scan would read past the clusters of the text.
    pub fn delete_word_forward(&mut self) -> (ev: Option<EditEvent>)
        requires
            old(self).wf(),
        ensures
            final(self).wf(),
            final(self).same_settings(old(self)),
            final(self).sticky_col is None,
            old(self).disabled || word_fwd_out_of_range(old(self).model@) ==> ev is None
                && final(self).model@ == old(self).model@,
            !old(self).disabled && !word_fwd_out_of_range(old(self).model@) ==> delete_word_forward_post(
                old(self).model@,
                final(self).model@,
                ev,
            ),
    {
        self.sticky_col = None;
        if self.disabled {
            return None;
        }
        let result = match self.model.try_delete_word_forward() {
            Some(ev) => ev,
            None => None,
        };
        if result.is_some() {
            self.reset_blink();
        }
        result
    }

    /// Left arrow.
    pub fn move_left(&mut self, extend: bool)
        requires
            old(self).wf(),
        ensures
            final(self).wf(),
            final(self).same_settings(old(self)),
            final(self).sticky_col == old(self).sticky_col,
            move_left_post(old(self).model@, final(self).model@, extend),
    {
        self.model.move_left(extend);
        self.reset_blink();
    }

    /// Right arrow.
    pub fn move_right(&mut self, extend: bool)
        requires
            old(self).wf(),
        ensures
            final(self).wf(),
            final(self).same_settings(old(self)),
            final(self).sticky_col == old(self).sticky_col,
            move_right_post(old(self).model@, final(self).model@, extend),
    {
        self.model.move_right(extend);
        self.reset_blink();
    }

    /// Ctrl+Left; the cursor stays where the scan would read past the
    /// clusters of the text.
    pub fn move_word_left(&mut self, extend: bool)
        requires
            old(self).wf(),
        ensures
            final(self).wf(),
            final(self).same_settings(old(self)),
            final(self).sticky_col == old(self).sticky_col,
            word_left_out_of_range(old(self).model@) ==> final(self).model@ == old(self).model@,
            !word_left_out_of_range(old(self).model@) ==> move_word_left_post(
                old(self).model@,
                final(self).model@,
                extend,
            ),
    {
        self.model.try_move_word_left(extend);
        self.reset_blink();
    }

    /// Ctrl+Right.
    pub fn move_word_right(&mut self, extend: bool)
        requires
            old(self).wf(),
        ensures
            final(self).wf(),
            final(self).same_settings(old(self)),
            final(self).sticky_col == old(self).sticky_col,
            move_word_right_post(old(self).model@, final(self).model@, extend),
    {
        self.model.move_word_right(extend);
        self.reset_blink();
    }

    /// Home.
    pub fn move_home(&mut self, extend: bool)
        requires
            old(self).wf(),
        ensures
            final(self).wf(),
            final(self).same_settings(old(self)),
            final(self).sticky_col == old(self).sticky_col,
            line_start_post(old(self).model@, final(self).model@, extend),
    {
        self.model.move_home(extend);
        self.reset_blink();
    }

    /// End.
    pub fn move_end(&mut self, extend: bool)
        requires
            old(self).wf(),
        ensures
            final(self).wf(),
            final(self).same_settings(old(self)),
            final(self).sticky_col == old(self).sticky_col,
            line_end_post(old(self).model@, final(self).model@, extend),
    {
        self.model.move_end(extend);
        self.reset_blink();
    }

    /// Ctrl+Home.
    pub fn move_absolute_home(&mut self, extend: bool)
        requires
            old(self).wf(),
        ensures
            final(self).wf(),
            final(self).same_settings(old(self)),
            final(self).sticky_col == old(self).sticky_col,
            absolute_home_post(old(self).model@, final(self).model@, extend),
    {
        self.model.move_absolute_home(extend);
        self.reset_blink();
    }

    /// Ctrl+End.
    pub fn move_absolute_end(&mut self, extend: bool)
        requires
            old(self).wf(),
        ensures
            final(self).wf(),
            final(self).same_settings(old(self)),
            final(self).sticky_col == old(self).sticky_col,
            absolute_end_post(old(self).model@, final(self).model@, extend),
    {
        self.model.move_absolute_end(extend);
        self.reset_blink();
    }

    /// Moves the cursor to grapheme index `pos`, clamped to the grapheme count.
    pub fn move_to(&mut self, pos: usize, extend: bool)
        requires
            old(self).wf(),
        ensures
            final(self).wf(),
            final(self).same_settings(old(self)),
            final(self).sticky_col == old(self).sticky_col,
            final(self).model@.lines == old(self).model@.lines,
            final(self).model@.max_length == old(self).model@.max_length,
            final(self).model@.selection == old(self).model@.selection.moved_to(
                min_int(pos as int, old(self).model.spec_grapheme_count()) as usize,
                extend,
            ),
    {
        self.model.move_to(pos, extend);
        self.reset_blink();
    }

    /// Selects the whole text.
    pub fn select_all(&mut self)
        requires
            old(self).wf(),
        ensures
            final(self).wf(),
            final(self).same_settings(old(self)),
            final(self).sticky_col == old(self).sticky_col,
            select_all_post(old(self).model@, final(self).model@),
    {
        self.model.select_all();
        self.reset_blink();
    }

    /// The word around a grapheme index (see `TextModel::word_at`).
    pub fn word_at(&self, grapheme_idx: usize) -> (r: (usize, usize))
        requires
            self.wf(),
        ensures
            ({
                let gs = self.model.text_clusters();
                if gs.len() == 0 {
                    r == (0usize, 0usize)
                } else {
                    let i = min_int(grapheme_idx as int, gs.len() - 1);
                    r.0 == skip_word_back(gs, i) && r.1 == crate::words::skip_word_fwd(gs, i, gs.len() as int)
                }
            }),
    {
        self.model.word_at(grapheme_idx)
    }

    /// Replaces the text (see `TextModel::set_value`).
    pub fn set_value(&mut self, value: String)
        requires
            old(self).wf(),
            value@.len() <= isize::MAX,
        ensures
            final(self).wf(),
            final(self).same_settings(old(self)),
            final(self).sticky_col == old(self).sticky_col,
            final(self).model.text_view() == value@,
            old(self).model.text_view() == value@ ==> final(self).model@ == old(self).model@,
            old(self).model.text_view() != value@ ==> final(self).model@.selection == (Selection {
                anchor: clamp_to(old(self).model@.selection.anchor, final(self).model.spec_grapheme_count()),
                active: clamp_to(old(self).model@.selection.active, final(self).model.spec_grapheme_count()),
            }),
            final(self).model@.max_length == old(self).model@.max_length,
    {
        self.model.set_value(value);
    }

    // ── Widget-layer concerns ───────────────────────────────────────

    /// Grapheme count of the text.
    pub fn grapheme_count(&self) -> (n: usize)
        requires
            self.wf(),
        ensures
            n == self.model.spec_grapheme_count(),
    {
        self.model.grapheme_count()
    }

    /// Restarts the caret blink from now.
    pub fn reset_blink(&mut self)
        ensures
            final(self).model == old(self).model,
            final(self).same_settings(old(self)),
            final(self).sticky_col == old(self).sticky_col,
    {
        self.blink_reset = instant_now();
    }

    /// Whether the caret is visible now: never unless both the input and
    /// the window have focus; then on for 530 ms of every 1060 ms since the
    /// last reset.
    pub fn blink_visible(&self, window_focused: bool) -> (b: bool)
        ensures
            !(self.focused && window_focused) ==> !b,
    {
        if !self.focused || !window_focused {
            return false;
        }
        let elapsed = instant_elapsed(&self.blink_reset);
        caret_phase_visible(duration_as_millis(&elapsed))
    }

    /// The text to draw: one bullet per grapheme for a secure input, else
    /// the text.
    pub fn display_text(&self) -> (r: String)
        requires
            self.wf(),
        ensures
            self.secure ==> r@ == bullets(self.model.spec_grapheme_count()),
            !self.secure ==> r@ == self.model.text_view(),
    {
        if self.secure {
            let n = self.model.grapheme_count();
            let mut r = String::new();
            let mut i: usize = 0;
            while i < n
                invariant
                    i <= n,
                    r@ == bullets(i as int),
                decreases n - i,
            {
                push_char(&mut r, '\u{2022}');
                proof {
                    assert(r@ =~= bullets(i + 1));
                }
                i = i + 1;
            }
            proof {
                assert(bullets(0) =~= Seq::<char>::empty());
            }
            r
        } else {
            self.model.text()
        }
    }

    /// Handles a key press: ignored while disabled, and Enter is ignored
    /// by a single-line input; otherwise as `TextModel::handle_key`.
    pub fn handle_key(&mut self, key: &Key, modifiers: u32) -> (r: KeyResult)
        requires
            old(self).wf(),
            !key_blocked(*old(self), *key) ==> old(self).model.text_view().len() + 4 <= isize::MAX,
            !key_blocked(*old(self), *key) ==> (key matches Key::Character(c)
                ==> old(self).model.text_view().len() + c@.len() <= isize::MAX),
            !key_blocked(*old(self), *key) && key_inserts(*key, modifiers) && old(self).model@.max_length is Some
                ==> old(self).model@.selection.spec_end() - old(self).model@.selection.spec_start()
                <= old(self).model.spec_grapheme_count(),
            !key_blocked(*old(self), *key) && *key == Key::Named(NamedKey::Backspace) && !ctrl_held(modifiers)
                && old(self).model@.selection.anchor == old(self).model@.selection.active
                && old(self).model@.selection.active > 0 ==> old(self).model.text_view().len() > 0,
        ensures
            final(self).wf(),
            final(self).same_settings(old(self)),
            if key_blocked(*old(self), *key) {
                r is Ignored && final(self).model@ == old(self).model@ && final(self).sticky_col == old(self).sticky_col
            } else {
                final(self).sticky_col is None && handle_key_post(old(self).model@, final(self).model@, *key, modifiers, r)
            },
    {
        if self.disabled {
            return KeyResult::Ignored;
        }
        if !self.multiline {
            if let Key::Named(NamedKey::Enter) = key {
                return KeyResult::Ignored;
            }
        }
        self.sticky_col = None;
        let result = self.model.handle_key(key, modifiers);
        match &result {
            KeyResult::Ignored => {},
            _ => {
                self.reset_blink();
            },
        }
        result
    }
}

/// Dropping line breaks never lengthens a text.
proof fn lemma_without_line_breaks_len(s: Seq<char>)
    ensures
        without_line_breaks(s).len() <= s.len(),
    decreases s.len(),
{
    if s.len() > 0 {
        lemma_without_line_breaks_len(s.drop_last());
    }
}

} // verus!
