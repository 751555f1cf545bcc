//! Properties of the text model that span its operations.

use crate::edit_spec::{
    absolute_end_post, absolute_home_post, insert_post, insert_refused, line_end_post, line_start_post,
    move_left_post, move_right_post, select_all_post, text_without_selection, TextState,
    event_of, handle_key_post, selection_deleted, EditEvent, insert_overflows, key_inserts, Key, KeyResult, NamedKey,
};
use crate::graphemes::{grapheme_clusters, grapheme_len};
use crate::layout::{
    char_offset, char_start, cluster_prefix, flat_to_rowcol, join_lines, lemma_flat_to_rowcol,
    lemma_flat_to_rowcol_monotone, lemma_join_split, lemma_join_take_len, lemma_prefix_extends,
    lemma_prefix_suffix, lemma_row_in_text, lemma_row_start_succ, lemma_rowcol_to_flat_inverse,
    lemma_split_join, lemma_starts_nonneg, lemma_total_le_text, lines_wf, row_start,
    rowcol_to_flat, segmented, split_lines, total_graphemes,
};
use crate::cli::{
    arch_label, asset_name, os_label, output_with_extension, routed_args, trim_suffixes,
    version_number_of, version_tag_of,
};
use crate::input::without_line_breaks;
use crate::strings::{all_white_space, is_a_letter};
use crate::words::{skip_blank_back, skip_blank_fwd, skip_word_back, skip_word_fwd, word_left, word_right};
use crate::paths::{normalized, prefix_part, push_component, ComponentView, TargetArch, TargetOs};
use crate::selection::Selection;
use crate::strings::has_suffix;
use crate::vfs::{in_order, is_listing_of, lemma_path_lt_irreflexive, lemma_path_lt_transitive, path_lt};
use vstd::prelude::*;

verus! {

/// Flat row starts grow by at least the row's graphemes plus its line break.
proof fn lemma_row_start_monotone(lines: Seq<Seq<char>>, a: int, b: int)
    requires
        0 <= a < b <= lines.len(),
    ensures
        row_start(lines, a) + grapheme_len(lines[a]) + 1 <= row_start(lines, b),
    decreases b - a,
{
    lemma_row_start_succ(lines, a);
    if a + 1 < b {
        lemma_row_start_monotone(lines, a + 1, b);
    }
}

/// A flat index inside the text, converted to (row, column) and back, is
/// itself.
pub proof fn law_rowcol_roundtrip(lines: Seq<Seq<char>>, i: int)
    requires
        lines_wf(lines),
        0 <= i <= total_graphemes(lines),
    ensures
        rowcol_to_flat(lines, flat_to_rowcol(lines, i).0, flat_to_rowcol(lines, i).1) == i,
{
    lemma_flat_to_rowcol(lines, i);
    let rc = flat_to_rowcol(lines, i);
    lemma_rowcol_to_flat_inverse(lines, rc.0, rc.1);
}

/// A (row, column) inside the buffer, converted to a flat index and back,
/// is itself.
pub proof fn law_flat_roundtrip(lines: Seq<Seq<char>>, r: int, c: int)
    requires
        lines_wf(lines),
        0 <= r < lines.len(),
        0 <= c <= grapheme_len(lines[r]),
    ensures
        flat_to_rowcol(lines, rowcol_to_flat(lines, r, c)) == (r, c),
{
    lemma_rowcol_to_flat_inverse(lines, r, c);
}

/// The text determines the lines: they are the pieces of the text between
/// its line breaks.
pub proof fn law_text_determines_lines(lines: Seq<Seq<char>>)
    requires
        lines_wf(lines),
    ensures
        split_lines(join_lines(lines)) == lines,
{
    lemma_split_join(lines);
}

/// Splitting a text into lines and joining them again gives the text back.
pub proof fn law_lines_rejoin(text: Seq<char>)
    ensures
        join_lines(split_lines(text)) == text,
{
    lemma_join_split(text);
}

/// Character offsets of flat indices are ordered like the indices and lie
/// inside the text.
pub proof fn law_char_offsets_ordered(lines: Seq<Seq<char>>, i: int, j: int)
    requires
        lines_wf(lines),
        0 <= i <= j,
    ensures
        0 <= char_offset(lines, i) <= char_offset(lines, j) <= join_lines(lines).len(),
{
    lemma_flat_to_rowcol(lines, i);
    lemma_flat_to_rowcol(lines, j);
    lemma_flat_to_rowcol_monotone(lines, i, j);
    let a = flat_to_rowcol(lines, i);
    let b = flat_to_rowcol(lines, j);
    assert(segmented(lines[a.0]));
    assert(segmented(lines[b.0]));
    lemma_prefix_suffix(lines[a.0], a.1);
    lemma_prefix_suffix(lines[b.0], b.1);
    lemma_row_in_text(lines, a.0);
    lemma_row_in_text(lines, b.0);
    lemma_starts_nonneg(lines, a.0);
    if a.0 == b.0 {
        lemma_prefix_extends(lines[a.0], a.1, b.1);
    } else {
        crate::layout::lemma_char_start_monotone(lines, a.0, b.0);
    }
}

/// The selected text and the text left after deleting the selection fit
/// together: the text is what precedes the selection, the selected text,
/// and what follows it.
pub proof fn law_selection_partitions_text(lines: Seq<Seq<char>>, sel: Selection)
    requires
        lines_wf(lines),
    ensures
        ({
            let t = join_lines(lines);
            let o1 = char_offset(lines, sel.spec_start() as int);
            let o2 = char_offset(lines, sel.spec_end() as int);
            &&& t == t.take(o1) + t.subrange(o1, o2) + t.skip(o2)
            &&& text_without_selection(lines, sel) == t.take(o1) + t.skip(o2)
        }),
{
    let t = join_lines(lines);
    law_char_offsets_ordered(lines, sel.spec_start() as int, sel.spec_end() as int);
    let o1 = char_offset(lines, sel.spec_start() as int);
    let o2 = char_offset(lines, sel.spec_end() as int);
    assert(t =~= t.take(o1) + t.subrange(o1, o2) + t.skip(o2));
}

/// Selecting all spans the whole text: flat index 0 is at character 0 and
/// the grapheme count is at the end of the text. So after `select_all`,
/// `selected_text` is the whole text and `delete_selection` empties it.
pub proof fn law_select_all_spans_text(lines: Seq<Seq<char>>)
    requires
        lines_wf(lines),
    ensures
        char_offset(lines, 0) == 0,
        char_offset(lines, total_graphemes(lines)) == join_lines(lines).len(),
        text_without_selection(lines, Selection { anchor: 0, active: total_graphemes(lines) as usize })
            == Seq::<char>::empty(),
{
    let n = lines.len() as int;
    let total = total_graphemes(lines);
    lemma_total_le_text(lines);
    lemma_flat_to_rowcol(lines, 0);
    assert(grapheme_clusters(lines[0]).take(0) =~= Seq::<Seq<char>>::empty());
    assert(char_start(lines, 0) == 0);
    assert(row_start(lines, 0) == 0);
    lemma_flat_to_rowcol(lines, total);
    let rc = flat_to_rowcol(lines, total);
    lemma_row_start_succ(lines, n - 1);
    if rc.0 < n - 1 {
        lemma_row_start_monotone(lines, rc.0, n - 1);
    }
    assert(rc.0 == n - 1);
    let last = lines[n - 1];
    assert(segmented(last));
    assert(grapheme_clusters(last).take(grapheme_len(last) as int) =~= grapheme_clusters(last));
    assert(cluster_prefix(last, rc.1) == last);
    lemma_join_take_len(lines, n - 1);
    assert(lines.take(n) =~= lines);
    let t = join_lines(lines);
    assert(t.take(0) + t.skip(t.len() as int) =~= Seq::<char>::empty());
}

/// Inserting at a plain cursor puts the inserted text at the cursor's
/// character offset and keeps the rest of the text around it.
pub proof fn law_insert_at_cursor(s: TextState, t: TextState, ch: Seq<char>, ev: Option<crate::edit_spec::EditEvent>)
    requires
        s.wf(),
        s.collapsed(),
        !insert_refused(s, ch),
        insert_post(s, t, ch, ev),
    ensures
        ({
            let o = char_offset(s.lines, s.selection.active as int);
            t.text() == s.text().take(o) + ch + s.text().skip(o)
        }),
{
    lemma_split_join(s.lines);
}

/// Cursor movements keep a selection that lies in the text inside the text.
pub proof fn law_moves_stay_in_text(s: TextState, t: TextState, extend: bool)
    requires
        s.wf(),
        s.selection.active <= s.grapheme_count(),
        s.selection.anchor <= s.grapheme_count(),
        move_left_post(s, t, extend) || move_right_post(s, t, extend) || line_start_post(s, t, extend)
            || line_end_post(s, t, extend) || absolute_home_post(s, t, extend) || absolute_end_post(
            s,
            t,
            extend,
        ) || select_all_post(s, t),
    ensures
        t.selection.active <= t.grapheme_count(),
        t.selection.anchor <= t.grapheme_count(),
{
    let lines = s.lines;
    let n = lines.len() as int;
    lemma_total_le_text(lines);
    lemma_flat_to_rowcol(lines, s.selection.active as int);
    let row = s.cursor().0;
    lemma_row_start_succ(lines, n - 1);
    if row < n - 1 {
        lemma_row_start_monotone(lines, row, n - 1);
    }
    lemma_rowcol_to_flat_inverse(lines, row, 0);
    lemma_rowcol_to_flat_inverse(lines, row, grapheme_len(lines[row]) as int);
}

/// A path in the shape normalization gives: a prefix only first, a root
/// only first or right after the prefix, and neither `.` nor `..`.
pub open spec fn is_plain_path(p: Seq<ComponentView>) -> bool {
    forall|i: int|
        0 <= i < p.len() ==> !(#[trigger] p[i] is CurDir) && !(p[i] is ParentDir) && (p[i] is Prefix
            ==> i == 0) && (p[i] is RootDir ==> i == 0 || (i == 1 && p[0] is Prefix))
}

proof fn lemma_push_keeps_plain(p: Seq<ComponentView>, c: ComponentView)
    requires
        is_plain_path(p),
        !(c is CurDir),
        !(c is ParentDir),
    ensures
        is_plain_path(push_component(p, c)),
{
    let q = push_component(p, c);
    match c {
        ComponentView::Prefix(_) => {},
        ComponentView::RootDir => {
            assert(q =~= prefix_part(p).push(c));
        },
        _ => {
            assert forall|i: int| 0 <= i < q.len() implies !(#[trigger] q[i] is CurDir) && !(
            q[i] is ParentDir) && (q[i] is Prefix ==> i == 0) && (q[i] is RootDir ==> i == 0 || (i
                == 1 && q[0] is Prefix)) by {
                if i < p.len() {
                    assert(q[i] == p[i]);
                }
            }
        },
    }
}

proof fn lemma_normalized_plain(p: Seq<ComponentView>)
    ensures
        is_plain_path(normalized(p)),
    decreases p.len(),
{
    if p.len() > 0 {
        lemma_normalized_plain(p.drop_last());
        let out = normalized(p.drop_last());
        match p.last() {
            ComponentView::CurDir => {},
            ComponentView::ParentDir => {
                if out.len() > 0 && out.last() is Normal {
                    assert forall|i: int| 0 <= i < out.drop_last().len() implies !(
                    #[trigger] out.drop_last()[i] is CurDir) && !(out.drop_last()[i] is ParentDir)
                        && (out.drop_last()[i] is Prefix ==> i == 0) && (out.drop_last()[i] is RootDir
                        ==> i == 0 || (i == 1 && out.drop_last()[0] is Prefix)) by {
                        assert(out.drop_last()[i] == out[i]);
                    }
                }
            },
            _ => {
                lemma_push_keeps_plain(out, p.last());
            },
        }
    }
}

proof fn lemma_plain_is_normal(q: Seq<ComponentView>)
    requires
        is_plain_path(q),
    ensures
        normalized(q) == q,
    decreases q.len(),
{
    if q.len() > 0 {
        let r = q.drop_last();
        assert(is_plain_path(r)) by {
            assert forall|i: int| 0 <= i < r.len() implies !(#[trigger] r[i] is CurDir) && !(
            r[i] is ParentDir) && (r[i] is Prefix ==> i == 0) && (r[i] is RootDir ==> i == 0 || (i
                == 1 && r[0] is Prefix)) by {
                assert(r[i] == q[i]);
            }
        }
        lemma_plain_is_normal(r);
        let last = q[q.len() - 1];
        assert(!(last is CurDir) && !(last is ParentDir));
        match last {
            ComponentView::Prefix(_) => {
                assert(q =~= seq![last]);
            },
            ComponentView::RootDir => {
                if q.len() == 1 {
                    assert(q =~= prefix_part(r).push(last));
                } else {
                    assert(q.len() == 2 && q[0] is Prefix);
                    assert(q =~= prefix_part(r).push(last));
                }
            },
            _ => {
                assert(q =~= r.push(last));
            },
        }
    }
}

/// Lexical normalization leaves no `.` or `..` in a path, and normalizing
/// a normalized path changes nothing.
pub proof fn law_normalize_path(p: Seq<ComponentView>)
    ensures
        forall|i: int|
            0 <= i < normalized(p).len() ==> !(#[trigger] normalized(p)[i] is CurDir) && !(
            normalized(p)[i] is ParentDir),
        normalized(normalized(p)) == normalized(p),
{
    lemma_normalized_plain(p);
    lemma_plain_is_normal(normalized(p));
}

/// A string that a nonempty suffix has been trimmed from does not end with it.
proof fn lemma_trimmed_has_no_suffix(s: Seq<char>, suffix: Seq<char>)
    requires
        suffix.len() > 0,
    ensures
        !has_suffix(trim_suffixes(s, suffix), suffix),
    decreases s.len(),
{
    if has_suffix(s, suffix) {
        lemma_trimmed_has_no_suffix(s.subrange(0, s.len() - suffix.len()), suffix);
    }
}

/// An output path made an executable's name ends with `.exe` on Windows,
/// does not end with `.exe` on Linux, and does not end with `.app` on
/// macOS; on Windows and Linux, doing it again changes nothing.
pub proof fn law_output_extension(os: TargetOs, s: Seq<char>)
    ensures
        os == TargetOs::Windows ==> has_suffix(output_with_extension(os, s), ".exe"@),
        os == TargetOs::Linux ==> !has_suffix(output_with_extension(os, s), ".exe"@),
        os == TargetOs::MacOs ==> !has_suffix(output_with_extension(os, s), ".app"@),
        os != TargetOs::MacOs ==> output_with_extension(os, output_with_extension(os, s))
            == output_with_extension(os, s),
{
    reveal_strlit(".exe");
    reveal_strlit(".app");
    match os {
        TargetOs::Windows => {
            if !has_suffix(s, ".exe"@) {
                let t = s + ".exe"@;
                assert(t.subrange(t.len() - 4, t.len() as int) =~= ".exe"@);
            }
        },
        TargetOs::Linux => {
            lemma_trimmed_has_no_suffix(s, ".exe"@);
        },
        TargetOs::MacOs => {
            lemma_trimmed_has_no_suffix(trim_suffixes(s, ".exe"@), ".app"@);
        },
    }
}

/// The tag of a version starts with `v`, and names that version: the
/// version number of the tag of a version that does not itself start with
/// `v` is that version.
pub proof fn law_version_tag(v: Seq<char>)
    ensures
        version_tag_of(v).len() > 0 && version_tag_of(v)[0] == 'v',
        !(v.len() > 0 && v[0] == 'v') ==> version_number_of(version_tag_of(v)) == v,
{
    if !(v.len() > 0 && v[0] == 'v') {
        assert((seq!['v'] + v).drop_first() =~= v);
    }
}

/// A payload listing is ordered by path, and its paths use `/` only.
pub proof fn law_listing_ordered<T>(found: Seq<(String, T)>, out: Seq<(String, T)>, order: Seq<int>)
    requires
        is_listing_of(found, out, order),
    ensures
        forall|k: int, l: int|
            0 <= k < l < out.len() ==> !path_lt((#[trigger] out[l]).0@, (#[trigger] out[k]).0@),
        forall|k: int, m: int|
            0 <= k < out.len() && 0 <= m < out[k].0@.len() ==> #[trigger] out[k].0@[m] != '\\',
{
    assert forall|k: int, l: int| 0 <= k < l < out.len() implies !path_lt(
        (#[trigger] out[l]).0@,
        (#[trigger] out[k]).0@,
    ) by {
        let a = out[k].0@;
        let b = out[l].0@;
        assert(in_order(a, b, order[k], order[l]));
        lemma_path_lt_irreflexive(a);
        if path_lt(b, a) && path_lt(a, b) {
            lemma_path_lt_transitive(a, b, a);
        }
    }
}

/// The text a key that inserts puts in: the key's character, a space, a
/// line break, or four spaces for Tab.
pub open spec fn key_text(key: Key) -> Seq<char> {
    match key {
        Key::Character(c) => c@,
        Key::Named(NamedKey::Space) => seq![' '],
        Key::Named(NamedKey::Enter) => seq!['\n'],
        Key::Named(NamedKey::Tab) => seq![' ', ' ', ' ', ' '],
        _ => Seq::empty(),
    }
}

/// A key that inserts text does what inserting its text does: the buffer
/// ends as `insert` leaves it, the key reports an edit exactly when the
/// insert reports one, and otherwise is handled (a character or Space) or
/// ignored (Enter or Tab). Where the cursor would overflow, nothing changes
/// and the key is ignored.
pub proof fn law_key_inserts_like_insert(
    s: TextState,
    t: TextState,
    key: Key,
    modifiers: u32,
    r: KeyResult,
)
    requires
        key_inserts(key, modifiers),
        handle_key_post(s, t, key, modifiers, r),
    ensures
        insert_overflows(s, key_text(key)) ==> t == s && r is Ignored,
        !insert_overflows(s, key_text(key)) ==> insert_post(s, t, key_text(key), event_of(r)),
        !insert_overflows(s, key_text(key)) && !(r is Edit) ==> (if key is Character || key
            == Key::Named(NamedKey::Space) {
            r is Handled
        } else {
            r is Ignored
        }),
{
}

/// The text a selection covers: the characters between the offsets of
/// its ends.
pub open spec fn selected_chars(s: TextState) -> Seq<char> {
    s.text().subrange(
        char_offset(s.lines, s.selection.spec_start() as int),
        char_offset(s.lines, s.selection.spec_end() as int),
    )
}

/// Deleting a selection and inserting the text it covered restores the
/// text, with the cursor after the re-inserted text — wherever deleting
/// leaves the cursor at the character where the selection began (when the
/// clusters on both sides of the deleted text do not merge into one).
pub proof fn law_reinsert_restores_text(
    s0: TextState,
    s1: TextState,
    s2: TextState,
    ev: Option<EditEvent>,
)
    requires
        s0.wf(),
        s1.wf(),
        !s0.collapsed(),
        s0.max_length is None,
        s1.max_length == s0.max_length,
        selection_deleted(s0, s1),
        char_offset(s1.lines, s1.selection.active as int) == char_offset(
            s0.lines,
            s0.selection.spec_start() as int,
        ),
        insert_post(s1, s2, selected_chars(s0), ev),
    ensures
        s2.text() == s0.text(),
        ev is Some ==> s2.selection.anchor == s2.selection.active && s2.selection.active
            == s0.selection.spec_start() + grapheme_len(selected_chars(s0)),
{
    let t = s0.text();
    let o1 = char_offset(s0.lines, s0.selection.spec_start() as int);
    let o2 = char_offset(s0.lines, s0.selection.spec_end() as int);
    law_char_offsets_ordered(s0.lines, s0.selection.spec_start() as int, s0.selection.spec_end() as int);
    let t1 = t.take(o1) + t.skip(o2);
    assert(s1.text() == t1);
    law_text_determines_lines(s1.lines);
    let ch = selected_chars(s0);
    if !insert_refused(s1, ch) {
        assert(t1.take(o1) =~= t.take(o1));
        assert(t1.skip(o1) =~= t.skip(o2));
        assert(t1.take(o1) + ch + t1.skip(o1) =~= t);
    } else {
        assert(ch.len() == 0);
        assert(t1 =~= t);
    }
}

// ── Ctrl+A ──────────────────────────────────────────────────────────────

/// Ctrl with the character key "a", in either case, selects the whole text
/// and is reported as handled; Ctrl with any other single character that is
/// not an `a` changes nothing and is ignored.
pub proof fn law_ctrl_a_selects_all(s: TextState, t: TextState, c: String, modifiers: u32, r: KeyResult)
    requires
        modifiers & 1 != 0,
        handle_key_post(s, t, Key::Character(c), modifiers, r),
    ensures
        c@ == seq!['a'] || c@ == seq!['A'] ==> select_all_post(s, t) && r is Handled,
        c@.len() == 1 && c@[0] != 'a' && c@[0] != 'A' ==> t == s && r is Ignored,
{
    assert(is_a_letter(seq!['a']));
    assert(is_a_letter(seq!['A']));
}

// ── Word boundaries ─────────────────────────────────────────────────────

proof fn lemma_skip_blank_back(gs: Seq<Seq<char>>, p: int)
    requires
        0 <= p <= gs.len(),
    ensures
        0 <= skip_blank_back(gs, p) <= p,
        forall|j: int| skip_blank_back(gs, p) <= j < p ==> all_white_space(#[trigger] gs[j]),
        skip_blank_back(gs, p) == 0 || !all_white_space(gs[skip_blank_back(gs, p) - 1]),
    decreases p,
{
    if p > 0 && all_white_space(gs[p - 1]) {
        lemma_skip_blank_back(gs, p - 1);
    }
}

proof fn lemma_skip_word_back(gs: Seq<Seq<char>>, p: int)
    requires
        0 <= p <= gs.len(),
    ensures
        0 <= skip_word_back(gs, p) <= p,
        forall|j: int| skip_word_back(gs, p) <= j < p ==> !all_white_space(#[trigger] gs[j]),
        skip_word_back(gs, p) == 0 || all_white_space(gs[skip_word_back(gs, p) - 1]),
    decreases p,
{
    if p > 0 && !all_white_space(gs[p - 1]) {
        lemma_skip_word_back(gs, p - 1);
    }
}

proof fn lemma_skip_word_fwd(gs: Seq<Seq<char>>, p: int, bound: int)
    requires
        0 <= p <= bound <= gs.len(),
    ensures
        p <= skip_word_fwd(gs, p, bound) <= bound,
        forall|j: int| p <= j < skip_word_fwd(gs, p, bound) ==> !all_white_space(#[trigger] gs[j]),
        skip_word_fwd(gs, p, bound) == bound || all_white_space(gs[skip_word_fwd(gs, p, bound)]),
    decreases bound - p,
{
    if p < bound && !all_white_space(gs[p]) {
        lemma_skip_word_fwd(gs, p + 1, bound);
    }
}

proof fn lemma_skip_blank_fwd(gs: Seq<Seq<char>>, p: int, bound: int)
    requires
        0 <= p <= bound <= gs.len(),
    ensures
        p <= skip_blank_fwd(gs, p, bound) <= bound,
        forall|j: int| p <= j < skip_blank_fwd(gs, p, bound) ==> all_white_space(#[trigger] gs[j]),
        skip_blank_fwd(gs, p, bound) == bound || !all_white_space(gs[skip_blank_fwd(gs, p, bound)]),
    decreases bound - p,
{
    if p < bound && all_white_space(gs[p]) {
        lemma_skip_blank_fwd(gs, p + 1, bound);
    }
}

/// The word to the left of `p` (Ctrl+Left, Ctrl+Backspace) starts where a
/// word starts: before `p` lie, from the result on, a run of clusters that
/// are not white space (starting the text or after white space), then a
/// run of white space reaching `p` that all the white space directly
/// before `p` belongs to.
pub proof fn law_word_left_starts_a_word(gs: Seq<Seq<char>>, p: int)
    requires
        0 <= p <= gs.len(),
    ensures
        ({
            let q = word_left(gs, p);
            exists|m: int|
                #![trigger gs[m]]
                0 <= q <= m <= p
                && (forall|j: int| m <= j < p ==> all_white_space(#[trigger] gs[j]))
                && (m == 0 || !all_white_space(gs[m - 1]))
                && (forall|j: int| q <= j < m ==> !all_white_space(#[trigger] gs[j]))
                && (q == 0 || all_white_space(gs[q - 1]))
        }),
{
    lemma_skip_blank_back(gs, p);
    let m = skip_blank_back(gs, p);
    lemma_skip_word_back(gs, m);
    let q = skip_word_back(gs, m);
    let _ = gs[m];
}

/// The word to the right of `p` (Ctrl+Right, Ctrl+Delete) is reached by
/// passing the rest of the word at `p` (up to white space or `bound`) and
/// then all the white space after it (up to a word or `bound`).
pub proof fn law_word_right_ends_at_a_word(gs: Seq<Seq<char>>, p: int, bound: int)
    requires
        0 <= p <= bound <= gs.len(),
    ensures
        ({
            let r = word_right(gs, p, bound);
            exists|m: int|
                #![trigger gs[m]]
                p <= m <= r <= bound
                && (forall|j: int| p <= j < m ==> !all_white_space(#[trigger] gs[j]))
                && (m == bound || all_white_space(gs[m]))
                && (forall|j: int| m <= j < r ==> all_white_space(#[trigger] gs[j]))
                && (r == bound || !all_white_space(gs[r]))
        }),
{
    lemma_skip_word_fwd(gs, p, bound);
    let m = skip_word_fwd(gs, p, bound);
    lemma_skip_blank_fwd(gs, m, bound);
    let _ = gs[m];
}

// ── Single-line input ───────────────────────────────────────────────────

/// Dropping line breaks keeps every other character in order: it works
/// piece by piece, a line break becomes nothing, and a text without line
/// breaks is kept whole.
pub proof fn law_without_line_breaks(a: Seq<char>, b: Seq<char>)
    ensures
        without_line_breaks(a + b) == without_line_breaks(a) + without_line_breaks(b),
        without_line_breaks(seq!['\n']) == Seq::<char>::empty(),
        without_line_breaks(seq!['\r']) == Seq::<char>::empty(),
        (forall|i: int| 0 <= i < a.len() ==> #[trigger] a[i] != '\n' && a[i] != '\r')
            ==> without_line_breaks(a) == a,
    decreases b.len(),
{
    if b.len() > 0 {
        law_without_line_breaks(a, b.drop_last());
        assert((a + b).drop_last() =~= a + b.drop_last());
        assert((a + b).last() == b.last());
        if !(b.last() == '\n' || b.last() == '\r') {
            assert(without_line_breaks(a) + without_line_breaks(b.drop_last()).push(b.last())
                =~= (without_line_breaks(a) + without_line_breaks(b.drop_last())).push(b.last()));
        }
    } else {
        assert(a + b =~= a);
        assert(without_line_breaks(a) + Seq::<char>::empty() =~= without_line_breaks(a));
    }
    assert(seq!['\n'].drop_last() =~= Seq::<char>::empty());
    assert(seq!['\r'].drop_last() =~= Seq::<char>::empty());
    assert(without_line_breaks(Seq::<char>::empty()) == Seq::<char>::empty());
    assert(seq!['\n'].last() == '\n');
    assert(seq!['\r'].last() == '\r');
    assert(without_line_breaks(seq!['\n']) == without_line_breaks(seq!['\n'].drop_last()));
    assert(without_line_breaks(seq!['\r']) == without_line_breaks(seq!['\r'].drop_last()));
    lemma_kept_whole(a);
}

proof fn lemma_kept_whole(a: Seq<char>)
    ensures
        (forall|i: int| 0 <= i < a.len() ==> #[trigger] a[i] != '\n' && a[i] != '\r')
            ==> without_line_breaks(a) == a,
    decreases a.len(),
{
    if a.len() > 0 && (forall|i: int| 0 <= i < a.len() ==> #[trigger] a[i] != '\n' && a[i] != '\r') {
        let r = a.drop_last();
        assert forall|i: int| 0 <= i < r.len() implies #[trigger] r[i] != '\n' && r[i] != '\r' by {
            assert(r[i] == a[i]);
        }
        lemma_kept_whole(r);
        assert(a[a.len() - 1] != '\n' && a[a.len() - 1] != '\r');
        assert(r.push(a.last()) =~= a);
    }
}

// ── Argument routing ────────────────────────────────────────────────────

/// Every subcommand the command line defines (`run`, `build`, `pack`,
/// `upgrade`, `help`) is passed to the parser unchanged, whatever follows.
pub proof fn law_subcommands_pass_unchanged(raw: Seq<Seq<char>>)
    requires
        raw.len() >= 2,
        raw[1] == seq!['r', 'u', 'n'] || raw[1] == seq!['b', 'u', 'i', 'l', 'd'] || raw[1] == seq![
            'p',
            'a',
            'c',
            'k',
        ] || raw[1] == seq!['u', 'p', 'g', 'r', 'a', 'd', 'e'] || raw[1] == seq!['h', 'e', 'l', 'p'],
    ensures
        routed_args(raw) == Some(raw),
{
    reveal_strlit("run");
    reveal_strlit("build");
    reveal_strlit("pack");
    reveal_strlit("upgrade");
    reveal_strlit("help");
    assert("run"@ =~= seq!['r', 'u', 'n']);
    assert("build"@ =~= seq!['b', 'u', 'i', 'l', 'd']);
    assert("pack"@ =~= seq!['p', 'a', 'c', 'k']);
    assert("upgrade"@ =~= seq!['u', 'p', 'g', 'r', 'a', 'd', 'e']);
    assert("help"@ =~= seq!['h', 'e', 'l', 'p']);
}

/// A first argument that is none of the subcommands and no option is run
/// as a file: `run` goes in front of it, and everything is kept in order.
pub proof fn law_file_argument_is_run(raw: Seq<Seq<char>>)
    requires
        raw.len() >= 2,
        raw[1] != seq!['r', 'u', 'n'],
        raw[1] != seq!['b', 'u', 'i', 'l', 'd'],
        raw[1] != seq!['p', 'a', 'c', 'k'],
        raw[1] != seq!['u', 'p', 'g', 'r', 'a', 'd', 'e'],
        raw[1] != seq!['h', 'e', 'l', 'p'],
        !(raw[1].len() > 0 && raw[1][0] == '-'),
    ensures
        routed_args(raw) == Some(seq![raw[0], seq!['r', 'u', 'n']] + raw.subrange(1, raw.len() as int)),
{
    reveal_strlit("run");
    reveal_strlit("build");
    reveal_strlit("pack");
    reveal_strlit("upgrade");
    reveal_strlit("help");
    assert("run"@ =~= seq!['r', 'u', 'n']);
    assert("build"@ =~= seq!['b', 'u', 'i', 'l', 'd']);
    assert("pack"@ =~= seq!['p', 'a', 'c', 'k']);
    assert("upgrade"@ =~= seq!['u', 'p', 'g', 'r', 'a', 'd', 'e']);
    assert("help"@ =~= seq!['h', 'e', 'l', 'p']);
}

// ── Release asset names ─────────────────────────────────────────────────

/// The architecture part of a release asset's name depends on the
/// architecture alone: ARM64 is `arm64` and x86-64 is `x64` on every
/// operating system.
pub proof fn law_asset_name_architecture(os: TargetOs)
    ensures
        asset_name(os, TargetArch::Aarch64) == "uzumaki-"@ + os_label(os) + seq![
            '-',
            'a',
            'r',
            'm',
            '6',
            '4',
            '.',
            'z',
            'i',
            'p',
        ],
        asset_name(os, TargetArch::X86_64) == "uzumaki-"@ + os_label(os) + seq![
            '-',
            'x',
            '6',
            '4',
            '.',
            'z',
            'i',
            'p',
        ],
{
    reveal_strlit("-");
    reveal_strlit("arm64");
    reveal_strlit("x64");
    reveal_strlit(".zip");
    assert("uzumaki-"@ + os_label(os) + "-"@ + "arm64"@ + ".zip"@ =~= "uzumaki-"@ + os_label(os)
        + seq!['-', 'a', 'r', 'm', '6', '4', '.', 'z', 'i', 'p']);
    assert("uzumaki-"@ + os_label(os) + "-"@ + "x64"@ + ".zip"@ =~= "uzumaki-"@ + os_label(os)
        + seq!['-', 'x', '6', '4', '.', 'z', 'i', 'p']);
}

} // verus!
