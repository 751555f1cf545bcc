//! The text model: a line buffer with a selection, edited and navigated by
//! flat grapheme indices.

use crate::edit_spec::{
    absolute_end_post, absolute_home_post, clamp_to, delete_backward_post, delete_forward_post,
    delete_word_backward_post, delete_word_forward_post, insert_post, line_end_post, line_start_post,
    min_int, move_left_post, move_right_post, move_word_left_post, move_word_right_post,
    select_all_post, selection_deleted, insert_refused, insert_overflows, key_insert_post, handle_key_post,
    ctrl_held, key_inserts, Key, KeyResult, NamedKey, word_back_out_of_range, word_fwd_out_of_range,
    word_left_out_of_range, views, EditEvent, EditKind, TextState,
};
use crate::graphemes::{grapheme_clusters, grapheme_len, graphemes};
use crate::layout::{
    lemma_count_pos,
    lemma_join_append_last, lemma_join_len_ge, lemma_join_prepend_first, lemma_split_join, lemma_concat_no_newline, lemma_prefix_suffix_no_newline, lemma_wf_splice,
    lemma_flat_to_rowcol, lemma_flat_to_rowcol_monotone, lemma_prefix_extends, lemma_prefix_suffix,
    lemma_replace_between, newline,
    cluster_prefix, cluster_suffix, char_offset, flat_to_rowcol, join_lines,
    lemma_char_start_succ, lemma_grapheme_len_le, lemma_join_concat, lemma_join_take_len,
    lemma_row_in_text, lemma_row_start_le_char_start, lemma_row_start_succ, lemma_starts_nonneg,
    lemma_total_le_text, lines_wf, no_newline, row_start, rowcol_offset, rowcol_to_flat,
    segmented, total_graphemes,
};
use crate::selection::Selection;
use crate::strings::{eq_ignore_case_a, is_all_whitespace, push_char, push_str, split_newlines};
use crate::words::{
    lemma_word_left_moves, lemma_word_right_moves,
    lemma_skip_fwd_bounds, skip_blank_back, skip_blank_fwd, skip_word_back,
    skip_word_fwd, word_left, word_right,
};
use vstd::prelude::*;

verus! {

/// The characters of the strings `gs[from..to]`, concatenated.
pub open spec fn concat_views(gs: Seq<String>, from: int, to: int) -> Seq<char> {
    gs.map_values(|g: String| g@).subrange(from, to).flatten()
}

/// Concatenates the strings `gs[from..to]`.
fn concat_range(gs: &Vec<String>, from: usize, to: usize) -> (r: String)
    requires
        from <= to <= gs@.len(),
    ensures
        r@ == concat_views(gs@, from as int, to as int),
{
    let ghost views = gs@.map_values(|g: String| g@);
    let mut r = String::new();
    let mut k = from;
    assert(views.subrange(from as int, from as int) =~= Seq::<Seq<char>>::empty());
    while k < to
        invariant
            from <= k <= to <= gs@.len(),
            views == gs@.map_values(|g: String| g@),
            r@ == views.subrange(from as int, k as int).flatten(),
        decreases to - k,
    {
        push_str(&mut r, gs[k].as_str());
        proof {
            assert(views.subrange(from as int, k + 1) =~= views.subrange(from as int, k as int).push(views[k as int]));
            views.subrange(from as int, k as int).lemma_flatten_push(views[k as int]);
        }
        k = k + 1;
    }
    r
}

/// The characters of grapheme clusters `from..to` of `line`, as strings.
fn clusters_between(gs: &Vec<String>, line: &str, from: usize, to: usize) -> (r: String)
    requires
        gs@.map_values(|g: String| g@) == grapheme_clusters(line@),
        from <= to <= gs@.len(),
    ensures
        r@ == grapheme_clusters(line@).subrange(from as int, to as int).flatten(),
{
    concat_range(gs, from, to)
}

/// Splits `line` after its first `col` grapheme clusters.
fn split_line_at(line: &str, col: usize) -> (r: (String, String))
    requires
        col <= grapheme_len(line@),
    ensures
        r.0@ == cluster_prefix(line@, col as int),
        r.1@ == cluster_suffix(line@, col as int),
{
    let gs = graphemes(line);
    let p = clusters_between(&gs, line, 0, col);
    let s = clusters_between(&gs, line, col, gs.len());
    proof {
        let g = grapheme_clusters(line@);
        assert(g.subrange(0, col as int) =~= g.take(col as int));
        assert(g.subrange(col as int, g.len() as int) =~= g.skip(col as int));
    }
    (p, s)
}

/// Start of the word before `from` among the clusters `gs`.
fn scan_word_left(gs: &Vec<String>, from: usize) -> (pos: usize)
    requires
        from <= gs@.len(),
    ensures
        pos == word_left(views(gs@), from as int),
{
    let ghost v = views(gs@);
    let mut pos = from;
    while pos > 0 && is_all_whitespace(gs[pos - 1].as_str())
        invariant
            v == views(gs@),
            pos <= from <= gs@.len(),
            skip_blank_back(v, pos as int) == skip_blank_back(v, from as int),
        decreases pos,
    {
        pos = pos - 1;
    }
    let ghost mid = pos;
    while pos > 0 && !is_all_whitespace(gs[pos - 1].as_str())
        invariant
            v == views(gs@),
            pos <= mid <= gs@.len(),
            skip_blank_back(v, from as int) == mid,
            skip_word_back(v, pos as int) == skip_word_back(v, mid as int),
        decreases pos,
    {
        pos = pos - 1;
    }
    pos
}

/// Start of the word after `from` among the clusters `gs`, scanning below
/// `bound`. The scan stays inside `gs`: either `bound` does, or the scan
/// bounded by the clusters stops before their end.
fn scan_word_right(gs: &Vec<String>, from: usize, bound: usize) -> (pos: usize)
    requires
        bound > gs@.len() ==> word_right(views(gs@), from as int, gs@.len() as int) < gs@.len(),
    ensures
        pos == word_right(views(gs@), from as int, min_int(bound as int, gs@.len() as int)),
{
    let ghost v = views(gs@);
    let ghost b = min_int(bound as int, gs@.len() as int);
    let mut pos = from;
    proof {
        lemma_skip_fwd_bounds(v, from as int, gs@.len() as int);
        lemma_skip_fwd_bounds(v, skip_word_fwd(v, from as int, gs@.len() as int), gs@.len() as int);
    }
    while pos < bound && !is_all_whitespace(gs[pos].as_str())
        invariant
            v == views(gs@),
            b == min_int(bound as int, gs@.len() as int),
            from <= pos,
            pos <= b || pos == from,
            bound > gs@.len() ==> word_right(v, from as int, gs@.len() as int) < gs@.len(),
            bound > gs@.len() ==> pos <= skip_word_fwd(v, from as int, gs@.len() as int),
            bound > gs@.len() ==> skip_word_fwd(v, pos as int, gs@.len() as int) == skip_word_fwd(v, from as int, gs@.len() as int),
            skip_word_fwd(v, pos as int, b) == skip_word_fwd(v, from as int, b),
        decreases bound - pos,
    {
        proof {
            lemma_skip_fwd_bounds(v, pos + 1, gs@.len() as int);
        }
        pos = pos + 1;
    }
    let ghost mid = pos;
    proof {
        lemma_skip_fwd_bounds(v, mid as int, b);
    }
    while pos < bound && is_all_whitespace(gs[pos].as_str())
        invariant
            v == views(gs@),
            b == min_int(bound as int, gs@.len() as int),
            mid <= pos,
            pos <= b || pos == mid,
            skip_word_fwd(v, from as int, b) == mid,
            bound > gs@.len() ==> word_right(v, from as int, gs@.len() as int) < gs@.len(),
            bound > gs@.len() ==> pos <= word_right(v, from as int, gs@.len() as int),
            bound > gs@.len() ==> skip_blank_fwd(v, pos as int, gs@.len() as int) == word_right(v, from as int, gs@.len() as int),
            skip_blank_fwd(v, pos as int, b) == skip_blank_fwd(v, mid as int, b),
        decreases bound - pos,
    {
        proof {
            lemma_skip_fwd_bounds(v, pos + 1, gs@.len() as int);
        }
        pos = pos + 1;
    }
    pos
}

/// A multi-line text buffer with a selection.
///
/// The text is held as its lines (no line holds `'\n'`; there is always at
/// least one line). Positions are flat grapheme indices: the grapheme
/// clusters of each line, with one position for each line break.
pub struct TextModel {
    lines: Vec<String>,
    pub selection: Selection,
    pub max_length: Option<usize>,
}

impl View for TextModel {
    type V = TextState;

    closed spec fn view(&self) -> TextState {
        TextState {
            lines: self.lines@.map_values(|l: String| l@),
            selection: self.selection,
            max_length: self.max_length,
        }
    }
}

impl TextModel {
    /// The buffer is well formed (see `lines_wf`).
    pub open spec fn wf(&self) -> bool {
        self@.wf()
    }

    /// The whole text: the lines joined with `'\n'`.
    pub open spec fn text_view(&self) -> Seq<char> {
        self@.text()
    }

    /// Number of flat grapheme positions of the buffer.
    pub open spec fn spec_grapheme_count(&self) -> int {
        self@.grapheme_count()
    }

    /// The grapheme clusters of the whole text.
    pub open spec fn text_clusters(&self) -> Seq<Seq<char>> {
        self@.clusters()
    }

    /// An empty buffer with a cursor at 0 and no length limit.
    pub fn new() -> (m: Self)
        ensures
            m.wf(),
            m@.lines == seq![Seq::<char>::empty()],
            m.text_view() == Seq::<char>::empty(),
            m@.selection.anchor == 0,
            m@.selection.active == 0,
            m@.max_length is None,
    {
        let line = String::new();
        let _ = graphemes(line.as_str());
        let mut lines: Vec<String> = Vec::new();
        lines.push(line);
        let m = TextModel { lines, selection: Selection::new(), max_length: None };
        proof {
            assert(m@.lines =~= seq![Seq::<char>::empty()]);
            assert(no_newline(m@.lines[0]));
        }
        m
    }

    // ── Accessors ───────────────────────────────────────────────────

    /// The selection (the `selection` field).
    pub fn get_selection(&self) -> (s: Selection)
        ensures
            s == self@.selection,
    {
        Selection { anchor: self.selection.anchor, active: self.selection.active }
    }

    /// Sets the selection (the `selection` field); the text and the length
    /// limit stay as they are.
    pub fn set_selection(&mut self, selection: Selection)
        ensures
            final(self)@.lines == old(self)@.lines,
            final(self)@.max_length == old(self)@.max_length,
            final(self)@.selection == selection,
            final(self).wf() == old(self).wf(),
    {
        self.selection = selection;
    }

    /// The length limit in graphemes (the `max_length` field).
    pub fn get_max_length(&self) -> (m: Option<usize>)
        ensures
            m == self@.max_length,
    {
        self.max_length
    }

    /// Sets the length limit (the `max_length` field); the text and the
    /// selection stay as they are.
    pub fn set_max_length(&mut self, max_length: Option<usize>)
        ensures
            final(self)@.lines == old(self)@.lines,
            final(self)@.selection == old(self)@.selection,
            final(self)@.max_length == max_length,
            final(self).wf() == old(self).wf(),
    {
        self.max_length = max_length;
    }

    /// Full text as a single string (lines joined with `'\n'`).
    pub fn text(&self) -> (t: String)
        requires
            self.wf(),
        ensures
            t@ == self.text_view(),
    {
        let ghost lv = self@.lines;
        let n = self.lines.len();
        let mut t = String::new();
        let mut i: usize = 0;
        while i < n
            invariant
                n == self.lines@.len() == lv.len(),
                lv == self@.lines,
                0 <= i <= n,
                i == 0 ==> t@ == Seq::<char>::empty(),
                i > 0 ==> t@ == join_lines(lv.take(i as int)),
            decreases n - i,
        {
            proof {
                assert(lv[i as int] == self.lines@[i as int]@);
            }
            if i > 0 {
                push_char(&mut t, '\n');
                proof {
                    lemma_join_concat(lv.take(i as int), seq![lv[i as int]]);
                    assert(lv.take(i + 1) =~= lv.take(i as int) + seq![lv[i as int]]);
                }
            } else {
                assert(lv.take(1) =~= seq![lv[0]]);
            }
            push_str(&mut t, self.lines[i].as_str());
            i = i + 1;
        }
        proof {
            assert(lv.take(n as int) =~= lv);
        }
        t
    }

    /// Number of lines in the buffer.
    pub fn line_count(&self) -> (n: usize)
        ensures
            n == self@.lines.len(),
    {
        self.lines.len()
    }

    /// Content of line `row` (without its line break).
    pub fn line(&self, row: usize) -> (l: &str)
        requires
            row < self@.lines.len(),
        ensures
            l@ == self@.lines[row as int],
    {
        self.lines[row].as_str()
    }

    /// Grapheme count of line `row`.
    fn line_grapheme_count(&self, row: usize) -> (n: usize)
        requires
            row < self@.lines.len(),
        ensures
            n == grapheme_len(self@.lines[row as int]),
    {
        let gs = graphemes(self.lines[row].as_str());
        gs.len()
    }

    /// Total grapheme count across all lines (one position per line break included).
    pub fn grapheme_count(&self) -> (n: usize)
        requires
            self.wf(),
        ensures
            n == self.spec_grapheme_count(),
    {
        let ghost lv = self@.lines;
        let len = self.lines.len();
        let mut count: usize = 0;
        let mut i: usize = 0;
        proof {
            lemma_total_le_text(lv);
            assert(row_start(lv, 0) == 0);
        }
        while i < len
            invariant
                len == self@.lines.len() == lv.len(),
                lv == self@.lines,
                lines_wf(lv),
                0 <= i <= len,
                i < len ==> count == row_start(lv, i as int),
                i == len ==> count == total_graphemes(lv),
            decreases len - i,
        {
            let g = self.line_grapheme_count(i);
            proof {
                lemma_row_start_succ(lv, i as int);
                lemma_row_start_le_char_start(lv, i as int + 1);
                lemma_total_le_text(lv);
                if i + 1 < len {
                    lemma_row_in_text(lv, i as int + 1);
                    lemma_starts_nonneg(lv, i as int + 1);
                }
            }
            if i < len - 1 {
                count = count + g + 1;
            } else {
                count = count + g;
            }
            i = i + 1;
        }
        count
    }

    // ── Coordinate conversion ───────────────────────────────────────

    /// Converts a flat grapheme index to (row, column); an index past the
    /// end lands at the end of the last line.
    pub fn flat_to_rowcol(&self, idx: usize) -> (rc: (usize, usize))
        requires
            self.wf(),
        ensures
            rc.0 as int == flat_to_rowcol(self@.lines, idx as int).0,
            rc.1 as int == flat_to_rowcol(self@.lines, idx as int).1,
    {
        let ghost lv = self@.lines;
        let n = self.lines.len();
        let mut remaining = idx;
        let mut row: usize = 0;
        proof {
            assert(lv.skip(0) =~= lv);
        }
        loop
            invariant
                n == lv.len() >= 1,
                lv == self@.lines,
                row < n,
                remaining >= 0,
                flat_to_rowcol(lv, idx as int) == (
                    flat_to_rowcol(lv.skip(row as int), remaining as int).0 + row,
                    flat_to_rowcol(lv.skip(row as int), remaining as int).1,
                ),
            decreases n - row,
        {
            let line_len = self.line_grapheme_count(row);
            proof {
                assert(lv.skip(row as int)[0] == lv[row as int]);
            }
            if remaining <= line_len {
                return (row, remaining);
            }
            if row == n - 1 {
                return (row, line_len);
            }
            proof {
                assert(lv.skip(row as int).drop_first() =~= lv.skip(row + 1));
            }
            remaining = remaining - (line_len + 1);
            row = row + 1;
        }
    }

    /// Converts (row, column) to a flat grapheme index; the row is clamped
    /// to the last line and the column to that line's length.
    pub fn rowcol_to_flat(&self, row: usize, col: usize) -> (flat: usize)
        requires
            self.wf(),
        ensures
            flat == rowcol_to_flat(self@.lines, row as int, col as int),
    {
        let ghost lv = self@.lines;
        let n = self.lines.len();
        let lim = if row < n { row } else { n };
        let mut flat: usize = 0;
        let mut r: usize = 0;
        proof {
            assert(row_start(lv, 0) == 0);
            lemma_total_le_text(lv);
        }
        while r < lim
            invariant
                n == lv.len() >= 1,
                lv == self@.lines,
                lines_wf(lv),
                lim <= n,
                r <= lim,
                flat == row_start(lv, r as int),
            decreases lim - r,
        {
            let g = self.line_grapheme_count(r);
            proof {
                lemma_row_start_succ(lv, r as int);
                lemma_row_start_le_char_start(lv, r + 1);
                if r + 1 < n {
                    lemma_row_in_text(lv, r + 1);
                } else {
                    lemma_join_take_len(lv, r as int);
                    lemma_char_start_succ(lv, r as int);
                    assert(lv.take(r + 1) =~= lv);
                }
            }
            flat = flat + g + 1;
            r = r + 1;
        }
        let clamped = if row < n - 1 { row } else { n - 1 };
        let g = self.line_grapheme_count(clamped);
        proof {
            assert(segmented(lv[clamped as int]));
            lemma_grapheme_len_le(lv[clamped as int]);
            lemma_row_start_le_char_start(lv, lim as int);
            lemma_join_take_len(lv, clamped as int);
            if lim < n {
                lemma_row_in_text(lv, lim as int);
            } else {
                lemma_char_start_succ(lv, n - 1);
                assert(lv.take(n as int) =~= lv);
            }
            lemma_row_in_text(lv, clamped as int);
            lemma_row_in_text(lv, n - 1);
            assert(isize::MAX + isize::MAX + 1 == usize::MAX);
            lemma_starts_nonneg(lv, clamped as int);
        }
        flat + if col < g { col } else { g }
    }

    // ── Selected text ───────────────────────────────────────────────

    /// The selected text: the characters of the text between the character
    /// offsets of the selection's two ends.
    pub fn selected_text(&self) -> (r: String)
        requires
            self.wf(),
        ensures
            self@.selection.anchor == self@.selection.active ==> r@ == Seq::<char>::empty(),
            self@.selection.anchor != self@.selection.active ==> r@ == self.text_view().subrange(
                char_offset(self@.lines, self@.selection.spec_start() as int),
                char_offset(self@.lines, self@.selection.spec_end() as int),
            ),
    {
        if self.selection.is_collapsed() {
            return String::new();
        }
        let ghost lv = self@.lines;
        let ghost t = self.text_view();
        let start = self.selection.start();
        let end = self.selection.end();
        let (sr, sc) = self.flat_to_rowcol(start);
        let (er, ec) = self.flat_to_rowcol(end);
        proof {
            lemma_flat_to_rowcol(lv, start as int);
            lemma_flat_to_rowcol(lv, end as int);
            lemma_flat_to_rowcol_monotone(lv, start as int, end as int);
        }
        if sr == er {
            let line = self.lines[sr].as_str();
            let gs = graphemes(line);
            let r = clusters_between(&gs, line, sc, ec);
            proof {
                let l = lv[sr as int];
                lemma_prefix_extends(l, sc as int, ec as int);
                lemma_prefix_suffix(l, ec as int);
                assert(join_lines(seq![l]) == l);
                assert(cluster_prefix(l, sc as int) + r@ + cluster_suffix(l, ec as int) =~= l);
                self.lemma_range_is_text(sr as int, sc as int, er as int, ec as int, r@);
            }
            return r;
        }
        let (_, first_rest) = split_line_at(self.lines[sr].as_str(), sc);
        let mut result = first_rest;
        push_char(&mut result, '\n');
        let ghost p = cluster_prefix(lv[sr as int], sc as int);
        proof {
            lemma_prefix_suffix(lv[sr as int], sc as int);
            assert(lv.subrange(sr as int, sr + 1) =~= seq![lv[sr as int]]);
            assert(p + result@ =~= join_lines(lv.subrange(sr as int, sr + 1)) + newline());
        }
        let mut r = sr + 1;
        while r < er
            invariant
                lv == self@.lines,
                lines_wf(lv),
                sr < r <= er < lv.len(),
                p + result@ == join_lines(lv.subrange(sr as int, r as int)) + newline(),
            decreases er - r,
        {
            push_str(&mut result, self.lines[r].as_str());
            push_char(&mut result, '\n');
            proof {
                lemma_join_concat(lv.subrange(sr as int, r as int), seq![lv[r as int]]);
                assert(lv.subrange(sr as int, r + 1) =~= lv.subrange(sr as int, r as int) + seq![lv[r as int]]);
                assert(p + result@ =~= join_lines(lv.subrange(sr as int, r + 1)) + newline());
            }
            r = r + 1;
        }
        let (last_head, _) = split_line_at(self.lines[er].as_str(), ec);
        push_str(&mut result, last_head.as_str());
        proof {
            let le = lv[er as int];
            lemma_prefix_suffix(le, ec as int);
            lemma_join_concat(lv.subrange(sr as int, er as int), seq![le]);
            assert(lv.subrange(sr as int, er + 1) =~= lv.subrange(sr as int, er as int) + seq![le]);
            assert(p + result@ + cluster_suffix(le, ec as int) =~= join_lines(lv.subrange(sr as int, er + 1)));
            self.lemma_range_is_text(sr as int, sc as int, er as int, ec as int, result@);
        }
        result
    }

    /// When rows `sr..=er` join to the kept prefix of row `sr`, then `x`, then
    /// the kept suffix of row `er`, `x` is the text between the two offsets.
    proof fn lemma_range_is_text(&self, sr: int, sc: int, er: int, ec: int, x: Seq<char>)
        requires
            self.wf(),
            0 <= sr <= er < self@.lines.len(),
            0 <= sc <= grapheme_len(self@.lines[sr]),
            0 <= ec <= grapheme_len(self@.lines[er]),
            sr == er ==> sc <= ec,
            join_lines(self@.lines.subrange(sr, er + 1)) == cluster_prefix(self@.lines[sr], sc) + x
                + cluster_suffix(self@.lines[er], ec),
        ensures
            x == self.text_view().subrange(
                rowcol_offset(self@.lines, sr, sc),
                rowcol_offset(self@.lines, er, ec),
            ),
    {
        let lv = self@.lines;
        let t = self.text_view();
        let m = lv.subrange(sr, er + 1);
        lemma_replace_between(lv, sr, sc, er, ec, m, x);
        assert(lv.take(sr) + m + lv.skip(er + 1) =~= lv);
        let o1 = rowcol_offset(lv, sr, sc);
        let o2 = rowcol_offset(lv, er, ec);
        assert(t == t.take(o1) + x + t.skip(o2));
        assert forall|i: int| 0 <= i < x.len() implies #[trigger] x[i] == t.subrange(o1, o2)[i] by {
            assert(t[o1 + i] == (t.take(o1) + x + t.skip(o2))[o1 + i]);
        }
        assert(x =~= t.subrange(o1, o2));
    }

    // ── Editing ─────────────────────────────────────────────────────

    /// Deletes the selected text; returns true if the selection was not
    /// collapsed. The text loses exactly the characters between the
    /// offsets of the selection's ends, and the cursor lands at the start.
    pub fn delete_selection(&mut self) -> (deleted: bool)
        requires
            old(self).wf(),
        ensures
            final(self).wf(),
            final(self).text_view().len() <= old(self).text_view().len(),
            deleted == (old(self)@.selection.anchor != old(self)@.selection.active),
            !deleted ==> final(self)@ == old(self)@,
            deleted ==> selection_deleted(old(self)@, final(self)@),
            final(self)@.max_length == old(self)@.max_length,
    {
        if self.selection.is_collapsed() {
            return false;
        }
        let ghost lv = self@.lines;
        let start = self.selection.start();
        let end = self.selection.end();
        let (sr, sc) = self.flat_to_rowcol(start);
        let (er, ec) = self.flat_to_rowcol(end);
        proof {
            lemma_flat_to_rowcol(lv, start as int);
            lemma_flat_to_rowcol(lv, end as int);
            lemma_flat_to_rowcol_monotone(lv, start as int, end as int);
        }
        let (head, _) = split_line_at(self.lines[sr].as_str(), sc);
        let (_, tail) = split_line_at(self.lines[er].as_str(), ec);
        let mut merged = head;
        push_str(&mut merged, tail.as_str());
        let _ = graphemes(merged.as_str());
        let ghost m = seq![merged@];
        proof {
            lemma_prefix_suffix_no_newline(lv[sr as int], sc as int);
            lemma_prefix_suffix_no_newline(lv[er as int], ec as int);
            lemma_concat_no_newline(cluster_prefix(lv[sr as int], sc as int), cluster_suffix(lv[er as int], ec as int));
            assert(join_lines(m) =~= cluster_prefix(lv[sr as int], sc as int) + Seq::<char>::empty()
                + cluster_suffix(lv[er as int], ec as int));
            lemma_replace_between(lv, sr as int, sc as int, er as int, ec as int, m, Seq::<char>::empty());
        }
        self.lines.set(sr, merged);
        proof {
            assert(self@.lines =~= lv.take(sr as int) + m + lv.skip(sr + 1));
        }
        let mut k = sr;
        while k < er
            invariant
                sr <= k <= er < lv.len(),
                m.len() == 1,
                self@.lines == lv.take(sr as int) + m + lv.skip(k + 1),
                self.lines@.len() == self@.lines.len(),
                self.selection == old(self).selection,
                self.max_length == old(self).max_length,
            decreases er - k,
        {
            proof {
                assert((lv.take(sr as int) + m + lv.skip(k + 1)).len() == lv.len() + sr - k);
            }
            let ghost before = self@.lines;
            self.lines.remove(sr + 1);
            proof {
                assert(self@.lines =~= before.remove(sr + 1));
                assert(self@.lines =~= lv.take(sr as int) + m + lv.skip(k + 2));
            }
            k = k + 1;
        }
        proof {
            lemma_wf_splice(lv, sr as int, er as int, m);
        }
        self.selection.set_cursor(start);
        true
    }

    /// Replaces the whole text by `value`. When the text changes, the
    /// selection ends are clamped to the new grapheme count.
    pub fn set_value(&mut self, value: String)
        requires
            old(self).wf(),
            value@.len() <= isize::MAX,
        ensures
            final(self).wf(),
            final(self).text_view() == value@,
            old(self).text_view() == value@ ==> final(self)@ == old(self)@,
            old(self).text_view() != value@ ==> final(self)@.selection == (Selection {
                anchor: clamp_to(old(self)@.selection.anchor, final(self).spec_grapheme_count()),
                active: clamp_to(old(self)@.selection.active, final(self).spec_grapheme_count()),
            }),
            final(self)@.max_length == old(self)@.max_length,
    {
        let current = self.text();
        if current == value {
            return;
        }
        let mut pieces = split_newlines(value.as_str());
        let ghost pv = pieces@.map_values(|p: String| p@);
        let mut i: usize = 0;
        while i < pieces.len()
            invariant
                pv == pieces@.map_values(|p: String| p@),
                0 <= i <= pieces@.len(),
                forall|j: int| 0 <= j < i ==> segmented(#[trigger] pv[j]),
            decreases pieces@.len() - i,
        {
            let _ = graphemes(pieces[i].as_str());
            i = i + 1;
        }
        if pieces.len() == 0 {
            let empty = String::new();
            let _ = graphemes(empty.as_str());
            pieces.push(empty);
        }
        self.lines = pieces;
        proof {
            assert(self@.lines == pv);
            assert forall|j: int| 0 <= j < pv.len() implies no_newline(#[trigger] pv[j]) by {
                assert(pv[j] == pieces@[j]@);
            }
        }
        let count = self.grapheme_count();
        if self.selection.active > count {
            self.selection.active = count;
        }
        if self.selection.anchor > count {
            self.selection.anchor = count;
        }
    }

    /// Inserts `ch` at the cursor, replacing the selection. Nothing happens
    /// for an empty `ch`, or when a length limit is set and the text would
    /// exceed it.
    pub fn insert(&mut self, ch: &str) -> (ev: Option<EditEvent>)
        requires
            old(self).wf(),
            old(self).text_view().len() + ch@.len() <= isize::MAX,
            !insert_refused(old(self)@, ch@) ==> old(self)@.selection.spec_start() + grapheme_len(ch@) <= usize::MAX,
            old(self)@.max_length is Some ==> old(self)@.selection.spec_end() - old(self)@.selection.spec_start()
                <= old(self).spec_grapheme_count(),
        ensures
            final(self).wf(),
            insert_post(old(self)@, final(self)@, ch@, ev),
    {
        if ch.is_empty() {
            return None;
        }
        if let Some(max) = self.max_length {
            let current = self.grapheme_count() - (self.selection.end() - self.selection.start());
            let insert_count = graphemes(ch).len();
            proof {
                lemma_total_le_text(self@.lines);
                lemma_grapheme_len_le(ch@);
            }
            if current + insert_count > max {
                return None;
            }
        }
        let ghost sel = self@.selection;
        let ghost t0 = self.text_view();
        self.delete_selection();
        let ghost l1 = self@.lines;
        let ghost t1 = self.text_view();
        proof {
            lemma_split_join(l1);
            lemma_flat_to_rowcol(l1, sel.spec_start() as int);
        }
        let (row, col) = self.flat_to_rowcol(self.selection.active);
        let insert_lines = split_newlines(ch);
        let ghost pv = insert_lines@.map_values(|p: String| p@);
        let k = insert_lines.len();
        let (before, after) = split_line_at(self.lines[row].as_str(), col);
        let ghost b = before@;
        let ghost a = after@;
        let ghost m = pv.update(0, b + pv[0]).update(k - 1, pv.update(0, b + pv[0])[k - 1] + a);
        proof {
            lemma_join_prepend_first(pv, b);
            lemma_join_append_last(pv.update(0, b + pv[0]), a);
            lemma_replace_between(l1, row as int, col as int, row as int, col as int, m, ch@);
            lemma_prefix_suffix_no_newline(l1[row as int], col as int);
            assert(join_lines(l1.take(row as int) + m + l1.skip(row + 1)).len() <= isize::MAX);
            lemma_join_len_ge(l1.take(row as int) + m + l1.skip(row + 1));
        }
        if k == 1 {
            let mut new_line = before;
            push_str(&mut new_line, insert_lines[0].as_str());
            push_str(&mut new_line, after.as_str());
            let _ = graphemes(new_line.as_str());
            self.lines.set(row, new_line);
            proof {
                assert(m =~= seq![b + pv[0] + a]);
                assert(self@.lines =~= l1.take(row as int) + m + l1.skip(row + 1));
                lemma_concat_no_newline(b, pv[0]);
                lemma_concat_no_newline(b + pv[0], a);
                lemma_wf_splice(l1, row as int, row as int, m);
            }
        } else {
            let mut first = before;
            push_str(&mut first, insert_lines[0].as_str());
            let _ = graphemes(first.as_str());
            self.lines.set(row, first);
            proof {
                assert(self@.lines =~= l1.take(row as int) + m.take(1) + l1.skip(row + 1));
            }
            let ghost sel1 = self.selection;
            let mut i: usize = 1;
            while i < k
                invariant
                    self.selection == sel1,
                    self.max_length == old(self).max_length,
                    1 <= i <= k == insert_lines@.len() == pv.len() == m.len(),
                    pv == insert_lines@.map_values(|p: String| p@),
                    m == pv.update(0, b + pv[0]).update(k - 1, pv.update(0, b + pv[0])[k - 1] + a),
                    a == after@,
                    row < l1.len(),
                    (l1.take(row as int) + m + l1.skip(row + 1)).len() <= isize::MAX + 1,
                    self@.lines == l1.take(row as int) + m.take(i as int) + l1.skip(row + 1),
                    self.lines@.len() == self@.lines.len(),
                    forall|j: int| 0 <= j < i ==> segmented(#[trigger] m[j]),
                decreases k - i,
            {
                let ghost prev = self@.lines;
                proof {
                    assert(prev.len() == row + i + (l1.len() - row - 1));
                }
                if i < k - 1 {
                    let piece = insert_lines[i].clone();
                    let _ = graphemes(piece.as_str());
                    proof {
                        assert(piece@ == m[i as int]);
                    }
                    self.lines.insert(row + i, piece);
                } else {
                    let mut last = insert_lines[i].clone();
                    push_str(&mut last, after.as_str());
                    let _ = graphemes(last.as_str());
                    proof {
                        assert(last@ == m[i as int]);
                    }
                    self.lines.insert(row + i, last);
                }
                proof {
                    assert(self@.lines =~= prev.insert(row + i, m[i as int]));
                    assert(self@.lines =~= l1.take(row as int) + m.take(i + 1) + l1.skip(row + 1));
                }
                i = i + 1;
            }
            proof {
                assert(m.take(k as int) =~= m);
                assert forall|j: int| 0 <= j < m.len() implies no_newline(#[trigger] m[j]) by {
                    assert(no_newline(pv[j]));
                    if j == 0 {
                        lemma_concat_no_newline(b, pv[0]);
                    } else if j == k - 1 {
                        lemma_concat_no_newline(pv[j], a);
                    }
                }
                lemma_wf_splice(l1, row as int, row as int, m);
            }
        }
        let inserted_graphemes = graphemes(ch).len();
        self.selection.active = self.selection.active + inserted_graphemes;
        self.selection.anchor = self.selection.active;
        Some(EditEvent { kind: EditKind::Insert, inserted: Some(ch.to_owned()) })
    }

    /// Backspace: deletes the selection if there is one, else the grapheme
    /// (or line break) before the cursor.
    pub fn delete_backward(&mut self) -> (ev: Option<EditEvent>)
        requires
            old(self).wf(),
            old(self)@.selection.anchor == old(self)@.selection.active && old(self)@.selection.active > 0
                ==> old(self).text_view().len() > 0,
        ensures
            final(self).wf(),
            delete_backward_post(old(self)@, final(self)@, ev),
    {
        if self.delete_selection() {
            return Some(EditEvent { kind: EditKind::DeleteBackward, inserted: None });
        }
        if self.selection.active == 0 {
            return None;
        }
        let ghost lv = self@.lines;
        let (row, col) = self.flat_to_rowcol(self.selection.active);
        proof {
            lemma_flat_to_rowcol(lv, self.selection.active as int);
            lemma_total_le_text(lv);
        }
        if col == 0 {
            proof {
                if row == 0 {
                    // only an empty text puts a positive index at (0, 0)
                    assert(row_start(lv, 0) == 0);
                    lemma_count_pos(lv);
                    assert(false);
                }
            }
            let current_line = self.lines.remove(row);
            let mut prev = self.lines[row - 1].clone();
            push_str(&mut prev, current_line.as_str());
            let _ = graphemes(prev.as_str());
            let ghost m = seq![prev@];
            let ghost up = lv[row - 1];
            proof {
                assert(segmented(up));
                assert(segmented(lv[row as int]));
                assert(grapheme_clusters(up).take(grapheme_len(up) as int) =~= grapheme_clusters(up));
                assert(grapheme_clusters(lv[row as int]).skip(0) =~= grapheme_clusters(lv[row as int]));
                assert(grapheme_clusters(lv[row as int]).take(0) =~= Seq::<Seq<char>>::empty());
                assert(join_lines(m) =~= cluster_prefix(up, grapheme_len(up) as int) + Seq::<char>::empty()
                    + cluster_suffix(lv[row as int], 0));
                lemma_replace_between(lv, row - 1, grapheme_len(up) as int, row as int, 0, m, Seq::<char>::empty());
                lemma_char_start_succ(lv, row - 1);
                lemma_concat_no_newline(up, lv[row as int]);
            }
            self.lines.set(row - 1, prev);
            proof {
                assert(self@.lines =~= lv.take(row - 1) + m + lv.skip(row + 1));
                lemma_wf_splice(lv, row - 1, row as int, m);
            }
        } else {
            let line = self.lines[row].as_str();
            let (head, _) = split_line_at(line, col - 1);
            let (_, tail) = split_line_at(line, col);
            let mut new_line = head;
            push_str(&mut new_line, tail.as_str());
            let _ = graphemes(new_line.as_str());
            let ghost m = seq![new_line@];
            proof {
                let l = lv[row as int];
                lemma_prefix_suffix_no_newline(l, col - 1);
                lemma_prefix_suffix_no_newline(l, col as int);
                lemma_concat_no_newline(cluster_prefix(l, col - 1), cluster_suffix(l, col as int));
                assert(join_lines(m) =~= cluster_prefix(l, col - 1) + Seq::<char>::empty() + cluster_suffix(l, col as int));
                lemma_replace_between(lv, row as int, col - 1, row as int, col as int, m, Seq::<char>::empty());
            }
            self.lines.set(row, new_line);
            proof {
                assert(self@.lines =~= lv.take(row as int) + m + lv.skip(row + 1));
                lemma_wf_splice(lv, row as int, row as int, m);
            }
        }
        self.selection.active = self.selection.active - 1;
        self.selection.anchor = self.selection.active;
        Some(EditEvent { kind: EditKind::DeleteBackward, inserted: None })
    }

    /// Delete: deletes the selection if there is one, else the grapheme (or
    /// line break) at the cursor.
    pub fn delete_forward(&mut self) -> (ev: Option<EditEvent>)
        requires
            old(self).wf(),
        ensures
            final(self).wf(),
            delete_forward_post(old(self)@, final(self)@, ev),
    {
        if self.delete_selection() {
            return Some(EditEvent { kind: EditKind::DeleteForward, inserted: None });
        }
        let count = self.grapheme_count();
        if self.selection.active >= count {
            return None;
        }
        let ghost lv = self@.lines;
        let (row, col) = self.flat_to_rowcol(self.selection.active);
        proof {
            lemma_flat_to_rowcol(lv, self.selection.active as int);
            lemma_total_le_text(lv);
        }
        let line_len = self.line_grapheme_count(row);
        if col == line_len && row < self.lines.len() - 1 {
            let next_line = self.lines.remove(row + 1);
            let mut cur = self.lines[row].clone();
            push_str(&mut cur, next_line.as_str());
            let _ = graphemes(cur.as_str());
            let ghost m = seq![cur@];
            let ghost l = lv[row as int];
            let ghost nx = lv[row + 1];
            proof {
                assert(segmented(l));
                assert(segmented(nx));
                assert(grapheme_clusters(l).take(line_len as int) =~= grapheme_clusters(l));
                assert(grapheme_clusters(nx).skip(0) =~= grapheme_clusters(nx));
                assert(grapheme_clusters(nx).take(0) =~= Seq::<Seq<char>>::empty());
                assert(join_lines(m) =~= cluster_prefix(l, line_len as int) + Seq::<char>::empty()
                    + cluster_suffix(nx, 0));
                lemma_replace_between(lv, row as int, line_len as int, row + 1, 0, m, Seq::<char>::empty());
                lemma_char_start_succ(lv, row as int);
                lemma_concat_no_newline(l, nx);
            }
            self.lines.set(row, cur);
            proof {
                assert(self@.lines =~= lv.take(row as int) + m + lv.skip(row + 2));
                lemma_wf_splice(lv, row as int, row + 1, m);
            }
        } else {
            proof {
                if col == line_len {
                    lemma_row_start_succ(lv, row as int);
                    assert(false);
                }
            }
            let line = self.lines[row].as_str();
            let (head, _) = split_line_at(line, col);
            let (_, tail) = split_line_at(line, col + 1);
            let mut new_line = head;
            push_str(&mut new_line, tail.as_str());
            let _ = graphemes(new_line.as_str());
            let ghost m = seq![new_line@];
            proof {
                let l = lv[row as int];
                lemma_prefix_suffix_no_newline(l, col as int);
                lemma_prefix_suffix_no_newline(l, col + 1);
                lemma_concat_no_newline(cluster_prefix(l, col as int), cluster_suffix(l, col + 1));
                assert(join_lines(m) =~= cluster_prefix(l, col as int) + Seq::<char>::empty() + cluster_suffix(l, col + 1));
                lemma_replace_between(lv, row as int, col as int, row as int, col + 1, m, Seq::<char>::empty());
            }
            self.lines.set(row, new_line);
            proof {
                assert(self@.lines =~= lv.take(row as int) + m + lv.skip(row + 1));
                lemma_wf_splice(lv, row as int, row as int, m);
            }
        }
        Some(EditEvent { kind: EditKind::DeleteForward, inserted: None })
    }

    /// Segments the whole text.
    fn text_graphemes(&self) -> (gs: Vec<String>)
        requires
            self.wf(),
        ensures
            views(gs@) == self.text_clusters(),
    {
        let text = self.text();
        graphemes(text.as_str())
    }

    /// Ctrl+Backspace: deletes the selection if there is one, else back to
    /// the start of the word before the cursor (over white space first).
    /// Word positions are indices into the clusters of the whole text.
    pub fn delete_word_backward(&mut self) -> (ev: Option<EditEvent>)
        requires
            old(self).wf(),
            old(self)@.selection.anchor == old(self)@.selection.active ==> old(self)@.selection.active
                <= old(self).text_clusters().len(),
        ensures
            final(self).wf(),
            delete_word_backward_post(old(self)@, final(self)@, ev),
    {
        if self.delete_selection() {
            return Some(EditEvent { kind: EditKind::DeleteWordBackward, inserted: None });
        }
        if self.selection.active == 0 {
            return None;
        }
        let gs = self.text_graphemes();
        let end = self.selection.active;
        let pos = scan_word_left(&gs, end);
        proof {
            lemma_word_left_moves(views(gs@), end as int);
        }
        self.selection.anchor = pos;
        self.selection.active = end;
        self.delete_selection();
        Some(EditEvent { kind: EditKind::DeleteWordBackward, inserted: None })
    }

    /// Ctrl+Delete: deletes the selection if there is one, else forward to
    /// the start of the next word (over the word, then white space). The
    /// scan is bounded by the flat grapheme count and reads the clusters of
    /// the whole text.
    pub fn delete_word_forward(&mut self) -> (ev: Option<EditEvent>)
        requires
            old(self).wf(),
            old(self)@.selection.anchor == old(self)@.selection.active && old(self)@.selection.active
                < old(self).spec_grapheme_count() && old(self).spec_grapheme_count()
                > old(self).text_clusters().len() ==> word_right(
                old(self).text_clusters(),
                old(self)@.selection.active as int,
                old(self).text_clusters().len() as int,
            ) < old(self).text_clusters().len(),
        ensures
            final(self).wf(),
            delete_word_forward_post(old(self)@, final(self)@, ev),
    {
        if self.delete_selection() {
            return Some(EditEvent { kind: EditKind::DeleteWordForward, inserted: None });
        }
        let count = self.grapheme_count();
        if self.selection.active >= count {
            return None;
        }
        let gs = self.text_graphemes();
        let start = self.selection.active;
        let pos = scan_word_right(&gs, start, count);
        proof {
            let v = views(gs@);
            if count > gs@.len() {
                lemma_skip_fwd_bounds(v, start as int, gs@.len() as int);
                lemma_skip_fwd_bounds(v, skip_word_fwd(v, start as int, gs@.len() as int), gs@.len() as int);
            }
            lemma_word_right_moves(v, start as int, min_int(count as int, gs@.len() as int));
        }
        self.selection.anchor = start;
        self.selection.active = pos;
        self.delete_selection();
        Some(EditEvent { kind: EditKind::DeleteWordForward, inserted: None })
    }

    /// Ctrl+Left: moves the cursor to the start of the word before it
    /// (over white space first); with `extend` the anchor stays.
    pub fn move_word_left(&mut self, extend: bool)
        requires
            old(self).wf(),
            old(self)@.selection.active <= old(self).text_clusters().len(),
        ensures
            final(self).wf(),
            move_word_left_post(old(self)@, final(self)@, extend),
    {
        let gs = self.text_graphemes();
        let pos = scan_word_left(&gs, self.selection.active);
        self.selection.active = pos;
        if !extend {
            self.selection.anchor = pos;
        }
    }

    /// Ctrl+Right: moves the cursor to the start of the next word (over the
    /// word, then white space); with `extend` the anchor stays.
    pub fn move_word_right(&mut self, extend: bool)
        requires
            old(self).wf(),
        ensures
            final(self).wf(),
            move_word_right_post(old(self)@, final(self)@, extend),
    {
        let gs = self.text_graphemes();
        let count = gs.len();
        let pos = scan_word_right(&gs, self.selection.active, count);
        self.selection.active = pos;
        if !extend {
            self.selection.anchor = pos;
        }
    }

    /// The word around a grapheme index of the whole text, as (start, end):
    /// the index is clamped to the last cluster, then the run of clusters
    /// that are not white space is widened both ways.
    pub fn word_at(&self, grapheme_idx: usize) -> (r: (usize, usize))
        requires
            self.wf(),
        ensures
            ({
                let gs = self.text_clusters();
                if gs.len() == 0 {
                    r == (0usize, 0usize)
                } else {
                    let i = min_int(grapheme_idx as int, gs.len() - 1);
                    r.0 == skip_word_back(gs, i) && r.1 == skip_word_fwd(gs, i, gs.len() as int)
                }
            }),
    {
        let gs = self.text_graphemes();
        let ghost v = views(gs@);
        if gs.len() == 0 {
            return (0, 0);
        }
        let last = gs.len() - 1;
        let idx = if grapheme_idx < last { grapheme_idx } else { last };
        let mut start = idx;
        while start > 0 && !is_all_whitespace(gs[start - 1].as_str())
            invariant
                v == views(gs@),
                start <= idx < gs@.len(),
                skip_word_back(v, start as int) == skip_word_back(v, idx as int),
            decreases start,
        {
            start = start - 1;
        }
        let mut end = idx;
        while end < gs.len() && !is_all_whitespace(gs[end].as_str())
            invariant
                v == views(gs@),
                idx <= end <= gs@.len(),
                skip_word_fwd(v, end as int, gs@.len() as int) == skip_word_fwd(v, idx as int, gs@.len() as int),
            decreases gs@.len() - end,
        {
            end = end + 1;
        }
        (start, end)
    }

    // ── Movement ────────────────────────────────────────────────────

    /// Left arrow: collapses a selection to its start, else moves the
    /// cursor one position left (extending the selection with `extend`).
    pub fn move_left(&mut self, extend: bool)
        requires
            old(self).wf(),
        ensures
            final(self).wf(),
            move_left_post(old(self)@, final(self)@, extend),
    {
        if !extend && !self.selection.is_collapsed() {
            let pos = self.selection.start();
            self.selection.set_cursor(pos);
        } else if self.selection.active > 0 {
            self.selection.active = self.selection.active - 1;
            if !extend {
                self.selection.anchor = self.selection.active;
            }
        }
    }

    /// Right arrow: collapses a selection to its end, else moves the cursor
    /// one position right, up to the grapheme count.
    pub fn move_right(&mut self, extend: bool)
        requires
            old(self).wf(),
        ensures
            final(self).wf(),
            move_right_post(old(self)@, final(self)@, extend),
    {
        let count = self.grapheme_count();
        if !extend && !self.selection.is_collapsed() {
            let pos = self.selection.end();
            self.selection.set_cursor(pos);
        } else if self.selection.active < count {
            self.selection.active = self.selection.active + 1;
            if !extend {
                self.selection.anchor = self.selection.active;
            }
        }
    }

    /// Home: to the start of the cursor's line.
    pub fn move_home(&mut self, extend: bool)
        requires
            old(self).wf(),
        ensures
            final(self).wf(),
            line_start_post(old(self)@, final(self)@, extend),
    {
        self.move_line_start(extend);
    }

    /// End: to the end of the cursor's line.
    pub fn move_end(&mut self, extend: bool)
        requires
            old(self).wf(),
        ensures
            final(self).wf(),
            line_end_post(old(self)@, final(self)@, extend),
    {
        self.move_line_end(extend);
    }

    /// Ctrl+Home: to the start of the text.
    pub fn move_absolute_home(&mut self, extend: bool)
        requires
            old(self).wf(),
        ensures
            final(self).wf(),
            absolute_home_post(old(self)@, final(self)@, extend),
    {
        self.selection.active = 0;
        if !extend {
            self.selection.anchor = 0;
        }
    }

    /// Ctrl+End: to the end of the text.
    pub fn move_absolute_end(&mut self, extend: bool)
        requires
            old(self).wf(),
        ensures
            final(self).wf(),
            absolute_end_post(old(self)@, final(self)@, extend),
    {
        let count = self.grapheme_count();
        self.selection.active = count;
        if !extend {
            self.selection.anchor = count;
        }
    }

    /// To the start of the cursor's line.
    pub fn move_line_start(&mut self, extend: bool)
        requires
            old(self).wf(),
        ensures
            final(self).wf(),
            line_start_post(old(self)@, final(self)@, extend),
    {
        let (row, _col) = self.flat_to_rowcol(self.selection.active);
        let flat = self.rowcol_to_flat(row, 0);
        self.selection.active = flat;
        if !extend {
            self.selection.anchor = flat;
        }
    }

    /// To the end of the cursor's line.
    pub fn move_line_end(&mut self, extend: bool)
        requires
            old(self).wf(),
        ensures
            final(self).wf(),
            line_end_post(old(self)@, final(self)@, extend),
    {
        let (row, _col) = self.flat_to_rowcol(self.selection.active);
        proof {
            lemma_flat_to_rowcol(self@.lines, self.selection.active as int);
        }
        let line_len = self.line_grapheme_count(row);
        let flat = self.rowcol_to_flat(row, line_len);
        self.selection.active = flat;
        if !extend {
            self.selection.anchor = flat;
        }
    }

    /// Up arrow: to the line above at column `sticky_col` (or the current
    /// column), clamped to that line's length; on the first line, to the
    /// start of the text. Returns whether the cursor changed line.
    pub fn move_up(&mut self, extend: bool, sticky_col: Option<usize>) -> (moved: bool)
        requires
            old(self).wf(),
        ensures
            final(self).wf(),
            final(self)@.lines == old(self)@.lines,
            final(self)@.max_length == old(self)@.max_length,
            ({
                let lv = old(self)@.lines;
                let rc = flat_to_rowcol(lv, old(self)@.selection.active as int);
                let target = match sticky_col { Some(c) => c as int, None => rc.1 };
                if rc.0 == 0 {
                    !moved && final(self)@.selection == old(self)@.selection.moved_to(0, extend)
                } else {
                    moved && final(self)@.selection == old(self)@.selection.moved_to(
                        rowcol_to_flat(lv, rc.0 - 1, min_int(target, grapheme_len(lv[rc.0 - 1]) as int)) as usize,
                        extend,
                    )
                }
            }),
    {
        let (row, col) = self.flat_to_rowcol(self.selection.active);
        proof {
            lemma_flat_to_rowcol(self@.lines, self.selection.active as int);
        }
        if row == 0 {
            self.selection.active = 0;
            if !extend {
                self.selection.anchor = 0;
            }
            return false;
        }
        let target_col = match sticky_col {
            Some(c) => c,
            None => col,
        };
        let prev_line_len = self.line_grapheme_count(row - 1);
        let new_col = if target_col < prev_line_len { target_col } else { prev_line_len };
        let flat = self.rowcol_to_flat(row - 1, new_col);
        self.selection.active = flat;
        if !extend {
            self.selection.anchor = flat;
        }
        true
    }

    /// Down arrow: to the line below at column `sticky_col` (or the current
    /// column), clamped to that line's length; on the last line, to the end
    /// of the text. Returns whether the cursor changed line.
    pub fn move_down(&mut self, extend: bool, sticky_col: Option<usize>) -> (moved: bool)
        requires
            old(self).wf(),
        ensures
            final(self).wf(),
            final(self)@.lines == old(self)@.lines,
            final(self)@.max_length == old(self)@.max_length,
            ({
                let lv = old(self)@.lines;
                let rc = flat_to_rowcol(lv, old(self)@.selection.active as int);
                let target = match sticky_col { Some(c) => c as int, None => rc.1 };
                if rc.0 >= lv.len() - 1 {
                    !moved && final(self)@.selection == old(self)@.selection.moved_to(
                        old(self).spec_grapheme_count() as usize,
                        extend,
                    )
                } else {
                    moved && final(self)@.selection == old(self)@.selection.moved_to(
                        rowcol_to_flat(lv, rc.0 + 1, min_int(target, grapheme_len(lv[rc.0 + 1]) as int)) as usize,
                        extend,
                    )
                }
            }),
    {
        let (row, col) = self.flat_to_rowcol(self.selection.active);
        proof {
            lemma_flat_to_rowcol(self@.lines, self.selection.active as int);
        }
        if row >= self.lines.len() - 1 {
            let count = self.grapheme_count();
            self.selection.active = count;
            if !extend {
                self.selection.anchor = count;
            }
            return false;
        }
        let target_col = match sticky_col {
            Some(c) => c,
            None => col,
        };
        let next_line_len = self.line_grapheme_count(row + 1);
        let new_col = if target_col < next_line_len { target_col } else { next_line_len };
        let flat = self.rowcol_to_flat(row + 1, new_col);
        self.selection.active = flat;
        if !extend {
            self.selection.anchor = flat;
        }
        true
    }

    /// Current (row, column) of the active end of the selection.
    pub fn cursor_rowcol(&self) -> (rc: (usize, usize))
        requires
            self.wf(),
        ensures
            rc.0 as int == flat_to_rowcol(self@.lines, self@.selection.active as int).0,
            rc.1 as int == flat_to_rowcol(self@.lines, self@.selection.active as int).1,
    {
        self.flat_to_rowcol(self.selection.active)
    }

    /// Moves the cursor to grapheme index `pos`, clamped to the grapheme count.
    pub fn move_to(&mut self, pos: usize, extend: bool)
        requires
            old(self).wf(),
        ensures
            final(self).wf(),
            final(self)@.lines == old(self)@.lines,
            final(self)@.max_length == old(self)@.max_length,
            final(self)@.selection == old(self)@.selection.moved_to(
                min_int(pos as int, old(self).spec_grapheme_count()) as usize,
                extend,
            ),
    {
        let count = self.grapheme_count();
        self.selection.active = if pos < count { pos } else { count };
        if !extend {
            self.selection.anchor = self.selection.active;
        }
    }

    /// Selects the whole text.
    pub fn select_all(&mut self)
        requires
            old(self).wf(),
        ensures
            final(self).wf(),
            select_all_post(old(self)@, final(self)@),
    {
        self.selection.anchor = 0;
        self.selection.active = self.grapheme_count();
    }

    // ── Key handling ────────────────────────────────────────────────

    /// Deletes a word backward unless that would read past the clusters of
    /// the text (`None`, nothing changed).
    pub fn try_delete_word_backward(&mut self) -> (r: Option<Option<EditEvent>>)
        requires
            old(self).wf(),
        ensures
            final(self).wf(),
            word_back_out_of_range(old(self)@) ==> r is None && final(self)@ == old(self)@,
            !word_back_out_of_range(old(self)@) ==> (r matches Some(ev) && delete_word_backward_post(
                old(self)@,
                final(self)@,
                ev,
            )),
    {
        if self.selection.is_collapsed() {
            let gs = self.text_graphemes();
            if self.selection.active > gs.len() {
                return None;
            }
        }
        Some(self.delete_word_backward())
    }

    /// Deletes a word forward unless that would read past the clusters of
    /// the text (`None`, nothing changed).
    pub fn try_delete_word_forward(&mut self) -> (r: Option<Option<EditEvent>>)
        requires
            old(self).wf(),
        ensures
            final(self).wf(),
            word_fwd_out_of_range(old(self)@) ==> r is None && final(self)@ == old(self)@,
            !word_fwd_out_of_range(old(self)@) ==> (r matches Some(ev) && delete_word_forward_post(
                old(self)@,
                final(self)@,
                ev,
            )),
    {
        if self.selection.is_collapsed() {
            let count = self.grapheme_count();
            let gs = self.text_graphemes();
            if self.selection.active < count && count > gs.len() {
                let target = scan_word_right(&gs, self.selection.active, gs.len());
                if target >= gs.len() {
                    return None;
                }
            }
        }
        Some(self.delete_word_forward())
    }

    /// Moves a word left unless that would read past the clusters of the
    /// text (false, nothing changed).
    pub fn try_move_word_left(&mut self, extend: bool) -> (moved: bool)
        requires
            old(self).wf(),
        ensures
            final(self).wf(),
            moved == !word_left_out_of_range(old(self)@),
            !moved ==> final(self)@ == old(self)@,
            moved ==> move_word_left_post(old(self)@, final(self)@, extend),
    {
        let gs = self.text_graphemes();
        if self.selection.active > gs.len() {
            return false;
        }
        self.move_word_left(extend);
        true
    }

    /// Inserts `ch` unless the cursor would move past `usize::MAX`
    /// (`None`, nothing changed); otherwise the result of `insert`.
    pub fn try_insert(&mut self, ch: &str) -> (r: Option<Option<EditEvent>>)
        requires
            old(self).wf(),
            old(self).text_view().len() + ch@.len() <= isize::MAX,
            old(self)@.max_length is Some ==> old(self)@.selection.spec_end() - old(self)@.selection.spec_start()
                <= old(self).spec_grapheme_count(),
        ensures
            final(self).wf(),
            insert_overflows(old(self)@, ch@) ==> r is None && final(self)@ == old(self)@,
            !insert_overflows(old(self)@, ch@) ==> (r matches Some(ev) && insert_post(old(self)@, final(self)@, ch@, ev)),
    {
        let n = graphemes(ch).len();
        let start = self.selection.start();
        if n > usize::MAX - start {
            proof {
                lemma_total_le_text(self@.lines);
                lemma_grapheme_len_le(ch@);
            }
            if let Some(max) = self.max_length {
                let current = self.grapheme_count() - (self.selection.end() - start);
                if current + n > max {
                    return Some(None);
                }
            }
            return None;
        }
        Some(self.insert(ch))
    }

    /// Inserts `ch` for a key press, reporting `none` when nothing is inserted.
    fn insert_for_key(&mut self, ch: &str, none: KeyResult) -> (r: KeyResult)
        requires
            old(self).wf(),
            !(none is Edit),
            old(self).text_view().len() + ch@.len() <= isize::MAX,
            old(self)@.max_length is Some ==> old(self)@.selection.spec_end() - old(self)@.selection.spec_start()
                <= old(self).spec_grapheme_count(),
        ensures
            final(self).wf(),
            key_insert_post(old(self)@, final(self)@, ch@, r, none),
    {
        match self.try_insert(ch) {
            Some(Some(edit)) => KeyResult::Edit(edit),
            Some(None) => none,
            None => KeyResult::Ignored,
        }
    }

    /// Handles a key press. `modifiers` holds Ctrl in bit 0 and Shift in
    /// bit 2. Arrow up/down are left to the caller (`Ignored`). Where a word
    /// operation would read past the clusters of the text, or an insertion
    /// would move the cursor past `usize::MAX`, the key is `Ignored` and
    /// nothing changes.
    pub fn handle_key(&mut self, key: &Key, modifiers: u32) -> (r: KeyResult)
        requires
            old(self).wf(),
            old(self).text_view().len() + 4 <= isize::MAX,
            key matches Key::Character(c) ==> old(self).text_view().len() + c@.len() <= isize::MAX,
            key_inserts(*key, modifiers) && old(self)@.max_length is Some ==> old(self)@.selection.spec_end()
                - old(self)@.selection.spec_start() <= old(self).spec_grapheme_count(),
            *key == Key::Named(NamedKey::Backspace) && !ctrl_held(modifiers) && old(self)@.selection.anchor
                == old(self)@.selection.active && old(self)@.selection.active > 0 ==> old(self).text_view().len() > 0,
        ensures
            final(self).wf(),
            handle_key_post(old(self)@, final(self)@, *key, modifiers, r),
    {
        let shift = modifiers & 4 != 0;
        let ctrl = modifiers & 1 != 0;
        match key {
            Key::Character(ch) => {
                if ctrl {
                    if eq_ignore_case_a(ch.as_str()) {
                        self.select_all();
                        return KeyResult::Handled;
                    }
                    return KeyResult::Ignored;
                }
                self.insert_for_key(ch.as_str(), KeyResult::Handled)
            },
            Key::Named(named) => match named {
                NamedKey::Backspace => {
                    if ctrl {
                        match self.try_delete_word_backward() {
                            Some(Some(edit)) => KeyResult::Edit(edit),
                            Some(None) => KeyResult::Handled,
                            None => KeyResult::Ignored,
                        }
                    } else {
                        match self.delete_backward() {
                            Some(edit) => KeyResult::Edit(edit),
                            None => KeyResult::Handled,
                        }
                    }
                },
                NamedKey::Delete => {
                    if ctrl {
                        match self.try_delete_word_forward() {
                            Some(Some(edit)) => KeyResult::Edit(edit),
                            Some(None) => KeyResult::Handled,
                            None => KeyResult::Ignored,
                        }
                    } else {
                        match self.delete_forward() {
                            Some(edit) => KeyResult::Edit(edit),
                            None => KeyResult::Handled,
                        }
                    }
                },
                NamedKey::ArrowLeft => {
                    if ctrl {
                        if !self.try_move_word_left(shift) {
                            return KeyResult::Ignored;
                        }
                    } else {
                        self.move_left(shift);
                    }
                    KeyResult::Handled
                },
                NamedKey::ArrowRight => {
                    if ctrl {
                        self.move_word_right(shift);
                    } else {
                        self.move_right(shift);
                    }
                    KeyResult::Handled
                },
                NamedKey::ArrowUp | NamedKey::ArrowDown => KeyResult::Ignored,
                NamedKey::Home => {
                    if ctrl {
                        self.move_absolute_home(shift);
                    } else {
                        self.move_home(shift);
                    }
                    KeyResult::Handled
                },
                NamedKey::End => {
                    if ctrl {
                        self.move_absolute_end(shift);
                    } else {
                        self.move_end(shift);
                    }
                    KeyResult::Handled
                },
                NamedKey::Space => {
                    proof {
                        reveal_strlit(" ");
                        assert(" "@ =~= seq![' ']);
                    }
                    self.insert_for_key(" ", KeyResult::Handled)
                },
                NamedKey::Escape => KeyResult::Blur,
                NamedKey::Enter => {
                    proof {
                        reveal_strlit("\n");
                        assert("\n"@ =~= seq!['\n']);
                    }
                    self.insert_for_key("\n", KeyResult::Ignored)
                },
                NamedKey::Tab => {
                    proof {
                        reveal_strlit("    ");
                        assert("    "@ =~= seq![' ', ' ', ' ', ' ']);
                    }
                    self.insert_for_key("    ", KeyResult::Ignored)
                },
                _ => KeyResult::Ignored,
            },
            _ => KeyResult::Ignored,
        }
    }
}

} // verus!
