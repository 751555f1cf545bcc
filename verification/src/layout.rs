//! The mathematical model of a line buffer: lines of characters joined by
//! `'\n'`, addressed either by character offset in the joined text or by a
//! flat grapheme index (grapheme clusters of each line, one per `'\n'`).

use crate::graphemes::{grapheme_clusters, grapheme_len};
use vstd::prelude::*;
use vstd::seq_lib::lemma_flatten_concat;

verus! {

/// The line separator.
pub open spec fn newline() -> Seq<char> {
    seq!['\n']
}

/// `s` holds no `'\n'`.
pub open spec fn no_newline(s: Seq<char>) -> bool {
    forall|i: int| 0 <= i < s.len() ==> #[trigger] s[i] != '\n'
}

/// The grapheme clusters of `s` are non-empty and concatenate back to `s`
/// (what `graphemes` reports of every string it segments).
pub open spec fn segmented(s: Seq<char>) -> bool {
    &&& grapheme_clusters(s).flatten() == s
    &&& forall|j: int| 0 <= j < grapheme_clusters(s).len() ==> #[trigger] grapheme_clusters(s)[j].len() > 0
}

/// The lines joined with `'\n'` between consecutive lines.
pub open spec fn join_lines(lines: Seq<Seq<char>>) -> Seq<char>
    decreases lines.len(),
{
    if lines.len() == 0 {
        Seq::empty()
    } else if lines.len() == 1 {
        lines[0]
    } else {
        lines[0] + newline() + join_lines(lines.drop_first())
    }
}

/// The lines of a text: the pieces between its `'\n'` characters.
pub open spec fn split_lines(text: Seq<char>) -> Seq<Seq<char>>
    decreases text.len(),
{
    if text.len() == 0 {
        seq![Seq::empty()]
    } else {
        let rest = split_lines(text.drop_last());
        if text.last() == '\n' {
            rest.push(Seq::empty())
        } else {
            rest.update(rest.len() - 1, rest.last().push(text.last()))
        }
    }
}

/// A well-formed line buffer: at least one line, no line holds `'\n'`, every
/// line is segmented, and the joined text fits in memory.
pub open spec fn lines_wf(lines: Seq<Seq<char>>) -> bool {
    &&& lines.len() >= 1
    &&& forall|i: int| 0 <= i < lines.len() ==> no_newline(#[trigger] lines[i])
    &&& forall|i: int| 0 <= i < lines.len() ==> segmented(#[trigger] lines[i])
    &&& join_lines(lines).len() <= isize::MAX
}

/// Flat grapheme index of the start of row `r`: each earlier row counts its
/// graphemes plus one for its line break.
pub open spec fn row_start(lines: Seq<Seq<char>>, r: int) -> int
    decreases r,
{
    if r <= 0 || lines.len() == 0 {
        0
    } else {
        grapheme_len(lines[0]) + 1 + row_start(lines.drop_first(), r - 1)
    }
}

/// Character offset of the start of row `r` in the joined text.
pub open spec fn char_start(lines: Seq<Seq<char>>, r: int) -> int
    decreases r,
{
    if r <= 0 || lines.len() == 0 {
        0
    } else {
        lines[0].len() + 1 + char_start(lines.drop_first(), r - 1)
    }
}

/// Number of flat grapheme positions: the graphemes of every line plus one
/// per line break.
pub open spec fn total_graphemes(lines: Seq<Seq<char>>) -> int {
    row_start(lines, lines.len() as int) - 1
}

/// (row, column) of flat index `i`, scanning the rows from the first; an
/// index past the end lands at the end of the last row.
pub open spec fn flat_to_rowcol(lines: Seq<Seq<char>>, i: int) -> (int, int)
    decreases lines.len(),
{
    if lines.len() == 0 {
        (0, 0)
    } else if i <= grapheme_len(lines[0]) {
        (0, i)
    } else if lines.len() == 1 {
        (0, grapheme_len(lines[0]) as int)
    } else {
        let rc = flat_to_rowcol(lines.drop_first(), i - grapheme_len(lines[0]) - 1);
        (rc.0 + 1, rc.1)
    }
}

/// Flat index of (row, column): the row is clamped to the last row and the
/// column to the length of the clamped row.
pub open spec fn rowcol_to_flat(lines: Seq<Seq<char>>, row: int, col: int) -> int {
    let r = if row < lines.len() { row } else { lines.len() as int };
    let cr = if row < lines.len() - 1 { row } else { lines.len() - 1 };
    let g = grapheme_len(lines[cr]) as int;
    row_start(lines, r) + if col < g { col } else { g }
}

/// The characters of the first `c` grapheme clusters of `l`.
pub open spec fn cluster_prefix(l: Seq<char>, c: int) -> Seq<char> {
    grapheme_clusters(l).take(c).flatten()
}

/// The characters of the grapheme clusters of `l` from the `c`-th on.
pub open spec fn cluster_suffix(l: Seq<char>, c: int) -> Seq<char> {
    grapheme_clusters(l).skip(c).flatten()
}

/// Character offset in the joined text of (row, column).
pub open spec fn rowcol_offset(lines: Seq<Seq<char>>, row: int, col: int) -> int {
    char_start(lines, row) + cluster_prefix(lines[row], col).len()
}

/// Character offset in the joined text of flat grapheme index `i`.
pub open spec fn char_offset(lines: Seq<Seq<char>>, i: int) -> int {
    let rc = flat_to_rowcol(lines, i);
    rowcol_offset(lines, rc.0, rc.1)
}

// ── Lemmas on the grapheme clusters of one line ─────────────────────────

/// A segmented line is its cluster prefix followed by its cluster suffix.
pub proof fn lemma_prefix_suffix(l: Seq<char>, c: int)
    requires
        segmented(l),
        0 <= c <= grapheme_len(l),
    ensures
        cluster_prefix(l, c) + cluster_suffix(l, c) == l,
        cluster_prefix(l, c).len() + cluster_suffix(l, c).len() == l.len(),
{
    let g = grapheme_clusters(l);
    assert(g.take(c) + g.skip(c) =~= g);
    lemma_flatten_concat(g.take(c), g.skip(c));
}

/// A longer cluster prefix extends a shorter one.
pub proof fn lemma_prefix_extends(l: Seq<char>, c1: int, c2: int)
    requires
        0 <= c1 <= c2 <= grapheme_len(l),
    ensures
        cluster_prefix(l, c2) == cluster_prefix(l, c1) + grapheme_clusters(l).subrange(c1, c2).flatten(),
{
    let g = grapheme_clusters(l);
    assert(g.take(c2) =~= g.take(c1) + g.subrange(c1, c2));
    lemma_flatten_concat(g.take(c1), g.subrange(c1, c2));
}

/// A flattened sequence of non-empty pieces is at least as long as the number of pieces.
pub proof fn lemma_flatten_len_ge(g: Seq<Seq<char>>)
    requires
        forall|j: int| 0 <= j < g.len() ==> #[trigger] g[j].len() > 0,
    ensures
        g.flatten().len() >= g.len(),
    decreases g.len(),
{
    if g.len() > 0 {
        assert(g[0].len() > 0);
        lemma_flatten_len_ge(g.drop_first());
    }
}

/// A segmented line has no more grapheme clusters than characters.
pub proof fn lemma_grapheme_len_le(l: Seq<char>)
    requires
        segmented(l),
    ensures
        grapheme_len(l) <= l.len(),
{
    lemma_flatten_len_ge(grapheme_clusters(l));
}

/// Every element of a flattened sequence of newline-free pieces is not a newline.
pub proof fn lemma_flatten_no_newline(g: Seq<Seq<char>>)
    requires
        forall|j: int| 0 <= j < g.len() ==> no_newline(#[trigger] g[j]),
    ensures
        no_newline(g.flatten()),
    decreases g.len(),
{
    if g.len() > 0 {
        assert(no_newline(g[0]));
        lemma_flatten_no_newline(g.drop_first());
        let f = g.flatten();
        assert(f =~= g[0] + g.drop_first().flatten());
        assert forall|i: int| 0 <= i < f.len() implies #[trigger] f[i] != '\n' by {
            if i < g[0].len() {
                assert(f[i] == g[0][i]);
            } else {
                assert(f[i] == g.drop_first().flatten()[i - g[0].len()]);
            }
        }
    }
}

/// The cluster prefix and suffix of a newline-free segmented line are newline-free.
pub proof fn lemma_prefix_suffix_no_newline(l: Seq<char>, c: int)
    requires
        segmented(l),
        no_newline(l),
        0 <= c <= grapheme_len(l),
    ensures
        no_newline(cluster_prefix(l, c)),
        no_newline(cluster_suffix(l, c)),
{
    lemma_prefix_suffix(l, c);
    let p = cluster_prefix(l, c);
    let s = cluster_suffix(l, c);
    assert forall|i: int| 0 <= i < p.len() implies #[trigger] p[i] != '\n' by {
        assert(p[i] == (p + s)[i]);
    }
    assert forall|i: int| 0 <= i < s.len() implies #[trigger] s[i] != '\n' by {
        assert(s[i] == (p + s)[i + p.len()]);
    }
}

/// Concatenation of newline-free sequences is newline-free.
pub proof fn lemma_concat_no_newline(a: Seq<char>, b: Seq<char>)
    requires
        no_newline(a),
        no_newline(b),
    ensures
        no_newline(a + b),
{
    assert forall|i: int| 0 <= i < (a + b).len() implies #[trigger] (a + b)[i] != '\n' by {
        if i < a.len() {
            assert((a + b)[i] == a[i]);
        } else {
            assert((a + b)[i] == b[i - a.len()]);
        }
    }
}

// ── Lemmas on joining lines ─────────────────────────────────────────────

/// Joining two non-empty runs of lines puts one line break between them.
pub proof fn lemma_join_concat(a: Seq<Seq<char>>, b: Seq<Seq<char>>)
    requires
        a.len() > 0,
        b.len() > 0,
    ensures
        join_lines(a + b) == join_lines(a) + newline() + join_lines(b),
    decreases a.len(),
{
    if a.len() == 1 {
        assert((a + b).drop_first() =~= b);
    } else {
        assert((a + b).drop_first() =~= a.drop_first() + b);
        lemma_join_concat(a.drop_first(), b);
        assert(join_lines(a + b) =~= a[0] + newline() + join_lines(a.drop_first() + b));
    }
}

/// Row starts are non-negative.
pub proof fn lemma_starts_nonneg(lines: Seq<Seq<char>>, r: int)
    ensures
        char_start(lines, r) >= 0,
        row_start(lines, r) >= 0,
    decreases r,
{
    if r > 0 && lines.len() > 0 {
        lemma_starts_nonneg(lines.drop_first(), r - 1);
    }
}

/// The start of the next row is one line break after the end of this row.
pub proof fn lemma_char_start_succ(lines: Seq<Seq<char>>, r: int)
    requires
        0 <= r < lines.len(),
    ensures
        char_start(lines, r + 1) == char_start(lines, r) + lines[r].len() + 1,
    decreases r,
{
    if r > 0 {
        lemma_char_start_succ(lines.drop_first(), r - 1);
    } else {
        assert(char_start(lines.drop_first(), 0) == 0);
    }
}

/// The same for flat grapheme indices.
pub proof fn lemma_row_start_succ(lines: Seq<Seq<char>>, r: int)
    requires
        0 <= r < lines.len(),
    ensures
        row_start(lines, r + 1) == row_start(lines, r) + grapheme_len(lines[r]) + 1,
    decreases r,
{
    if r > 0 {
        lemma_row_start_succ(lines.drop_first(), r - 1);
    } else {
        assert(row_start(lines.drop_first(), 0) == 0);
    }
}

/// The text of the first `r + 1` lines ends where row `r` ends.
pub proof fn lemma_join_take_len(lines: Seq<Seq<char>>, r: int)
    requires
        0 <= r < lines.len(),
    ensures
        join_lines(lines.take(r + 1)).len() == char_start(lines, r) + lines[r].len(),
    decreases r,
{
    if r == 0 {
        assert(lines.take(1).len() == 1);
    } else {
        let rest = lines.drop_first();
        assert(lines.take(r + 1) =~= seq![lines[0]] + rest.take(r));
        lemma_join_concat(seq![lines[0]], rest.take(r));
        lemma_join_take_len(rest, r - 1);
    }
}

/// Replacing rows `sr..=er` by the lines `m` replaces, in the joined text,
/// the characters from the start of row `sr` to the end of row `er` by the
/// joined `m`.
pub proof fn lemma_splice(lines: Seq<Seq<char>>, sr: int, er: int, m: Seq<Seq<char>>)
    requires
        0 <= sr <= er < lines.len(),
        m.len() >= 1,
    ensures
        char_start(lines, sr) <= char_start(lines, er) + lines[er].len() <= join_lines(lines).len(),
        join_lines(lines.take(sr) + m + lines.skip(er + 1)) == join_lines(lines).take(char_start(lines, sr))
            + join_lines(m) + join_lines(lines).skip(char_start(lines, er) + lines[er].len()),
{
    let n = lines.len() as int;
    let a = lines.take(sr);
    let mid = lines.subrange(sr, er + 1);
    let z = lines.skip(er + 1);
    let nl = newline();
    assert(lines =~= a + mid + z);
    let pre = if sr > 0 { join_lines(a) + nl } else { Seq::<char>::empty() };
    let post = if er < n - 1 { nl + join_lines(z) } else { Seq::<char>::empty() };
    // the joined text of a run of lines framed by `pre` and `post`
    assert forall|x: Seq<Seq<char>>| x.len() >= 1 implies #[trigger] join_lines(a + x + z) == pre + join_lines(x) + post by {
        if sr > 0 {
            lemma_join_concat(a, x);
            if er < n - 1 {
                lemma_join_concat(a + x, z);
                assert(pre + join_lines(x) + post =~= join_lines(a) + nl + join_lines(x) + nl + join_lines(z));
            } else {
                assert(z.len() == 0);
                assert(a + x + z =~= a + x);
            }
        } else {
            assert(a + x =~= x);
            if er < n - 1 {
                lemma_join_concat(x, z);
            } else {
                assert(a + x + z =~= x);
            }
        }
    }
    assert(join_lines(lines) == pre + join_lines(mid) + post);
    // `pre` ends where row `sr` starts
    if sr > 0 {
        lemma_join_take_len(lines, sr - 1);
        lemma_char_start_succ(lines, sr - 1);
        assert(lines.take(sr - 1 + 1) =~= a);
    }
    assert(pre.len() == char_start(lines, sr));
    // `pre + join(mid)` ends where row `er` ends
    lemma_join_take_len(lines, er);
    if sr > 0 {
        lemma_join_concat(a, mid);
        assert(lines.take(er + 1) =~= a + mid);
    } else {
        assert(lines.take(er + 1) =~= mid);
    }
    assert(pre.len() + join_lines(mid).len() == char_start(lines, er) + lines[er].len());
    let t = join_lines(lines);
    assert(t.take(char_start(lines, sr)) =~= pre);
    assert(t.skip(char_start(lines, er) + lines[er].len()) =~= post);
}

/// Row `r` sits in the joined text from its start offset.
pub proof fn lemma_row_in_text(lines: Seq<Seq<char>>, r: int)
    requires
        0 <= r < lines.len(),
    ensures
        char_start(lines, r) + lines[r].len() <= join_lines(lines).len(),
        join_lines(lines).subrange(char_start(lines, r), char_start(lines, r) + lines[r].len()) == lines[r],
        r < lines.len() - 1 ==> join_lines(lines)[char_start(lines, r) + lines[r].len()] == '\n',
{
    lemma_splice(lines, r, r, seq![lines[r]]);
    assert(lines.take(r) + seq![lines[r]] + lines.skip(r + 1) =~= lines);
    let t = join_lines(lines);
    let cs = char_start(lines, r);
    let ce = cs + lines[r].len();
    assert(t =~= t.take(cs) + lines[r] + t.skip(ce));
    lemma_starts_nonneg(lines, r);
    assert(t.take(cs).len() == cs);
    assert forall|i: int| 0 <= i < lines[r].len() implies #[trigger] t.subrange(cs, ce)[i] == lines[r][i] by {
        assert(t[cs + i] == (t.take(cs) + lines[r] + t.skip(ce))[cs + i]);
    }
    assert(t.subrange(cs, ce) =~= lines[r]);
    if r < lines.len() - 1 {
        lemma_splice(lines, r + 1, r + 1, seq![lines[r + 1]]);
        assert(lines.take(r + 1) + seq![lines[r + 1]] + lines.skip(r + 2) =~= lines);
        lemma_char_start_succ(lines, r);
        lemma_join_take_len(lines, r);
        lemma_join_concat(lines.take(r + 1), lines.skip(r + 1));
        assert(lines =~= lines.take(r + 1) + lines.skip(r + 1));
        assert(t[ce] == (join_lines(lines.take(r + 1)) + newline() + join_lines(lines.skip(r + 1)))[ce]);
    }
}

// ── Lemmas on flat grapheme indices ─────────────────────────────────────

/// Where a flat index lands: inside the text it lands on the row whose flat
/// range holds it; past the end it lands at the end of the last row.
pub proof fn lemma_flat_to_rowcol(lines: Seq<Seq<char>>, i: int)
    requires
        lines.len() >= 1,
        i >= 0,
    ensures
        ({
            let rc = flat_to_rowcol(lines, i);
            &&& 0 <= rc.0 < lines.len()
            &&& 0 <= rc.1 <= grapheme_len(lines[rc.0])
            &&& i <= total_graphemes(lines) ==> row_start(lines, rc.0) + rc.1 == i
            &&& i > total_graphemes(lines) ==> rc.0 == lines.len() - 1 && rc.1 == grapheme_len(lines[lines.len() - 1])
        }),
        total_graphemes(lines) >= grapheme_len(lines[lines.len() - 1]),
    decreases lines.len(),
{
    let g0 = grapheme_len(lines[0]) as int;
    let rest = lines.drop_first();
    assert(row_start(lines, 0) == 0);
    if lines.len() == 1 {
        assert(row_start(rest, 0) == 0);
        assert(total_graphemes(lines) == g0);
    } else {
        lemma_flat_to_rowcol(rest, if i > g0 { i - g0 - 1 } else { 0 });
        lemma_starts_nonneg(rest, rest.len() as int);
        assert(total_graphemes(lines) == g0 + 1 + total_graphemes(rest));
        if i > g0 {
            let rc = flat_to_rowcol(rest, i - g0 - 1);
            assert(row_start(lines, rc.0 + 1) == g0 + 1 + row_start(rest, rc.0));
        }
    }
}

/// Flat indices land on (row, column) pairs in the same order.
pub proof fn lemma_flat_to_rowcol_monotone(lines: Seq<Seq<char>>, i: int, j: int)
    requires
        lines.len() >= 1,
        0 <= i <= j,
    ensures
        ({
            let a = flat_to_rowcol(lines, i);
            let b = flat_to_rowcol(lines, j);
            a.0 < b.0 || (a.0 == b.0 && a.1 <= b.1)
        }),
    decreases lines.len(),
{
    let g0 = grapheme_len(lines[0]) as int;
    let rest = lines.drop_first();
    if lines.len() > 1 && j > g0 {
        if i > g0 {
            lemma_flat_to_rowcol_monotone(rest, i - g0 - 1, j - g0 - 1);
        } else {
            lemma_flat_to_rowcol(rest, j - g0 - 1);
        }
    }
}

/// A (row, column) inside the buffer is where its flat index lands.
pub proof fn lemma_rowcol_to_flat_inverse(lines: Seq<Seq<char>>, r: int, c: int)
    requires
        0 <= r < lines.len(),
        0 <= c <= grapheme_len(lines[r]),
    ensures
        rowcol_to_flat(lines, r, c) == row_start(lines, r) + c,
        flat_to_rowcol(lines, row_start(lines, r) + c) == (r, c),
    decreases r,
{
    let rest = lines.drop_first();
    if r > 0 {
        lemma_rowcol_to_flat_inverse(rest, r - 1, c);
        lemma_starts_nonneg(rest, r - 1);
    } else {
        assert(row_start(lines, 0) == 0);
    }
}

/// Flat row starts never exceed character row starts in a segmented buffer.
pub proof fn lemma_row_start_le_char_start(lines: Seq<Seq<char>>, r: int)
    requires
        forall|k: int| 0 <= k < lines.len() ==> segmented(#[trigger] lines[k]),
        0 <= r <= lines.len(),
    ensures
        row_start(lines, r) <= char_start(lines, r),
    decreases r,
{
    if r > 0 {
        let rest = lines.drop_first();
        assert(segmented(lines[0]));
        lemma_grapheme_len_le(lines[0]);
        assert forall|k: int| 0 <= k < rest.len() implies segmented(#[trigger] rest[k]) by {
            assert(rest[k] == lines[k + 1]);
        }
        lemma_row_start_le_char_start(rest, r - 1);
    }
}

/// In a well-formed buffer the number of flat positions is at most the
/// length of the text.
pub proof fn lemma_total_le_text(lines: Seq<Seq<char>>)
    requires
        lines_wf(lines),
    ensures
        0 <= total_graphemes(lines) <= join_lines(lines).len(),
{
    let n = lines.len() as int;
    lemma_row_start_le_char_start(lines, n - 1);
    lemma_row_start_succ(lines, n - 1);
    assert(segmented(lines[n - 1]));
    lemma_grapheme_len_le(lines[n - 1]);
    lemma_join_take_len(lines, n - 1);
    assert(lines.take(n) =~= lines);
    lemma_starts_nonneg(lines, n - 1);
}

/// Row starts grow with the row.
pub proof fn lemma_char_start_monotone(lines: Seq<Seq<char>>, a: int, b: int)
    requires
        0 <= a < b <= lines.len(),
    ensures
        char_start(lines, a) + lines[a].len() + 1 <= char_start(lines, b),
    decreases b - a,
{
    lemma_char_start_succ(lines, a);
    if a + 1 < b {
        lemma_char_start_monotone(lines, a + 1, b);
    }
}

/// Replacing the text between (sr, sc) and (er, ec) by `x`: when the new rows
/// `m` join to the kept prefix of row `sr`, then `x`, then the kept suffix of
/// row `er`, the new text is the old text with that range replaced by `x`.
pub proof fn lemma_replace_between(
    lines: Seq<Seq<char>>,
    sr: int,
    sc: int,
    er: int,
    ec: int,
    m: Seq<Seq<char>>,
    x: Seq<char>,
)
    requires
        lines_wf(lines),
        0 <= sr <= er < lines.len(),
        0 <= sc <= grapheme_len(lines[sr]),
        0 <= ec <= grapheme_len(lines[er]),
        sr == er ==> sc <= ec,
        m.len() >= 1,
        join_lines(m) == cluster_prefix(lines[sr], sc) + x + cluster_suffix(lines[er], ec),
    ensures
        0 <= rowcol_offset(lines, sr, sc) <= rowcol_offset(lines, er, ec) <= join_lines(lines).len(),
        join_lines(lines.take(sr) + m + lines.skip(er + 1)) == join_lines(lines).take(
            rowcol_offset(lines, sr, sc),
        ) + x + join_lines(lines).skip(rowcol_offset(lines, er, ec)),
{
    let t = join_lines(lines);
    let ls = lines[sr];
    let le = lines[er];
    let p = cluster_prefix(ls, sc);
    let s = cluster_suffix(le, ec);
    let o1 = rowcol_offset(lines, sr, sc);
    let o2 = rowcol_offset(lines, er, ec);
    let cs1 = char_start(lines, sr);
    let cs2 = char_start(lines, er);
    assert(segmented(ls));
    assert(segmented(le));
    lemma_splice(lines, sr, er, m);
    lemma_row_in_text(lines, sr);
    lemma_row_in_text(lines, er);
    lemma_prefix_suffix(ls, sc);
    lemma_prefix_suffix(le, ec);
    lemma_starts_nonneg(lines, sr);
    if sr == er {
        lemma_prefix_extends(ls, sc, ec);
    } else {
        lemma_char_start_monotone(lines, sr, er);
    }
    // the kept prefix of row sr is the text from the row start to o1
    assert(t.take(o1) =~= t.take(cs1) + p) by {
        assert forall|k: int| cs1 <= k < o1 implies #[trigger] t[k] == p[k - cs1] by {
            let i = k - cs1;
            assert(t.subrange(cs1, cs1 + ls.len())[i] == ls[i]);
            assert(ls[i] == (p + cluster_suffix(ls, sc))[i]);
        }
        assert forall|k: int| 0 <= k < o1 implies #[trigger] t.take(o1)[k] == (t.take(cs1) + p)[k] by {
            if k >= cs1 {
                assert(t[k] == p[k - cs1]);
            }
        }
    }
    // the kept suffix of row er is the text from o2 to the row end
    let pe = cluster_prefix(le, ec);
    assert(t.skip(o2) =~= s + t.skip(cs2 + le.len())) by {
        assert forall|k: int| o2 <= k < cs2 + le.len() implies #[trigger] t[k] == s[k - o2] by {
            let i = k - o2;
            assert(t.subrange(cs2, cs2 + le.len())[pe.len() + i] == le[pe.len() + i]);
            assert(le[pe.len() + i] == (pe + s)[pe.len() + i]);
        }
        assert forall|k: int| 0 <= k < t.len() - o2 implies #[trigger] t.skip(o2)[k] == (s + t.skip(cs2 + le.len()))[k] by {
            if k < s.len() {
                assert(t[o2 + k] == s[o2 + k - o2]);
            }
        }
    }
    assert(join_lines(m) == p + x + s);
    assert(t.take(cs1) + join_lines(m) + t.skip(cs2 + le.len()) =~= t.take(o1) + x + t.skip(o2));
}

/// Replacing rows `sr..=er` by well-formed lines keeps a buffer well formed,
/// when the new text fits.
pub proof fn lemma_wf_splice(lines: Seq<Seq<char>>, sr: int, er: int, m: Seq<Seq<char>>)
    requires
        lines_wf(lines),
        0 <= sr <= er < lines.len(),
        m.len() >= 1,
        forall|i: int| 0 <= i < m.len() ==> no_newline(#[trigger] m[i]),
        forall|i: int| 0 <= i < m.len() ==> segmented(#[trigger] m[i]),
        join_lines(lines.take(sr) + m + lines.skip(er + 1)).len() <= isize::MAX,
    ensures
        lines_wf(lines.take(sr) + m + lines.skip(er + 1)),
{
    let nl = lines.take(sr) + m + lines.skip(er + 1);
    assert forall|i: int| 0 <= i < nl.len() implies no_newline(#[trigger] nl[i]) && segmented(nl[i]) by {
        if i < sr {
            assert(nl[i] == lines[i]);
        } else if i < sr + m.len() {
            assert(nl[i] == m[i - sr]);
        } else {
            assert(nl[i] == lines[i - sr - m.len() + er + 1]);
        }
    }
}

// ── Lemmas on splitting a text into lines ───────────────────────────────

/// A text always has at least one line.
pub proof fn lemma_split_nonempty(text: Seq<char>)
    ensures
        split_lines(text).len() >= 1,
    decreases text.len(),
{
    if text.len() > 0 {
        lemma_split_nonempty(text.drop_last());
    }
}

/// Appending newline-free characters extends the last line.
pub proof fn lemma_split_append_plain(text: Seq<char>, l: Seq<char>)
    requires
        no_newline(l),
    ensures
        ({
            let s = split_lines(text);
            split_lines(text + l) == s.update(s.len() - 1, s.last() + l)
        }),
    decreases l.len(),
{
    let s = split_lines(text);
    lemma_split_nonempty(text);
    if l.len() == 0 {
        assert(text + l =~= text);
        assert(s.update(s.len() - 1, s.last() + l) =~= s);
    } else {
        let l0 = l.drop_last();
        assert(no_newline(l0)) by {
            assert forall|i: int| 0 <= i < l0.len() implies #[trigger] l0[i] != '\n' by {
                assert(l0[i] == l[i]);
            }
        }
        lemma_split_append_plain(text, l0);
        assert((text + l).drop_last() =~= text + l0);
        assert((text + l).last() == l.last());
        assert(l.last() != '\n');
        assert(l0.push(l.last()) =~= l);
        let s0 = s.update(s.len() - 1, s.last() + l0);
        assert(s0.update(s0.len() - 1, s0.last().push(l.last())) =~= s.update(s.len() - 1, s.last() + l));
    }
}

/// Splitting the joined lines of a buffer whose lines hold no `'\n'` gives
/// back those lines: the text determines the lines.
pub proof fn lemma_split_join(lines: Seq<Seq<char>>)
    requires
        lines.len() >= 1,
        forall|i: int| 0 <= i < lines.len() ==> no_newline(#[trigger] lines[i]),
    ensures
        split_lines(join_lines(lines)) == lines,
    decreases lines.len(),
{
    let n = lines.len() as int;
    let x = lines[n - 1];
    assert(no_newline(x));
    if n == 1 {
        lemma_split_append_plain(Seq::<char>::empty(), x);
        assert(Seq::<char>::empty() + x =~= x);
        assert(split_lines(Seq::<char>::empty()) =~= seq![Seq::<char>::empty()]);
        assert(seq![Seq::<char>::empty()].update(0, Seq::<char>::empty() + x) =~= lines);
    } else {
        let front = lines.drop_last();
        assert forall|i: int| 0 <= i < front.len() implies no_newline(#[trigger] front[i]) by {
            assert(front[i] == lines[i]);
        }
        lemma_split_join(front);
        lemma_join_concat(front, seq![x]);
        assert(front + seq![x] =~= lines);
        let t = join_lines(front) + newline();
        assert(t.drop_last() =~= join_lines(front));
        assert(split_lines(t) == front.push(Seq::<char>::empty()));
        lemma_split_append_plain(t, x);
        assert(join_lines(lines) =~= t + x);
        assert(front.push(Seq::<char>::empty()).update(n - 1, Seq::<char>::empty() + x) =~= lines);
    }
}

/// Prepending to the first line prepends to the joined text.
pub proof fn lemma_join_prepend_first(lines: Seq<Seq<char>>, a: Seq<char>)
    requires
        lines.len() >= 1,
    ensures
        join_lines(lines.update(0, a + lines[0])) == a + join_lines(lines),
{
    let u = lines.update(0, a + lines[0]);
    if lines.len() > 1 {
        assert(u.drop_first() =~= lines.drop_first());
    }
}

/// Appending to the last line appends to the joined text.
pub proof fn lemma_join_append_last(lines: Seq<Seq<char>>, b: Seq<char>)
    requires
        lines.len() >= 1,
    ensures
        join_lines(lines.update(lines.len() - 1, lines.last() + b)) == join_lines(lines) + b,
    decreases lines.len(),
{
    let u = lines.update(lines.len() - 1, lines.last() + b);
    if lines.len() > 1 {
        lemma_join_append_last(lines.drop_first(), b);
        assert(u.drop_first() =~= lines.drop_first().update(lines.len() - 2, lines.last() + b));
    }
}

/// The joined text has at least one character per line break.
pub proof fn lemma_join_len_ge(lines: Seq<Seq<char>>)
    requires
        lines.len() >= 1,
    ensures
        join_lines(lines).len() + 1 >= lines.len(),
    decreases lines.len(),
{
    if lines.len() > 1 {
        lemma_join_len_ge(lines.drop_first());
    }
}

/// Each row adds at least one flat position.
pub proof fn lemma_row_start_ge(lines: Seq<Seq<char>>, r: int)
    requires
        0 <= r <= lines.len(),
    ensures
        row_start(lines, r) >= r,
    decreases r,
{
    if r > 0 {
        lemma_row_start_ge(lines.drop_first(), r - 1);
    }
}

/// A well-formed buffer with a non-empty text has a flat position.
pub proof fn lemma_count_pos(lines: Seq<Seq<char>>)
    requires
        lines_wf(lines),
        join_lines(lines).len() > 0,
    ensures
        total_graphemes(lines) > 0,
{
    lemma_row_start_ge(lines, lines.len() as int);
    if lines.len() == 1 {
        assert(segmented(lines[0]));
        if grapheme_clusters(lines[0]).len() == 0 {
            assert(grapheme_clusters(lines[0]).flatten() =~= Seq::<char>::empty());
        }
        assert(row_start(lines.drop_first(), 0) == 0);
    }
}

/// Joining the lines of a text gives the text back.
pub proof fn lemma_join_split(text: Seq<char>)
    ensures
        join_lines(split_lines(text)) == text,
        forall|i: int| 0 <= i < split_lines(text).len() ==> no_newline(#[trigger] split_lines(text)[i]),
    decreases text.len(),
{
    lemma_split_nonempty(text);
    if text.len() == 0 {
        assert(split_lines(text) =~= seq![Seq::<char>::empty()]);
        assert(join_lines(seq![Seq::<char>::empty()]) =~= text);
    } else {
        let t0 = text.drop_last();
        let s0 = split_lines(t0);
        lemma_join_split(t0);
        lemma_split_nonempty(t0);
        let c = text.last();
        assert(t0.push(c) =~= text);
        if c == '\n' {
            lemma_join_concat(s0, seq![Seq::<char>::empty()]);
            assert(s0.push(Seq::<char>::empty()) =~= s0 + seq![Seq::<char>::empty()]);
            assert(join_lines(s0) + newline() + Seq::<char>::empty() =~= text);
            let s1 = s0.push(Seq::<char>::empty());
            assert forall|i: int| 0 <= i < s1.len() implies no_newline(#[trigger] s1[i]) by {
                if i < s0.len() {
                    assert(s1[i] == s0[i]);
                }
            }
        } else {
            lemma_join_append_last(s0, seq![c]);
            assert(s0.last().push(c) =~= s0.last() + seq![c]);
            assert(join_lines(s0) + seq![c] =~= text);
            let s1 = s0.update(s0.len() - 1, s0.last().push(c));
            assert forall|i: int| 0 <= i < s1.len() implies no_newline(#[trigger] s1[i]) by {
                if i < s0.len() - 1 {
                    assert(s1[i] == s0[i]);
                } else {
                    assert(no_newline(s0.last()));
                    lemma_concat_no_newline(s0.last(), seq![c]);
                }
            }
        }
    }
}

} // verus!
