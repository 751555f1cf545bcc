//! Small string operations of std that the editing logic is built from.

use crate::layout::{join_lines, no_newline};
use vstd::prelude::*;

verus! {

/// Whether `c` has the Unicode `White_Space` property (PropList.txt):
/// U+0009..U+000D, U+0020, U+0085, U+00A0, U+1680, U+2000..U+200A,
/// U+2028, U+2029, U+202F, U+205F and U+3000.
pub open spec fn is_white_space(c: char) -> bool {
    ||| ('\u{9}' <= c && c <= '\u{d}')
    ||| c == ' '
    ||| c == '\u{85}'
    ||| c == '\u{a0}'
    ||| c == '\u{1680}'
    ||| ('\u{2000}' <= c && c <= '\u{200a}')
    ||| c == '\u{2028}'
    ||| c == '\u{2029}'
    ||| c == '\u{202f}'
    ||| c == '\u{205f}'
    ||| c == '\u{3000}'
}

/// Whether `c` is white space (as `char::is_whitespace` answers).
pub fn char_is_whitespace(c: char) -> (b: bool)
    ensures
        b == is_white_space(c),
{
    ('\u{9}' <= c && c <= '\u{d}') || c == ' ' || c == '\u{85}' || c == '\u{a0}'
        || c == '\u{1680}' || ('\u{2000}' <= c && c <= '\u{200a}') || c == '\u{2028}'
        || c == '\u{2029}' || c == '\u{202f}' || c == '\u{205f}' || c == '\u{3000}'
}

/// Calls `String::push_str`, which appends `t` to the end of `s`.
#[verifier::external_body]
pub(crate) fn push_str(s: &mut String, t: &str)
    ensures
        final(s)@ == old(s)@ + t@,
{
    s.push_str(t)
}

/// Calls `String::push`, which appends `c` to the end of `s`.
#[verifier::external_body]
pub(crate) fn push_char(s: &mut String, c: char)
    ensures
        final(s)@ == old(s)@.push(c),
{
    s.push(c)
}

proof fn lemma_views_push_string(v: Seq<String>, x: String)
    ensures
        v.push(x).map_values(|p: String| p@) == v.map_values(|p: String| p@).push(x@),
{
    assert(v.push(x).map_values(|p: String| p@) =~= v.map_values(|p: String| p@).push(x@));
}

/// The pieces of `s` between its `'\n'` characters, in order, each as a
/// `String` (what `str::split('\n')` yields). There is at least one piece,
/// no piece holds `'\n'`, and the pieces joined with `'\n'` give back `s`.
pub fn split_newlines(s: &str) -> (r: Vec<String>)
    ensures
        r@.len() >= 1,
        join_lines(r@.map_values(|p: String| p@)) == s@,
        forall|i: int| 0 <= i < r@.len() ==> no_newline(#[trigger] r@[i]@),
{
    let mut done: Vec<String> = Vec::new();
    let mut cur: Vec<char> = Vec::new();
    for c in it: s.chars()
        invariant
            it.seq() == s@,
            join_lines(done@.map_values(|p: String| p@).push(cur@)) == s@.take(it.index() as int),
            forall|i: int| 0 <= i < done@.len() ==> no_newline(#[trigger] done@[i]@),
            no_newline(cur@),
    {
        let ghost i = it.index();
        let ghost before = done@.map_values(|p: String| p@).push(cur@);
        proof {
            assert(s@.take(i + 1) =~= s@.take(i as int).push(c));
        }
        if c == '\n' {
            let piece = string_from_chars(&cur);
            let ghost old_done = done@;
            done.push(piece);
            cur = Vec::new();
            proof {
                lemma_views_push_string(old_done, piece);
                crate::layout::lemma_join_concat(before, seq![Seq::<char>::empty()]);
                assert(before + seq![Seq::<char>::empty()] =~= done@.map_values(|p: String| p@).push(
                    cur@,
                ));
                assert(join_lines(seq![Seq::<char>::empty()]) == Seq::<char>::empty());
                assert(s@.take(i + 1) =~= s@.take(i as int) + crate::layout::newline()
                    + Seq::<char>::empty());
            }
        } else {
            let ghost old_cur = cur@;
            cur.push(c);
            proof {
                let dv = done@.map_values(|p: String| p@);
                assert(old_cur + seq![c] =~= cur@);
                assert(before == dv.push(old_cur));
                crate::layout::lemma_join_append_last(before, seq![c]);
                assert(before.update(before.len() - 1, before.last() + seq![c]) =~= dv.push(cur@));
            }
        }
    }
    let last = string_from_chars(&cur);
    let ghost old_done = done@;
    done.push(last);
    proof {
        lemma_views_push_string(old_done, last);
        assert(s@.take(s@.len() as int) =~= s@);
    }
    done
}

/// `s` is "a" in either case (what `s.eq_ignore_ascii_case("a")` tests).
pub open spec fn is_a_letter(s: Seq<char>) -> bool {
    s.len() == 1 && (s[0] == 'a' || s[0] == 'A')
}

/// Whether `s` is "a" in either case.
pub fn eq_ignore_case_a(s: &str) -> (b: bool)
    ensures
        b == is_a_letter(s@),
{
    let mut first: char = ' ';
    let mut count: usize = 0;
    for c in it: s.chars()
        invariant
            it.seq() == s@,
            count == if it.index() < 2 { it.index() as int } else { 2 },
            count >= 1 ==> first == s@[0],
    {
        if count == 0 {
            first = c;
        }
        if count < 2 {
            count = count + 1;
        }
    }
    count == 1 && (first == 'a' || first == 'A')
}

/// True when every character of `s` is white space.
pub open spec fn all_white_space(s: Seq<char>) -> bool {
    forall|i: int| 0 <= i < s.len() ==> is_white_space(#[trigger] s[i])
}

/// Whether every character of `s` is white space (`s.chars().all(char::is_whitespace)`).
pub fn is_all_whitespace(s: &str) -> (b: bool)
    ensures
        b == all_white_space(s@),
{
    for c in it: s.chars()
        invariant
            it.seq() == s@,
            forall|i: int| 0 <= i < it.index() ==> is_white_space(#[trigger] s@[i]),
    {
        if !char_is_whitespace(c) {
            return false;
        }
    }
    true
}

/// The characters of `s`, in order.
pub fn chars_of(s: &str) -> (v: Vec<char>)
    ensures
        v@ == s@,
{
    let mut v: Vec<char> = Vec::new();
    for c in it: s.chars()
        invariant
            it.seq() == s@,
            v@ == s@.take(it.index() as int),
    {
        v.push(c);
    }
    proof {
        assert(s@.take(s@.len() as int) =~= s@);
    }
    v
}

/// A string made of the characters of `v`, in order.
pub fn string_from_chars(v: &Vec<char>) -> (r: String)
    ensures
        r@ == v@,
{
    let mut r = String::new();
    let mut i: usize = 0;
    while i < v.len()
        invariant
            i <= v@.len(),
            r@ == v@.take(i as int),
        decreases v@.len() - i,
    {
        push_char(&mut r, v[i]);
        proof {
            assert(v@.take(i + 1) =~= v@.take(i as int).push(v@[i as int]));
        }
        i = i + 1;
    }
    proof {
        assert(v@.take(v@.len() as int) =~= v@);
    }
    r
}

/// An owned copy of `s`.
pub fn owned(s: &str) -> (r: String)
    ensures
        r@ == s@,
{
    let mut r = String::new();
    push_str(&mut r, s);
    r
}

/// Whether `a` and `b` hold the same characters.
pub fn str_eq(a: &str, b: &str) -> (r: bool)
    ensures
        r == (a@ == b@),
{
    let x = chars_of(a);
    let y = chars_of(b);
    if x.len() != y.len() {
        return false;
    }
    let mut i: usize = 0;
    while i < x.len()
        invariant
            x@ == a@,
            y@ == b@,
            x@.len() == y@.len(),
            i <= x@.len(),
            forall|j: int| 0 <= j < i ==> x@[j] == y@[j],
        decreases x@.len() - i,
    {
        if x[i] != y[i] {
            return false;
        }
        i = i + 1;
    }
    proof {
        assert(a@ =~= b@);
    }
    true
}

/// `suffix` stands at the end of `s`.
pub open spec fn has_suffix(s: Seq<char>, suffix: Seq<char>) -> bool {
    suffix.len() <= s.len() && s.subrange(s.len() - suffix.len(), s.len() as int) == suffix
}

/// Whether `s` ends with `suffix` (`str::ends_with`).
pub fn ends_with(s: &str, suffix: &str) -> (r: bool)
    ensures
        r == has_suffix(s@, suffix@),
{
    let x = chars_of(s);
    let y = chars_of(suffix);
    if y.len() > x.len() {
        return false;
    }
    let off = x.len() - y.len();
    let mut i: usize = 0;
    while i < y.len()
        invariant
            x@ == s@,
            y@ == suffix@,
            y@.len() <= x@.len(),
            off == x@.len() - y@.len(),
            off + y@.len() == x.len(),
            i <= y@.len(),
            forall|j: int| 0 <= j < i ==> x@[off + j] == y@[j],
        decreases y@.len() - i,
    {
        if x[off + i] != y[i] {
            proof {
                assert(s@.subrange(off as int, s@.len() as int)[i as int] != suffix@[i as int]);
            }
            return false;
        }
        i = i + 1;
    }
    proof {
        assert(s@.subrange(off as int, s@.len() as int) =~= suffix@);
    }
    true
}

/// Whether the first character of `s` is `c` (`str::starts_with` with a `char`).
pub fn starts_with_char(s: &str, c: char) -> (r: bool)
    ensures
        r == (s@.len() > 0 && s@[0] == c),
{
    let x = chars_of(s);
    x.len() > 0 && x[0] == c
}

} // verus!
