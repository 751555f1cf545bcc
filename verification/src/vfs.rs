//! The virtual file system of a standalone payload: the listing of a dist
//! directory in a stable order, and the byte ranges of its files in the
//! payload's blob.

use crate::strings::{chars_of, owned, push_str, string_from_chars};
use vstd::prelude::*;

verus! {

/// `s` with each `\` written as `/`.
pub open spec fn forward_slashes(s: Seq<char>) -> Seq<char> {
    s.map_values(|c: char| if c == '\\' { '/' } else { c })
}

/// The order of `String`s (`Ord`): by their characters, lexicographically.
pub open spec fn path_lt(a: Seq<char>, b: Seq<char>) -> bool
    decreases a.len(),
{
    if b.len() == 0 {
        false
    } else if a.len() == 0 {
        true
    } else if a[0] != b[0] {
        a[0] < b[0]
    } else {
        path_lt(a.drop_first(), b.drop_first())
    }
}

/// No string is before itself.
pub proof fn lemma_path_lt_irreflexive(a: Seq<char>)
    ensures
        !path_lt(a, a),
    decreases a.len(),
{
    if a.len() > 0 {
        lemma_path_lt_irreflexive(a.drop_first());
    }
}

/// The order is transitive.
pub proof fn lemma_path_lt_transitive(a: Seq<char>, b: Seq<char>, c: Seq<char>)
    requires
        path_lt(a, b),
        path_lt(b, c),
    ensures
        path_lt(a, c),
    decreases a.len(),
{
    if a.len() > 0 && b.len() > 0 && c.len() > 0 && a[0] == b[0] && b[0] == c[0] {
        lemma_path_lt_transitive(a.drop_first(), b.drop_first(), c.drop_first());
    }
}

/// Of two different strings, one is before the other.
pub proof fn lemma_path_lt_total(a: Seq<char>, b: Seq<char>)
    ensures
        path_lt(a, b) || path_lt(b, a) || a == b,
    decreases a.len(),
{
    if a.len() > 0 && b.len() > 0 && a[0] == b[0] {
        lemma_path_lt_total(a.drop_first(), b.drop_first());
        if a.drop_first() == b.drop_first() {
            assert(a =~= seq![a[0]] + a.drop_first());
            assert(b =~= seq![b[0]] + b.drop_first());
        }
    } else if a.len() > 0 && b.len() > 0 {
    } else if a.len() == 0 && b.len() == 0 {
        assert(a =~= b);
    }
}

/// Whether `a` comes before `b` (`a < b` on strings).
pub fn str_lt(a: &str, b: &str) -> (r: bool)
    ensures
        r == path_lt(a@, b@),
{
    let x = chars_of(a);
    let y = chars_of(b);
    let mut i: usize = 0;
    proof {
        assert(a@.skip(0) =~= a@);
        assert(b@.skip(0) =~= b@);
    }
    while i < x.len() && i < y.len() && x[i] == y[i]
        invariant
            x@ == a@,
            y@ == b@,
            i <= x@.len(),
            i <= y@.len(),
            path_lt(a@, b@) == path_lt(a@.skip(i as int), b@.skip(i as int)),
        decreases x@.len() - i,
    {
        proof {
            assert(a@.skip(i as int).drop_first() =~= a@.skip(i + 1));
            assert(b@.skip(i as int).drop_first() =~= b@.skip(i + 1));
        }
        i = i + 1;
    }
    if i == y.len() {
        false
    } else if i == x.len() {
        true
    } else {
        x[i] < y[i]
    }
}

/// Two listed entries in the order the listing keeps: by path, and in
/// the order they were found when the paths are equal.
pub open spec fn in_order(a: Seq<char>, b: Seq<char>, found_a: int, found_b: int) -> bool {
    path_lt(a, b) || (a == b && found_a < found_b)
}

/// `out` is `found`, with `\` written as `/` in each path, ordered by path
/// and, for equal paths, in the order found: `out[k]` is `found[order[k]]`.
pub open spec fn is_listing_of<T>(found: Seq<(String, T)>, out: Seq<(String, T)>, order: Seq<int>) -> bool {
    &&& out.len() == found.len()
    &&& order.len() == found.len()
    &&& forall|k: int| 0 <= k < order.len() ==> 0 <= #[trigger] order[k] < found.len()
    &&& forall|k: int, l: int|
        0 <= k < order.len() && 0 <= l < order.len() && k != l ==> #[trigger] order[k]
            != #[trigger] order[l]
    &&& forall|k: int|
        0 <= k < out.len() ==> (#[trigger] out[k]).0@ == forward_slashes(found[order[k]].0@)
            && out[k].1 == found[order[k]].1
    &&& forall|k: int, l: int|
        0 <= k < l < out.len() ==> in_order(
            (#[trigger] out[k]).0@,
            (#[trigger] out[l]).0@,
            order[k],
            order[l],
        )
}

fn to_forward_slashes(s: &str) -> (r: String)
    ensures
        r@ == forward_slashes(s@),
{
    let x = chars_of(s);
    let mut out: Vec<char> = Vec::new();
    let mut i: usize = 0;
    while i < x.len()
        invariant
            x@ == s@,
            i <= x@.len(),
            out@ == forward_slashes(x@.take(i as int)),
        decreases x@.len() - i,
    {
        let c = x[i];
        if c == '\\' {
            out.push('/');
        } else {
            out.push(c);
        }
        proof {
            assert(x@.take(i + 1) =~= x@.take(i as int).push(c));
            assert(out@ =~= forward_slashes(x@.take(i + 1)));
        }
        i = i + 1;
    }
    proof {
        assert(x@.take(x@.len() as int) =~= x@);
    }
    string_from_chars(&out)
}

/// The files found under a directory, as (relative path, full path) pairs
/// in the order the directory walk met them, made into the payload's
/// listing: relative paths use `/` on every platform, and the listing is
/// ordered by relative path (entries with equal paths keep their order).
pub fn walk_dir<T>(found: Vec<(String, T)>) -> (out: Vec<(String, T)>)
    ensures
        exists|order: Seq<int>| is_listing_of(found@, out@, order),
{
    let ghost orig = found@;
    let n = found.len();
    let mut rest = found;
    let mut out: Vec<(String, T)> = Vec::new();
    let ghost mut order: Seq<int> = Seq::empty();
    let mut i: usize = 0;
    while i < n
        invariant
            n == orig.len(),
            i <= n,
            rest@ == orig.subrange(i as int, n as int),
            out@.len() == i,
            order.len() == i,
            forall|k: int| 0 <= k < i ==> 0 <= #[trigger] order[k] < i,
            forall|k: int, l: int|
                0 <= k < i && 0 <= l < i && k != l ==> #[trigger] order[k] != #[trigger] order[l],
            forall|k: int|
                0 <= k < i ==> (#[trigger] out@[k]).0@ == forward_slashes(orig[order[k]].0@)
                    && out@[k].1 == orig[order[k]].1,
            forall|k: int, l: int|
                0 <= k < l < i ==> in_order(
                    (#[trigger] out@[k]).0@,
                    (#[trigger] out@[l]).0@,
                    order[k],
                    order[l],
                ),
        decreases n - i,
    {
        let (raw, value) = rest.remove(0);
        proof {
            assert(raw == orig[i as int].0 && value == orig[i as int].1);
        }
        let key = to_forward_slashes(raw.as_str());
        let mut j: usize = out.len();
        while j > 0 && str_lt(key.as_str(), out[j - 1].0.as_str())
            invariant
                j <= out@.len(),
                forall|m: int| j <= m < out@.len() ==> path_lt(key@, (#[trigger] out@[m]).0@),
            decreases j,
        {
            j = j - 1;
        }
        proof {
            if j > 0 {
                lemma_path_lt_total(key@, out@[j - 1].0@);
            }
        }
        let ghost old_out = out@;
        let ghost old_order = order;
        out.insert(j, (key, value));
        proof {
            order = old_order.insert(j as int, i as int);
            assert forall|k: int| 0 <= k < i + 1 implies 0 <= #[trigger] order[k] < i + 1 by {
                if k < j {
                    assert(order[k] == old_order[k]);
                } else if k > j {
                    assert(order[k] == old_order[k - 1]);
                }
            }
            assert forall|k: int, l: int|
                0 <= k < i + 1 && 0 <= l < i + 1 && k != l implies #[trigger] order[k]
                != #[trigger] order[l] by {
                let ok = if k < j {
                    k
                } else {
                    k - 1
                };
                let ol = if l < j {
                    l
                } else {
                    l - 1
                };
                if k != j && l != j {
                    assert(order[k] == old_order[ok]);
                    assert(order[l] == old_order[ol]);
                } else if k == j {
                    assert(order[l] == old_order[ol]);
                } else {
                    assert(order[k] == old_order[ok]);
                }
            }
            assert forall|k: int| 0 <= k < i + 1 implies (#[trigger] out@[k]).0@ == forward_slashes(
                orig[order[k]].0@,
            ) && out@[k].1 == orig[order[k]].1 by {
                if k < j {
                    assert(out@[k] == old_out[k]);
                    assert(order[k] == old_order[k]);
                } else if k > j {
                    assert(out@[k] == old_out[k - 1]);
                    assert(order[k] == old_order[k - 1]);
                }
            }
            assert forall|k: int, l: int| 0 <= k < l < i + 1 implies in_order(
                (#[trigger] out@[k]).0@,
                (#[trigger] out@[l]).0@,
                order[k],
                order[l],
            ) by {
                if l < j {
                    assert(out@[k] == old_out[k] && out@[l] == old_out[l]);
                    assert(order[k] == old_order[k] && order[l] == old_order[l]);
                } else if k > j {
                    assert(out@[k] == old_out[k - 1] && out@[l] == old_out[l - 1]);
                    assert(order[k] == old_order[k - 1] && order[l] == old_order[l - 1]);
                } else if k < j && l > j {
                    assert(out@[k] == old_out[k] && out@[l] == old_out[l - 1]);
                    assert(order[k] == old_order[k] && order[l] == old_order[l - 1]);
                } else if l == j {
                    assert(out@[k] == old_out[k]);
                    assert(order[k] == old_order[k]);
                    let a = old_out[k].0@;
                    let b = old_out[j - 1].0@;
                    if k < j - 1 {
                        assert(in_order(old_out[k].0@, old_out[j - 1].0@, old_order[k], old_order[j - 1]));
                    }
                    if path_lt(a, b) && path_lt(b, key@) {
                        lemma_path_lt_transitive(a, b, key@);
                    }
                } else {
                    assert(k == j);
                    assert(out@[l] == old_out[l - 1]);
                }
            }
        }
        i = i + 1;
    }
    proof {
        assert(is_listing_of(orig, out@, order));
    }
    out
}

/// A payload entry whose bytes cannot be taken from the blob.
#[derive(Debug)]
pub enum VfsError {
    /// The entry's end does not fit in a `usize`.
    LengthOverflow,
    /// The entry, named by its relative path, ends past the blob.
    OutOfBounds(String),
}

impl VfsError {
    /// The error as text.
    pub fn message(&self) -> (r: String)
        ensures
            r@ == match self {
                VfsError::LengthOverflow => "manifest entry length overflow"@,
                VfsError::OutOfBounds(p) => "manifest entry out of bounds for "@ + p@,
            },
    {
        match self {
            VfsError::LengthOverflow => owned("manifest entry length overflow"),
            VfsError::OutOfBounds(p) => {
                let mut r = owned("manifest entry out of bounds for ");
                push_str(&mut r, p.as_str());
                r
            },
        }
    }
}

/// The bytes `start..start + len` of a blob of `blob_len` bytes that hold
/// the file at `relative_path`, or why they cannot be taken.
pub fn entry_byte_range(relative_path: &str, start: usize, len: usize, blob_len: usize) -> (r:
    Result<(usize, usize), VfsError>)
    ensures
        start + len > usize::MAX ==> r matches Err(VfsError::LengthOverflow),
        start + len <= usize::MAX && start + len > blob_len ==> (r matches Err(
            VfsError::OutOfBounds(p),
        ) && p@ == relative_path@),
        start + len <= blob_len ==> r == Ok::<(usize, usize), VfsError>(
            (start, (start + len) as usize),
        ),
{
    let end = match start.checked_add(len) {
        Some(e) => e,
        None => return Err(VfsError::LengthOverflow),
    };
    if end > blob_len {
        return Err(VfsError::OutOfBounds(owned(relative_path)));
    }
    Ok((start, end))
}

} // verus!
