//! Lexical path handling for the command line: paths as sequences of
//! components, normalized without touching the file system.

use crate::strings::{chars_of, string_from_chars};
use vstd::prelude::*;

verus! {

/// The operating system a path or a binary name is meant for.
#[derive(Clone, Copy, Debug, PartialEq, Eq)]
pub enum TargetOs {
    Windows,
    MacOs,
    Linux,
}

/// The processor architecture of a release asset.
#[derive(Clone, Copy, Debug, PartialEq, Eq)]
pub enum TargetArch {
    X86_64,
    Aarch64,
    Other,
}

/// One component of a path (as `std::path::Component` tells them apart).
#[derive(Clone, Debug)]
pub enum PathComponent {
    /// A Windows prefix such as `C:`.
    Prefix(String),
    /// The root directory.
    RootDir,
    /// `.`
    CurDir,
    /// `..`
    ParentDir,
    /// A name.
    Normal(String),
}

/// The plain value of a component.
pub enum ComponentView {
    Prefix(Seq<char>),
    RootDir,
    CurDir,
    ParentDir,
    Normal(Seq<char>),
}

/// The plain value of a component.
pub open spec fn component_view(c: PathComponent) -> ComponentView {
    match c {
        PathComponent::Prefix(s) => ComponentView::Prefix(s@),
        PathComponent::RootDir => ComponentView::RootDir,
        PathComponent::CurDir => ComponentView::CurDir,
        PathComponent::ParentDir => ComponentView::ParentDir,
        PathComponent::Normal(s) => ComponentView::Normal(s@),
    }
}

/// The plain values of a path's components.
pub open spec fn path_view(p: Seq<PathComponent>) -> Seq<ComponentView> {
    p.map_values(|c: PathComponent| component_view(c))
}

/// The leading prefix of `p`, if it has one.
pub open spec fn prefix_part(p: Seq<ComponentView>) -> Seq<ComponentView> {
    if p.len() > 0 && p[0] is Prefix { p.take(1) } else { Seq::empty() }
}

/// `PathBuf::pop`: drops the last name; a bare root or prefix stays.
pub open spec fn pop_component(p: Seq<ComponentView>) -> Seq<ComponentView> {
    if p.len() > 0 && p.last() is Normal { p.drop_last() } else { p }
}

/// `PathBuf::push` of one component: a name is appended, a root keeps
/// only the prefix before it, a prefix replaces the path, and `.` only
/// shows on an empty path.
pub open spec fn push_component(p: Seq<ComponentView>, c: ComponentView) -> Seq<ComponentView> {
    match c {
        ComponentView::Prefix(_) => seq![c],
        ComponentView::RootDir => prefix_part(p).push(c),
        ComponentView::CurDir => if p.len() == 0 { p.push(c) } else { p },
        _ => p.push(c),
    }
}

/// Lexical normalization: `.` is dropped, `..` drops the last name, every
/// other component is pushed.
pub open spec fn normalized(p: Seq<ComponentView>) -> Seq<ComponentView>
    decreases p.len(),
{
    if p.len() == 0 {
        Seq::empty()
    } else {
        let out = normalized(p.drop_last());
        match p.last() {
            ComponentView::CurDir => out,
            ComponentView::ParentDir => pop_component(out),
            _ => push_component(out, p.last()),
        }
    }
}

/// The path has a root directory.
pub open spec fn has_root(p: Seq<ComponentView>) -> bool {
    exists|i: int| 0 <= i < p.len() && p[i] is RootDir
}

/// `Path::is_absolute`: a root on Unix; a prefix and a root on Windows.
pub open spec fn is_absolute(os: TargetOs, p: Seq<ComponentView>) -> bool {
    if os == TargetOs::Windows {
        p.len() > 0 && p[0] is Prefix && has_root(p)
    } else {
        has_root(p)
    }
}

proof fn lemma_view_push(p: Seq<PathComponent>, c: PathComponent)
    ensures
        path_view(p.push(c)) == path_view(p).push(component_view(c)),
{
    assert(path_view(p.push(c)) =~= path_view(p).push(component_view(c)));
}

/// A copy of `c`.
pub fn clone_component(c: &PathComponent) -> (r: PathComponent)
    ensures
        component_view(r) == component_view(*c),
{
    match c {
        PathComponent::Prefix(s) => PathComponent::Prefix(s.clone()),
        PathComponent::RootDir => PathComponent::RootDir,
        PathComponent::CurDir => PathComponent::CurDir,
        PathComponent::ParentDir => PathComponent::ParentDir,
        PathComponent::Normal(s) => PathComponent::Normal(s.clone()),
    }
}

/// Lexically normalizes a path: resolves `.` and `..` without requiring
/// the path to exist.
pub fn normalize_path(path: &Vec<PathComponent>) -> (out: Vec<PathComponent>)
    ensures
        path_view(out@) == normalized(path_view(path@)),
{
    let mut out: Vec<PathComponent> = Vec::new();
    let mut i: usize = 0;
    while i < path.len()
        invariant
            i <= path@.len(),
            path_view(out@) == normalized(path_view(path@.take(i as int))),
        decreases path@.len() - i,
    {
        let ghost prev = path_view(out@);
        proof {
            assert(path@.take(i + 1).drop_last() =~= path@.take(i as int));
            assert(path_view(path@.take(i + 1)).drop_last() =~= path_view(path@.take(i as int)));
            assert(path_view(path@.take(i + 1)).last() == component_view(path@[i as int]));
        }
        match &path[i] {
            PathComponent::CurDir => {},
            PathComponent::ParentDir => {
                let n = out.len();
                if n > 0 {
                    if let PathComponent::Normal(_) = &out[n - 1] {
                        out.pop();
                        proof {
                            assert(path_view(out@) =~= prev.drop_last());
                        }
                    }
                }
            },
            PathComponent::Prefix(s) => {
                out = Vec::new();
                out.push(PathComponent::Prefix(s.clone()));
                proof {
                    assert(path_view(out@) =~= seq![component_view(path@[i as int])]);
                }
            },
            PathComponent::RootDir => {
                let mut kept: Vec<PathComponent> = Vec::new();
                if out.len() > 0 {
                    if let PathComponent::Prefix(s) = &out[0] {
                        kept.push(PathComponent::Prefix(s.clone()));
                    }
                }
                kept.push(PathComponent::RootDir);
                out = kept;
                proof {
                    assert(path_view(out@) =~= prefix_part(prev).push(ComponentView::RootDir));
                }
            },
            PathComponent::Normal(s) => {
                out.push(PathComponent::Normal(s.clone()));
                proof {
                    assert(path_view(out@) =~= prev.push(component_view(path@[i as int])));
                }
            },
        }
        i = i + 1;
    }
    proof {
        assert(path@.take(path@.len() as int) =~= path@);
    }
    out
}

/// Whether a path is absolute for `os`.
pub fn path_is_absolute(os: TargetOs, path: &Vec<PathComponent>) -> (b: bool)
    ensures
        b == is_absolute(os, path_view(path@)),
{
    let ghost v = path_view(path@);
    let mut root = false;
    let mut i: usize = 0;
    while i < path.len()
        invariant
            v == path_view(path@),
            i <= path@.len(),
            root == exists|j: int| 0 <= j < i && v[j] is RootDir,
        decreases path@.len() - i,
    {
        if let PathComponent::RootDir = &path[i] {
            root = true;
        }
        proof {
            if !root {
                assert forall|j: int| 0 <= j < i + 1 implies !(v[j] is RootDir) by {
                    if j < i {
                    } else {
                        assert(v[j] == component_view(path@[j]));
                    }
                }
            } else {
                assert(v[i as int] is RootDir || exists|j: int| 0 <= j < i && v[j] is RootDir);
            }
        }
        i = i + 1;
    }
    match os {
        TargetOs::Windows => {
            let prefixed = path.len() > 0 && match &path[0] {
                PathComponent::Prefix(_) => true,
                _ => false,
            };
            prefixed && root
        },
        _ => root,
    }
}

/// Resolves `value` against `base`: an absolute value stands alone, a
/// relative one is appended to `base`; the result is normalized.
pub fn resolve_from(os: TargetOs, base: &Vec<PathComponent>, value: &Vec<PathComponent>) -> (out: Vec<
    PathComponent,
>)
    ensures
        path_view(out@) == normalized(
            if is_absolute(os, path_view(value@)) {
                path_view(value@)
            } else {
                path_view(base@) + path_view(value@)
            },
        ),
{
    if path_is_absolute(os, value) {
        normalize_path(value)
    } else {
        let mut joined: Vec<PathComponent> = Vec::new();
        let mut i: usize = 0;
        while i < base.len()
            invariant
                i <= base@.len(),
                path_view(joined@) == path_view(base@.take(i as int)),
            decreases base@.len() - i,
        {
            let ghost prev = joined@;
            let c = clone_component(&base[i]);
            joined.push(c);
            proof {
                lemma_view_push(prev, c);
                lemma_view_push(base@.take(i as int), base@[i as int]);
                assert(base@.take(i + 1) =~= base@.take(i as int).push(base@[i as int]));
            }
            i = i + 1;
        }
        let mut k: usize = 0;
        while k < value.len()
            invariant
                k <= value@.len(),
                path_view(joined@) == path_view(base@) + path_view(value@.take(k as int)),
            decreases value@.len() - k,
        {
            proof {
                assert(base@.take(base@.len() as int) =~= base@);
            }
            let ghost prev = joined@;
            let c = clone_component(&value[k]);
            joined.push(c);
            proof {
                lemma_view_push(prev, c);
                lemma_view_push(value@.take(k as int), value@[k as int]);
                assert(value@.take(k + 1) =~= value@.take(k as int).push(value@[k as int]));
                assert(path_view(joined@) =~= path_view(base@) + path_view(value@.take(k + 1)));
            }
            k = k + 1;
        }
        proof {
            assert(base@.take(base@.len() as int) =~= base@);
            assert(value@.take(value@.len() as int) =~= value@);
        }
        normalize_path(&joined)
    }
}

/// `Path::parent`: the path without its last component, unless that is a
/// root or a prefix (or the path is empty).
pub open spec fn parent_of(p: Seq<ComponentView>) -> Option<Seq<ComponentView>> {
    if p.len() > 0 && !(p.last() is Prefix) && !(p.last() is RootDir) {
        Some(p.drop_last())
    } else {
        None
    }
}

/// `Path::file_name`: the last component, when it is a name.
pub open spec fn file_name_of(p: Seq<ComponentView>) -> Option<Seq<char>> {
    if p.len() > 0 && p.last() is Normal {
        Some(p.last()->Normal_0)
    } else {
        None
    }
}

/// The index of the last `c` in `s`, or -1.
pub open spec fn last_index_of(s: Seq<char>, c: char) -> int
    decreases s.len(),
{
    if s.len() == 0 {
        -1
    } else if s.last() == c {
        s.len() - 1
    } else {
        last_index_of(s.drop_last(), c)
    }
}

/// `Path::file_stem` of a file name: the part before the last `.`; a
/// name whose only dot leads it, and `..`, are their own stem.
pub open spec fn stem_of(name: Seq<char>) -> Seq<char> {
    let k = last_index_of(name, '.');
    if name == seq!['.', '.'] || k <= 0 {
        name
    } else {
        name.take(k)
    }
}

/// `Path::file_stem`.
pub open spec fn file_stem_of(p: Seq<ComponentView>) -> Option<Seq<char>> {
    match file_name_of(p) {
        Some(n) => Some(stem_of(n)),
        None => None,
    }
}

/// The path and each ancestor that `PathBuf::pop` reaches from it, nearest first.
pub open spec fn ancestors(p: Seq<ComponentView>) -> Seq<Seq<ComponentView>>
    decreases p.len(),
{
    match parent_of(p) {
        Some(q) => seq![p] + ancestors(q),
        None => seq![p],
    }
}

proof fn lemma_last_index_bounds(s: Seq<char>, c: char)
    ensures
        -1 <= last_index_of(s, c) < s.len(),
        last_index_of(s, c) >= 0 ==> s[last_index_of(s, c)] == c,
        forall|j: int| last_index_of(s, c) < j < s.len() ==> s[j] != c,
    decreases s.len(),
{
    if s.len() > 0 && s.last() != c {
        lemma_last_index_bounds(s.drop_last(), c);
        assert forall|j: int| last_index_of(s, c) < j < s.len() implies s[j] != c by {
            if j < s.len() - 1 {
                assert(s.drop_last()[j] == s[j]);
            }
        }
    }
}

/// A copy of `p`.
pub fn clone_path(p: &Vec<PathComponent>) -> (r: Vec<PathComponent>)
    ensures
        path_view(r@) == path_view(p@),
{
    let mut r: Vec<PathComponent> = Vec::new();
    let mut i: usize = 0;
    while i < p.len()
        invariant
            i <= p@.len(),
            path_view(r@) == path_view(p@.take(i as int)),
        decreases p@.len() - i,
    {
        let ghost prev = r@;
        let c = clone_component(&p[i]);
        r.push(c);
        proof {
            lemma_view_push(prev, c);
            lemma_view_push(p@.take(i as int), p@[i as int]);
            assert(p@.take(i + 1) =~= p@.take(i as int).push(p@[i as int]));
        }
        i = i + 1;
    }
    proof {
        assert(p@.take(p@.len() as int) =~= p@);
    }
    r
}

/// Whether `p` has a parent (`Path::parent` is `Some`).
pub fn has_parent(p: &Vec<PathComponent>) -> (b: bool)
    ensures
        b == parent_of(path_view(p@)) is Some,
{
    let n = p.len();
    if n == 0 {
        return false;
    }
    proof {
        assert(path_view(p@).last() == component_view(p@[n - 1]));
    }
    match &p[n - 1] {
        PathComponent::Prefix(_) => false,
        PathComponent::RootDir => false,
        _ => true,
    }
}

/// `Path::parent`.
pub fn parent(p: &Vec<PathComponent>) -> (r: Option<Vec<PathComponent>>)
    ensures
        match r {
            Some(q) => parent_of(path_view(p@)) == Some(path_view(q@)),
            None => parent_of(path_view(p@)) is None,
        },
{
    if has_parent(p) {
        let mut q = clone_path(p);
        let ghost before = q@;
        q.pop();
        proof {
            assert(q@ =~= before.drop_last());
            assert(path_view(q@) =~= path_view(before).drop_last());
        }
        Some(q)
    } else {
        None
    }
}

/// `Path::file_stem`: the file name without its extension.
pub fn file_stem(p: &Vec<PathComponent>) -> (r: Option<String>)
    ensures
        match r {
            Some(s) => file_stem_of(path_view(p@)) == Some(s@),
            None => file_stem_of(path_view(p@)) is None,
        },
{
    let n = p.len();
    if n == 0 {
        return None;
    }
    proof {
        assert(path_view(p@).last() == component_view(p@[n - 1]));
    }
    match &p[n - 1] {
        PathComponent::Normal(name) => {
            let chars = chars_of(name.as_str());
            let ghost v = chars@;
            let mut k: usize = chars.len();
            proof {
                assert(v.take(v.len() as int) =~= v);
            }
            while k > 0 && chars[k - 1] != '.'
                invariant
                    chars@ == v,
                    k <= v.len(),
                    last_index_of(v, '.') == last_index_of(v.take(k as int), '.'),
                decreases k,
            {
                proof {
                    assert(v.take(k as int).drop_last() =~= v.take(k - 1));
                }
                k = k - 1;
            }
            proof {
                if k > 0 {
                    assert(v.take(k as int).last() == '.');
                } else {
                    assert(v.take(0) =~= Seq::<char>::empty());
                }
                lemma_last_index_bounds(v, '.');
            }
            let dotdot = chars.len() == 2 && chars[0] == '.' && chars[1] == '.';
            proof {
                if dotdot {
                    assert(v =~= seq!['.', '.']);
                }
                if v =~= seq!['.', '.'] {
                    assert(v[0] == '.' && v[1] == '.');
                }
            }
            if dotdot || k <= 1 {
                Some(string_from_chars(&chars))
            } else {
                let mut stem: Vec<char> = Vec::new();
                let mut i: usize = 0;
                while i < k - 1
                    invariant
                        chars@ == v,
                        1 < k <= v.len(),
                        i <= k - 1,
                        stem@ == v.take(i as int),
                    decreases k - 1 - i,
                {
                    stem.push(chars[i]);
                    proof {
                        assert(v.take(i + 1) =~= v.take(i as int).push(v[i as int]));
                    }
                    i = i + 1;
                }
                Some(string_from_chars(&stem))
            }
        },
        _ => None,
    }
}

} // verus!
