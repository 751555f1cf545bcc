//! How an app is launched: from a source file during development, or from
//! a payload embedded in a standalone executable and extracted next to it
//! or into the user's data directory.

use crate::paths::{
    clone_path, component_view, file_stem, file_stem_of, parent, parent_of, path_view,
    push_component, ComponentView, PathComponent, TargetOs,
};
use crate::strings::{chars_of, owned, push_char, push_str};
use vstd::prelude::*;

verus! {

/// Where the app's files are and which file it starts from.
#[derive(Debug)]
pub enum LaunchMode {
    /// Running a source file directly.
    Dev { app_root: Vec<PathComponent>, entry_path: Vec<PathComponent> },
    /// Running from an extracted standalone payload.
    Standalone {
        app_root: Vec<PathComponent>,
        entry_path: Vec<PathComponent>,
        extraction_dir: Vec<PathComponent>,
    },
}

impl LaunchMode {
    /// The directory that holds the app.
    pub fn app_root(&self) -> (r: &Vec<PathComponent>)
        ensures
            r == match self {
                LaunchMode::Dev { app_root, .. } => app_root,
                LaunchMode::Standalone { app_root, .. } => app_root,
            },
    {
        match self {
            LaunchMode::Dev { app_root, .. } => app_root,
            LaunchMode::Standalone { app_root, .. } => app_root,
        }
    }

    /// The file the app starts from.
    pub fn entry_path(&self) -> (r: &Vec<PathComponent>)
        ensures
            r == match self {
                LaunchMode::Dev { entry_path, .. } => entry_path,
                LaunchMode::Standalone { entry_path, .. } => entry_path,
            },
    {
        match self {
            LaunchMode::Dev { entry_path, .. } => entry_path,
            LaunchMode::Standalone { entry_path, .. } => entry_path,
        }
    }
}

/// `PathBuf::join`: each component of `rel` pushed onto `base` in turn.
pub open spec fn joined(base: Seq<ComponentView>, rel: Seq<ComponentView>) -> Seq<ComponentView>
    decreases rel.len(),
{
    if rel.len() == 0 {
        base
    } else {
        push_component(joined(base, rel.drop_last()), rel.last())
    }
}

/// Pushes one component onto `p` as `PathBuf::push` does.
pub fn push_one(p: &mut Vec<PathComponent>, c: PathComponent)
    ensures
        path_view(final(p)@) == push_component(path_view(old(p)@), component_view(c)),
{
    let ghost prev = path_view(p@);
    match c {
        PathComponent::Prefix(s) => {
            let mut q: Vec<PathComponent> = Vec::new();
            q.push(PathComponent::Prefix(s));
            *p = q;
            proof {
                assert(path_view(p@) =~= seq![component_view(c)]);
            }
        },
        PathComponent::RootDir => {
            let mut q: Vec<PathComponent> = Vec::new();
            if p.len() > 0 {
                if let PathComponent::Prefix(s) = &p[0] {
                    q.push(PathComponent::Prefix(s.clone()));
                }
            }
            q.push(PathComponent::RootDir);
            *p = q;
            proof {
                assert(path_view(p@) =~= crate::paths::prefix_part(prev).push(
                    ComponentView::RootDir,
                ));
            }
        },
        PathComponent::CurDir => {
            if p.len() == 0 {
                p.push(PathComponent::CurDir);
                proof {
                    assert(path_view(p@) =~= prev.push(ComponentView::CurDir));
                }
            }
        },
        PathComponent::ParentDir => {
            p.push(PathComponent::ParentDir);
            proof {
                assert(path_view(p@) =~= prev.push(ComponentView::ParentDir));
            }
        },
        PathComponent::Normal(s) => {
            let ghost v = s@;
            p.push(PathComponent::Normal(s));
            proof {
                assert(path_view(p@) =~= prev.push(ComponentView::Normal(v)));
            }
        },
    }
}

/// `base` joined with `rel`.
pub fn join(base: &Vec<PathComponent>, rel: &Vec<PathComponent>) -> (r: Vec<PathComponent>)
    ensures
        path_view(r@) == joined(path_view(base@), path_view(rel@)),
{
    let mut out = clone_path(base);
    let mut i: usize = 0;
    while i < rel.len()
        invariant
            i <= rel@.len(),
            path_view(out@) == joined(path_view(base@), path_view(rel@.take(i as int))),
        decreases rel@.len() - i,
    {
        let c = crate::paths::clone_component(&rel[i]);
        push_one(&mut out, c);
        proof {
            assert(path_view(rel@.take(i + 1)).drop_last() =~= path_view(rel@.take(i as int)));
            assert(path_view(rel@.take(i + 1)).last() == component_view(rel@[i as int]));
        }
        i = i + 1;
    }
    proof {
        assert(rel@.take(rel@.len() as int) =~= rel@);
    }
    out
}

/// A path of one name.
pub open spec fn name_path(name: Seq<char>) -> Seq<ComponentView> {
    seq![ComponentView::Normal(name)]
}

fn name_component(name: &str) -> (r: Vec<PathComponent>)
    ensures
        path_view(r@) == name_path(name@),
{
    let mut r: Vec<PathComponent> = Vec::new();
    r.push(PathComponent::Normal(owned(name)));
    proof {
        assert(path_view(r@) =~= name_path(name@));
    }
    r
}

/// The launch of a source file in development: the app's root is the
/// entry's directory, or `cwd` when the entry has none.
pub fn dev_launch(cwd: &Vec<PathComponent>, entry_path: Vec<PathComponent>) -> (r: LaunchMode)
    ensures
        match r {
            LaunchMode::Dev { app_root, entry_path: e } => path_view(e@) == path_view(entry_path@)
                && path_view(app_root@) == match parent_of(path_view(entry_path@)) {
                Some(q) => q,
                None => path_view(cwd@),
            },
            _ => false,
        },
{
    let app_root = match parent(&entry_path) {
        Some(q) => q,
        None => clone_path(cwd),
    };
    LaunchMode::Dev { app_root, entry_path }
}

/// The launch of an extracted payload: the app's root is the payload's
/// dist directory inside `extraction_dir`, and the entry is resolved
/// against `extraction_dir` (its relative path already begins with the
/// dist directory).
pub fn standalone_launch(
    extraction_dir: Vec<PathComponent>,
    dist_root: &Vec<PathComponent>,
    entry_rel: &Vec<PathComponent>,
) -> (r: LaunchMode)
    ensures
        match r {
            LaunchMode::Standalone { app_root, entry_path, extraction_dir: x } => path_view(x@)
                == path_view(extraction_dir@) && path_view(app_root@) == joined(
                path_view(extraction_dir@),
                path_view(dist_root@),
            ) && path_view(entry_path@) == joined(
                path_view(extraction_dir@),
                path_view(entry_rel@),
            ),
            _ => false,
        },
{
    let app_root = join(&extraction_dir, dist_root);
    let entry_path = join(&extraction_dir, entry_rel);
    LaunchMode::Standalone { app_root, entry_path, extraction_dir }
}

/// `s` with each `/` written as the separator of `os` (`\` on Windows).
pub open spec fn with_native_separators(os: TargetOs, s: Seq<char>) -> Seq<char> {
    if os == TargetOs::Windows {
        s.map_values(|c: char| if c == '/' { '\\' } else { c })
    } else {
        s
    }
}

/// A `/`-separated relative path written with the separators of `os`.
pub fn native_separators(os: TargetOs, s: &str) -> (r: String)
    ensures
        r@ == with_native_separators(os, s@),
{
    match os {
        TargetOs::Windows => {
            let x = chars_of(s);
            let mut r = String::new();
            let mut i: usize = 0;
            while i < x.len()
                invariant
                    x@ == s@,
                    i <= x@.len(),
                    r@ == x@.take(i as int).map_values(
                        |c: char|
                            if c == '/' {
                                '\\'
                            } else {
                                c
                            },
                    ),
                decreases x@.len() - i,
            {
                let c = x[i];
                if c == '/' {
                    push_char(&mut r, '\\');
                } else {
                    push_char(&mut r, c);
                }
                proof {
                    assert(x@.take(i + 1) =~= x@.take(i as int).push(c));
                    assert(r@ =~= x@.take(i + 1).map_values(
                        |c: char|
                            if c == '/' {
                                '\\'
                            } else {
                                c
                            },
                    ));
                }
                i = i + 1;
            }
            proof {
                assert(x@.take(x@.len() as int) =~= x@);
            }
            r
        },
        _ => owned(s),
    }
}

/// The name of the executable without its extension, or `uzumaki_app`.
pub open spec fn exe_stem_of(exe: Seq<ComponentView>) -> Seq<char> {
    match file_stem_of(exe) {
        Some(s) => s,
        None => "uzumaki_app"@,
    }
}

fn exe_stem(exe: &Vec<PathComponent>) -> (r: String)
    ensures
        r@ == exe_stem_of(path_view(exe@)),
{
    match file_stem(exe) {
        Some(s) => s,
        None => owned("uzumaki_app"),
    }
}

/// The extraction directory tried first: `.<exe stem>/<hash>` next to the
/// executable, when the executable's path has a parent.
pub open spec fn preferred_extraction_dir_of(
    exe: Seq<ComponentView>,
    hash: Seq<ComponentView>,
) -> Option<Seq<ComponentView>> {
    match parent_of(exe) {
        Some(dir) => Some(
            joined(joined(dir, name_path(seq!['.'] + exe_stem_of(exe))), hash),
        ),
        None => None,
    }
}

/// The extraction directory to try first (the caller checks that it can
/// be created and written).
pub fn preferred_extraction_dir(exe: &Vec<PathComponent>, hash: &Vec<PathComponent>) -> (r:
    Option<Vec<PathComponent>>)
    ensures
        match r {
            Some(d) => preferred_extraction_dir_of(path_view(exe@), path_view(hash@)) == Some(
                path_view(d@),
            ),
            None => preferred_extraction_dir_of(path_view(exe@), path_view(hash@)) is None,
        },
{
    match parent(exe) {
        Some(dir) => {
            let stem = exe_stem(exe);
            let mut hidden = owned(".");
            push_str(&mut hidden, stem.as_str());
            proof {
                reveal_strlit(".");
                assert(hidden@ =~= seq!['.'] + exe_stem_of(path_view(exe@)));
            }
            let named = join(&dir, &name_component(hidden.as_str()));
            Some(join(&named, hash))
        },
        None => None,
    }
}

/// The extraction directory used otherwise: `uzumaki/<exe stem>/<hash>`
/// under the local data directory `base`.
pub open spec fn fallback_extraction_dir_of(
    base: Seq<ComponentView>,
    exe: Seq<ComponentView>,
    hash: Seq<ComponentView>,
) -> Seq<ComponentView> {
    joined(joined(joined(base, name_path("uzumaki"@)), name_path(exe_stem_of(exe))), hash)
}

/// The extraction directory under the local data directory `base`.
pub fn fallback_extraction_dir(
    base: &Vec<PathComponent>,
    exe: &Vec<PathComponent>,
    hash: &Vec<PathComponent>,
) -> (r: Vec<PathComponent>)
    ensures
        path_view(r@) == fallback_extraction_dir_of(
            path_view(base@),
            path_view(exe@),
            path_view(hash@),
        ),
{
    let a = join(base, &name_component("uzumaki"));
    let stem = exe_stem(exe);
    let b = join(&a, &name_component(stem.as_str()));
    join(&b, hash)
}

/// The per-user data directory of `os`, from the environment's values:
/// `LOCALAPPDATA` on Windows; `$HOME/Library/Application Support` on
/// macOS; `XDG_DATA_HOME`, else `$HOME/.local/share`, on Linux.
pub open spec fn local_data_dir_of(
    os: TargetOs,
    local_app_data: Option<Seq<ComponentView>>,
    home: Option<Seq<ComponentView>>,
    xdg_data_home: Option<Seq<ComponentView>>,
) -> Option<Seq<ComponentView>> {
    match os {
        TargetOs::Windows => local_app_data,
        TargetOs::MacOs => match home {
            Some(h) => Some(
                joined(joined(h, name_path("Library"@)), name_path("Application Support"@)),
            ),
            None => None,
        },
        TargetOs::Linux => match xdg_data_home {
            Some(x) => Some(x),
            None => match home {
                Some(h) => Some(joined(joined(h, name_path(".local"@)), name_path("share"@))),
                None => None,
            },
        },
    }
}

/// The plain value of an optional path.
pub open spec fn opt_path_view(p: Option<Vec<PathComponent>>) -> Option<Seq<ComponentView>> {
    match p {
        Some(q) => Some(path_view(q@)),
        None => None,
    }
}

/// The per-user data directory of `os`, given the values of the
/// `LOCALAPPDATA`, `HOME` and `XDG_DATA_HOME` variables (each `None` when
/// unset).
pub fn local_data_dir(
    os: TargetOs,
    local_app_data: Option<Vec<PathComponent>>,
    home: Option<Vec<PathComponent>>,
    xdg_data_home: Option<Vec<PathComponent>>,
) -> (r: Option<Vec<PathComponent>>)
    ensures
        opt_path_view(r) == local_data_dir_of(
            os,
            opt_path_view(local_app_data),
            opt_path_view(home),
            opt_path_view(xdg_data_home),
        ),
{
    match os {
        TargetOs::Windows => local_app_data,
        TargetOs::MacOs => match home {
            Some(h) => {
                let a = join(&h, &name_component("Library"));
                Some(join(&a, &name_component("Application Support")))
            },
            None => None,
        },
        TargetOs::Linux => match xdg_data_home {
            Some(x) => Some(x),
            None => match home {
                Some(h) => {
                    let a = join(&h, &name_component(".local"));
                    Some(join(&a, &name_component("share")))
                },
                None => None,
            },
        },
    }
}

} // verus!
