//! The command line's decisions: how arguments are routed, what a build
//! or a pack is asked to do, and which names and paths the release and
//! packing steps use. Reading files, running commands and talking to the
//! network are left to the caller.

use crate::edit_spec::views;
use crate::paths::{
    ancestors, clone_path, file_stem, file_stem_of, has_parent, path_view,
    ComponentView, PathComponent, TargetArch, TargetOs,
};
use crate::strings::{
    chars_of, ends_with, has_suffix, owned, push_str, starts_with_char, str_eq,
    string_from_chars,
};
use vstd::prelude::*;

verus! {

/// The `build` section of `uzumaki.config.json`.
#[derive(Debug)]
pub struct BuildConfig {
    /// Shell command that builds the app before packing.
    pub command: Option<String>,
}

impl Default for BuildConfig {
    fn default() -> (r: Self)
        ensures
            r.command is None,
    {
        BuildConfig { command: None }
    }
}

/// The `pack` section of `uzumaki.config.json`.
#[derive(Debug)]
pub struct PackConfig {
    pub dist: Option<String>,
    pub entry: Option<String>,
    pub output: Option<String>,
    pub name: Option<String>,
    /// `baseBinary` in the file.
    pub base_binary: Option<String>,
}

impl Default for PackConfig {
    fn default() -> (r: Self)
        ensures
            r.dist is None,
            r.entry is None,
            r.output is None,
            r.name is None,
            r.base_binary is None,
    {
        PackConfig { dist: None, entry: None, output: None, name: None, base_binary: None }
    }
}

/// The contents of `uzumaki.config.json`.
#[derive(Debug)]
pub struct UzumakiConfig {
    pub build: BuildConfig,
    pub pack: PackConfig,
}

/// The parsed command line.
pub struct Cli {
    pub command: Commands,
}

/// The subcommands.
pub enum Commands {
    /// Run a JS/TS file in the uzumaki runtime.
    Run { entry: String, args: Vec<String> },
    /// Build and package an app using `uzumaki.config.json`.
    Build { config: Option<String>, no_build: bool },
    /// Pack a dist folder into a standalone executable.
    Pack {
        dist: String,
        entry: String,
        output: String,
        name: Option<String>,
        base_binary: Option<String>,
    },
    /// Upgrade uzumaki to the latest (or a given) version.
    Upgrade { version: Option<String> },
}

/// A failure of the `build` command that the configuration decides.
#[derive(Debug)]
pub enum CliError {
    MissingPackDist,
    MissingPackEntry,
    MissingPackOutput,
}

impl CliError {
    /// The error as text.
    pub fn message(&self) -> (r: String)
        ensures
            r@ == match self {
                CliError::MissingPackDist => "missing pack.dist in config"@,
                CliError::MissingPackEntry => "missing pack.entry in config"@,
                CliError::MissingPackOutput => "missing pack.output in config"@,
            },
    {
        match self {
            CliError::MissingPackDist => owned("missing pack.dist in config"),
            CliError::MissingPackEntry => owned("missing pack.entry in config"),
            CliError::MissingPackOutput => owned("missing pack.output in config"),
        }
    }
}

// ─── Argument routing ──────────────────────────────────────────────────────

/// The names that select a subcommand.
pub open spec fn is_known_subcommand(s: Seq<char>) -> bool {
    s == "run"@ || s == "build"@ || s == "pack"@ || s == "upgrade"@ || s == "help"@
}

/// How the raw arguments (program name first) are handed to the parser:
/// none when there is nothing after the program name (help is shown); with
/// `run` put in front of a first argument that is neither a subcommand nor
/// an option, so that `uzumaki app.tsx` means `uzumaki run app.tsx`;
/// unchanged otherwise.
pub open spec fn routed_args(raw: Seq<Seq<char>>) -> Option<Seq<Seq<char>>> {
    if raw.len() <= 1 {
        None
    } else if !is_known_subcommand(raw[1]) && !(raw[1].len() > 0 && raw[1][0] == '-') {
        Some(seq![raw[0], "run"@] + raw.subrange(1, raw.len() as int))
    } else {
        Some(raw)
    }
}

proof fn lemma_views_push(v: Seq<String>, s: String)
    ensures
        views(v.push(s)) == views(v).push(s@),
{
    assert(views(v.push(s)) =~= views(v).push(s@));
}

fn known_subcommand(s: &str) -> (b: bool)
    ensures
        b == is_known_subcommand(s@),
{
    str_eq(s, "run") || str_eq(s, "build") || str_eq(s, "pack") || str_eq(s, "upgrade")
        || str_eq(s, "help")
}

/// The arguments to parse, or `None` when help is to be shown.
pub fn cli_args(raw: &Vec<String>) -> (r: Option<Vec<String>>)
    ensures
        match r {
            Some(args) => routed_args(views(raw@)) == Some(views(args@)),
            None => routed_args(views(raw@)) is None,
        },
{
    if raw.len() <= 1 {
        return None;
    }
    let first = raw[1].as_str();
    if !known_subcommand(first) && !starts_with_char(first, '-') {
        let mut patched: Vec<String> = Vec::new();
        patched.push(raw[0].clone());
        patched.push(owned("run"));
        let mut i: usize = 1;
        while i < raw.len()
            invariant
                1 <= i <= raw@.len(),
                raw@.len() > 1,
                views(patched@) == seq![raw@[0]@, "run"@] + views(raw@).subrange(1, i as int),
            decreases raw@.len() - i,
        {
            let ghost prev = patched@;
            patched.push(raw[i].clone());
            proof {
                lemma_views_push(prev, raw@[i as int]);
                assert(views(patched@) =~= seq![raw@[0]@, "run"@] + views(raw@).subrange(
                    1,
                    i + 1,
                ));
            }
            i = i + 1;
        }
        proof {
            assert(views(raw@)[1] == raw@[1]@);
            assert(views(raw@)[0] == raw@[0]@);
        }
        Some(patched)
    } else {
        let mut same: Vec<String> = Vec::new();
        let mut i: usize = 0;
        while i < raw.len()
            invariant
                i <= raw@.len(),
                views(same@) == views(raw@).take(i as int),
            decreases raw@.len() - i,
        {
            let ghost prev = same@;
            same.push(raw[i].clone());
            proof {
                lemma_views_push(prev, raw@[i as int]);
                assert(views(same@) =~= views(raw@).take(i + 1));
            }
            i = i + 1;
        }
        proof {
            assert(views(raw@)[1] == raw@[1]@);
            assert(views(raw@).take(raw@.len() as int) =~= views(raw@));
        }
        Some(same)
    }
}

// ─── Release names ─────────────────────────────────────────────────────────

/// The file name of the uzumaki binary on `os`.
pub open spec fn binary_name(os: TargetOs) -> Seq<char> {
    if os == TargetOs::Windows {
        "uzumaki.exe"@
    } else {
        "uzumaki"@
    }
}

/// The file name of the uzumaki binary on `os`.
pub fn get_binary_name(os: TargetOs) -> (r: String)
    ensures
        r@ == binary_name(os),
{
    match os {
        TargetOs::Windows => owned("uzumaki.exe"),
        _ => owned("uzumaki"),
    }
}

/// How release assets name an operating system.
pub open spec fn os_label(os: TargetOs) -> Seq<char> {
    match os {
        TargetOs::Windows => "windows"@,
        TargetOs::MacOs => "macos"@,
        TargetOs::Linux => "linux"@,
    }
}

/// How release assets name an architecture; anything but ARM64 is `x64`.
pub open spec fn arch_label(arch: TargetArch) -> Seq<char> {
    match arch {
        TargetArch::Aarch64 => "arm64"@,
        _ => "x64"@,
    }
}

/// `uzumaki-<os>-<arch>.zip`.
pub open spec fn asset_name(os: TargetOs, arch: TargetArch) -> Seq<char> {
    "uzumaki-"@ + os_label(os) + "-"@ + arch_label(arch) + ".zip"@
}

/// The name of the release asset for `os` and `arch`.
pub fn get_asset_name(os: TargetOs, arch: TargetArch) -> (r: String)
    ensures
        r@ == asset_name(os, arch),
{
    let mut r = owned("uzumaki-");
    match os {
        TargetOs::Windows => push_str(&mut r, "windows"),
        TargetOs::MacOs => push_str(&mut r, "macos"),
        TargetOs::Linux => push_str(&mut r, "linux"),
    }
    push_str(&mut r, "-");
    match arch {
        TargetArch::Aarch64 => push_str(&mut r, "arm64"),
        _ => push_str(&mut r, "x64"),
    }
    push_str(&mut r, ".zip");
    r
}

// ─── Output path extension ─────────────────────────────────────────────────

/// `s` with every trailing copy of a nonempty `suffix` removed
/// (`str::trim_end_matches`).
pub open spec fn trim_suffixes(s: Seq<char>, suffix: Seq<char>) -> Seq<char>
    decreases s.len(),
{
    if suffix.len() > 0 && has_suffix(s, suffix) {
        trim_suffixes(s.subrange(0, s.len() - suffix.len()), suffix)
    } else {
        s
    }
}

/// The output path as `os` wants an executable named: with `.exe` on
/// Windows; with no trailing `.exe` (and, on macOS, no trailing `.app`)
/// elsewhere.
pub open spec fn output_with_extension(os: TargetOs, s: Seq<char>) -> Seq<char> {
    match os {
        TargetOs::Windows => if has_suffix(s, ".exe"@) {
            s
        } else {
            s + ".exe"@
        },
        TargetOs::MacOs => trim_suffixes(trim_suffixes(s, ".exe"@), ".app"@),
        TargetOs::Linux => trim_suffixes(s, ".exe"@),
    }
}

fn tail_matches(x: &Vec<char>, n: usize, y: &Vec<char>) -> (b: bool)
    requires
        n <= x@.len(),
    ensures
        b == has_suffix(x@.take(n as int), y@),
{
    if y.len() > n {
        return false;
    }
    let off = n - y.len();
    let mut i: usize = 0;
    while i < y.len()
        invariant
            n <= x@.len(),
            y@.len() <= n,
            off == n - y@.len(),
            i <= y@.len(),
            forall|j: int| 0 <= j < i ==> x@[off + j] == y@[j],
        decreases y@.len() - i,
    {
        if x[off + i] != y[i] {
            proof {
                assert(x@.take(n as int).subrange(off as int, n as int)[i as int] != y@[i as int]);
            }
            return false;
        }
        i = i + 1;
    }
    proof {
        assert(x@.take(n as int).subrange(off as int, n as int) =~= y@);
    }
    true
}

/// `s` with every trailing copy of `suffix` removed (`str::trim_end_matches`).
pub fn trim_end_matches(s: &str, suffix: &str) -> (r: String)
    ensures
        r@ == trim_suffixes(s@, suffix@),
{
    let x = chars_of(s);
    let y = chars_of(suffix);
    let mut n: usize = x.len();
    proof {
        assert(x@.take(n as int) =~= s@);
    }
    while y.len() > 0 && tail_matches(&x, n, &y)
        invariant
            x@ == s@,
            y@ == suffix@,
            n <= x@.len(),
            trim_suffixes(x@.take(n as int), y@) == trim_suffixes(s@, y@),
        decreases n,
    {
        proof {
            assert(x@.take(n as int).subrange(0, n - y@.len()) =~= x@.take(n - y@.len()));
        }
        n = n - y.len();
    }
    let mut out: Vec<char> = Vec::new();
    let mut i: usize = 0;
    while i < n
        invariant
            n <= x@.len(),
            i <= n,
            out@ == x@.take(i as int),
        decreases n - i,
    {
        out.push(x[i]);
        proof {
            assert(x@.take(i + 1) =~= x@.take(i as int).push(x@[i as int]));
        }
        i = i + 1;
    }
    string_from_chars(&out)
}

/// The output path with the executable extension that `os` expects.
pub fn normalize_output_extension(os: TargetOs, path: &str) -> (r: String)
    ensures
        r@ == output_with_extension(os, path@),
{
    match os {
        TargetOs::Windows => {
            if ends_with(path, ".exe") {
                owned(path)
            } else {
                let mut r = owned(path);
                push_str(&mut r, ".exe");
                r
            }
        },
        TargetOs::MacOs => {
            let t = trim_end_matches(path, ".exe");
            trim_end_matches(t.as_str(), ".app")
        },
        TargetOs::Linux => trim_end_matches(path, ".exe"),
    }
}

// ─── Shell ─────────────────────────────────────────────────────────────────

/// A program and its arguments.
pub struct ShellInvocation {
    pub program: String,
    pub args: Vec<String>,
}

/// How `command` is run through the shell of `os`: `cmd.exe /d /s /c` on
/// Windows, `sh -lc` elsewhere.
pub fn shell_invocation(os: TargetOs, command: &str) -> (r: ShellInvocation)
    ensures
        os == TargetOs::Windows ==> r.program@ == "cmd.exe"@ && views(r.args@) == seq![
            "/d"@,
            "/s"@,
            "/c"@,
            command@,
        ],
        os != TargetOs::Windows ==> r.program@ == "sh"@ && views(r.args@) == seq![
            "-lc"@,
            command@,
        ],
{
    let mut args: Vec<String> = Vec::new();
    match os {
        TargetOs::Windows => {
            args.push(owned("/d"));
            args.push(owned("/s"));
            args.push(owned("/c"));
            args.push(owned(command));
            proof {
                assert(views(args@) =~= seq!["/d"@, "/s"@, "/c"@, command@]);
            }
            ShellInvocation { program: owned("cmd.exe"), args }
        },
        _ => {
            args.push(owned("-lc"));
            args.push(owned(command));
            proof {
                assert(views(args@) =~= seq!["-lc"@, command@]);
            }
            ShellInvocation { program: owned("sh"), args }
        },
    }
}

// ─── build and pack ────────────────────────────────────────────────────────

/// The text of an optional string.
pub open spec fn opt_view(o: Option<String>) -> Option<Seq<char>> {
    match o {
        Some(s) => Some(s@),
        None => None,
    }
}

fn clone_opt(o: &Option<String>) -> (r: Option<String>)
    ensures
        opt_view(r) == opt_view(*o),
{
    match o {
        Some(s) => Some(s.clone()),
        None => None,
    }
}

/// The build command to run before packing: the configured one, unless
/// `--no-build` was given.
pub fn build_command(config: &UzumakiConfig, no_build: bool) -> (r: Option<String>)
    ensures
        opt_view(r) == if no_build {
            None
        } else {
            opt_view(config.build.command)
        },
{
    if no_build {
        None
    } else {
        clone_opt(&config.build.command)
    }
}

/// What packing needs from the `pack` section.
pub struct PackPlan {
    pub dist: String,
    pub entry: String,
    pub output: String,
}

/// The first of `dist`, `entry`, `output` that the `pack` section lacks.
pub open spec fn missing_pack_field(pack: PackConfig) -> Option<CliError> {
    if pack.dist is None {
        Some(CliError::MissingPackDist)
    } else if pack.entry is None {
        Some(CliError::MissingPackEntry)
    } else if pack.output is None {
        Some(CliError::MissingPackOutput)
    } else {
        None
    }
}

/// The dist folder, entry and output that the `pack` section names, or
/// the error for the first of them that it lacks.
pub fn pack_plan(pack: &PackConfig) -> (r: Result<PackPlan, CliError>)
    ensures
        match r {
            Ok(p) => missing_pack_field(*pack) is None && opt_view(pack.dist) == Some(p.dist@)
                && opt_view(pack.entry) == Some(p.entry@) && opt_view(pack.output) == Some(
                p.output@,
            ),
            Err(e) => missing_pack_field(*pack) == Some(e),
        },
{
    let dist = match &pack.dist {
        Some(d) => d.clone(),
        None => return Err(CliError::MissingPackDist),
    };
    let entry = match &pack.entry {
        Some(e) => e.clone(),
        None => return Err(CliError::MissingPackEntry),
    };
    let output = match &pack.output {
        Some(o) => o.clone(),
        None => return Err(CliError::MissingPackOutput),
    };
    Ok(PackPlan { dist, entry, output })
}

/// The application's name: the one given, else the output file's stem,
/// else `uzumaki-app`.
pub open spec fn app_name_of(name: Option<Seq<char>>, output: Seq<ComponentView>) -> Seq<char> {
    match name {
        Some(n) => n,
        None => match file_stem_of(output) {
            Some(stem) => stem,
            None => "uzumaki-app"@,
        },
    }
}

/// The application's name for a pack.
pub fn app_name(name: Option<&str>, output: &Vec<PathComponent>) -> (r: String)
    ensures
        r@ == app_name_of(
            match name {
                Some(n) => Some(n@),
                None => None,
            },
            path_view(output@),
        ),
{
    match name {
        Some(n) => owned(n),
        None => match file_stem(output) {
            Some(stem) => stem,
            None => owned("uzumaki-app"),
        },
    }
}

/// The name of the configuration file.
pub open spec fn config_file_name() -> Seq<char> {
    "uzumaki.config.json"@
}

/// Where the configuration file is looked for, in order: in `start`, then
/// in each directory above it.
pub open spec fn config_candidates_of(start: Seq<ComponentView>) -> Seq<Seq<ComponentView>> {
    ancestors(start).map_values(
        |a: Seq<ComponentView>| a.push(ComponentView::Normal(config_file_name())),
    )
}

proof fn lemma_path_views_push(v: Seq<Vec<PathComponent>>, p: Vec<PathComponent>)
    ensures
        v.push(p).map_values(|q: Vec<PathComponent>| path_view(q@)) == v.map_values(
            |q: Vec<PathComponent>| path_view(q@),
        ).push(path_view(p@)),
{
    assert(v.push(p).map_values(|q: Vec<PathComponent>| path_view(q@)) =~= v.map_values(
        |q: Vec<PathComponent>| path_view(q@),
    ).push(path_view(p@)));
}

/// The paths at which `find_config` looks for `uzumaki.config.json`,
/// nearest first: the caller takes the first that is a file.
pub fn config_candidates(start: &Vec<PathComponent>) -> (r: Vec<Vec<PathComponent>>)
    ensures
        r@.map_values(|q: Vec<PathComponent>| path_view(q@)) == config_candidates_of(
            path_view(start@),
        ),
{
    let mut out: Vec<Vec<PathComponent>> = Vec::new();
    let mut dir = clone_path(start);
    let ghost cand = |a: Seq<ComponentView>| a.push(ComponentView::Normal(config_file_name()));
    loop
        invariant_except_break
            out@.map_values(|q: Vec<PathComponent>| path_view(q@)) + ancestors(
                path_view(dir@),
            ).map_values(cand) == config_candidates_of(path_view(start@)),
        invariant
            cand == (|a: Seq<ComponentView>| a.push(ComponentView::Normal(config_file_name()))),
        ensures
            out@.map_values(|q: Vec<PathComponent>| path_view(q@)) == config_candidates_of(
                path_view(start@),
            ),
        decreases dir@.len(),
    {
        let mut c = clone_path(&dir);
        let ghost before = c@;
        c.push(PathComponent::Normal(owned("uzumaki.config.json")));
        let ghost d = path_view(dir@);
        proof {
            assert(path_view(c@) =~= path_view(before).push(
                ComponentView::Normal(config_file_name()),
            ));
            lemma_path_views_push(out@, c);
        }
        let ghost prev_out = out@;
        out.push(c);
        if has_parent(&dir) {
            let ghost before_dir = dir@;
            dir.pop();
            proof {
                assert(dir@ =~= before_dir.drop_last());
                assert(path_view(dir@) =~= d.drop_last());
                assert(ancestors(d) == seq![d] + ancestors(d.drop_last()));
                assert(ancestors(d).map_values(cand) =~= seq![cand(d)] + ancestors(
                    d.drop_last(),
                ).map_values(cand));
                assert(out@.map_values(|q: Vec<PathComponent>| path_view(q@)) + ancestors(
                    path_view(dir@),
                ).map_values(cand) =~= prev_out.map_values(
                    |q: Vec<PathComponent>| path_view(q@),
                ) + ancestors(d).map_values(cand));
            }
        } else {
            proof {
                assert(ancestors(d) == seq![d]);
                assert(ancestors(d).map_values(cand) =~= seq![cand(d)]);
                assert(out@.map_values(|q: Vec<PathComponent>| path_view(q@)) =~= prev_out.map_values(
                    |q: Vec<PathComponent>| path_view(q@),
                ) + ancestors(d).map_values(cand));
            }
            break;
        }
    }
    out
}

// ─── upgrade ───────────────────────────────────────────────────────────────

/// A release tag for a version: the version itself when it starts with
/// `v`, else the version with `v` in front.
pub open spec fn version_tag_of(v: Seq<char>) -> Seq<char> {
    if v.len() > 0 && v[0] == 'v' {
        v
    } else {
        seq!['v'] + v
    }
}

/// The release tag for a version asked for on the command line.
pub fn version_tag(version: &str) -> (r: String)
    ensures
        r@ == version_tag_of(version@),
{
    if starts_with_char(version, 'v') {
        owned(version)
    } else {
        let mut r = owned("v");
        push_str(&mut r, version);
        proof {
            reveal_strlit("v");
            assert(r@ =~= seq!['v'] + version@);
        }
        r
    }
}

/// The version number of a tag: the tag without one leading `v`.
pub open spec fn version_number_of(tag: Seq<char>) -> Seq<char> {
    if tag.len() > 0 && tag[0] == 'v' {
        tag.drop_first()
    } else {
        tag
    }
}

/// The address of the latest release's description.
pub fn latest_release_url() -> (r: String)
    ensures
        r@ == "https://api.github.com/repos/golok727/uzumaki/releases/latest"@,
{
    owned("https://api.github.com/repos/golok727/uzumaki/releases/latest")
}

/// The download address of a release asset.
pub open spec fn download_url_of(tag: Seq<char>, asset: Seq<char>) -> Seq<char> {
    "https://github.com/golok727/uzumaki/releases/download/"@ + tag + "/"@ + asset
}

/// What an upgrade to a tag does.
pub enum UpdateTarget {
    /// The running version is the tag's version.
    UpToDate,
    /// Download the asset at `url` and install the binary named
    /// `binary_name` from it, as version `version`.
    Download { version: String, url: String, binary_name: String },
}

/// The upgrade from version `current` to release `tag` on `os` and `arch`.
pub fn update_target(current: &str, tag: &str, os: TargetOs, arch: TargetArch) -> (r:
    UpdateTarget)
    ensures
        version_number_of(tag@) == current@ <==> r is UpToDate,
        match r {
            UpdateTarget::Download { version, url, binary_name: bin } => version@
                == version_number_of(tag@) && url@ == download_url_of(tag@, asset_name(os, arch))
                && bin@ == binary_name(os),
            UpdateTarget::UpToDate => true,
        },
{
    let t = chars_of(tag);
    let mut num: Vec<char> = Vec::new();
    let start: usize = if t.len() > 0 && t[0] == 'v' {
        1
    } else {
        0
    };
    let mut i: usize = start;
    while i < t.len()
        invariant
            t@ == tag@,
            start <= i <= t@.len(),
            num@ == t@.subrange(start as int, i as int),
        decreases t@.len() - i,
    {
        num.push(t[i]);
        proof {
            assert(t@.subrange(start as int, i + 1) =~= t@.subrange(start as int, i as int).push(
                t@[i as int],
            ));
        }
        i = i + 1;
    }
    proof {
        if start == 1 {
            assert(t@.subrange(1, t@.len() as int) =~= tag@.drop_first());
        } else {
            assert(t@.subrange(0, t@.len() as int) =~= tag@);
        }
    }
    let version = string_from_chars(&num);
    if str_eq(version.as_str(), current) {
        UpdateTarget::UpToDate
    } else {
        let mut url = owned("https://github.com/golok727/uzumaki/releases/download/");
        push_str(&mut url, tag);
        push_str(&mut url, "/");
        let asset = get_asset_name(os, arch);
        push_str(&mut url, asset.as_str());
        UpdateTarget::Download { version, url, binary_name: get_binary_name(os) }
    }
}

} // verus!
