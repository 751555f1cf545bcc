use std::io::Write;

use uzumaki::boot::{
    dev_launch, fallback_extraction_dir, local_data_dir, native_separators,
    preferred_extraction_dir, standalone_launch, LaunchMode,
};
use uzumaki::cli::{
    app_name, build_command, cli_args, config_candidates, get_asset_name, get_binary_name,
    latest_release_url, normalize_output_extension, pack_plan, shell_invocation,
    trim_end_matches, update_target, version_tag, BuildConfig, CliError, PackConfig,
    UpdateTarget, UzumakiConfig,
};
use uzumaki::paths::{
    file_stem, normalize_path, parent, path_is_absolute, resolve_from, PathComponent, TargetArch,
    TargetOs,
};
use uzumaki::release::{binary_entry_matches, extract_binary_from_zip, latest_tag, UpdateError};
use uzumaki::strings::split_newlines;
use uzumaki::vfs::{entry_byte_range, str_lt, walk_dir, VfsError};

fn n(s: &str) -> PathComponent {
    PathComponent::Normal(s.to_string())
}

/// `/`-separated text as components (a leading `/` is the root).
fn p(s: &str) -> Vec<PathComponent> {
    let mut out = Vec::new();
    if s.starts_with('/') {
        out.push(PathComponent::RootDir);
    }
    for part in s.split('/') {
        match part {
            "" => {}
            "." => out.push(PathComponent::CurDir),
            ".." => out.push(PathComponent::ParentDir),
            other => out.push(n(other)),
        }
    }
    out
}

fn show(path: &[PathComponent]) -> String {
    let mut s = String::new();
    for c in path {
        match c {
            PathComponent::Prefix(x) => s.push_str(x),
            PathComponent::RootDir => s.push('/'),
            PathComponent::CurDir => s.push_str("./"),
            PathComponent::ParentDir => s.push_str("../"),
            PathComponent::Normal(x) => {
                s.push_str(x);
                s.push('/');
            }
        }
    }
    s
}

fn args(list: &[&str]) -> Vec<String> {
    list.iter().map(|s| s.to_string()).collect()
}

#[test]
fn normalize_resolves_dots() {
    assert_eq!(show(&normalize_path(&p("/a/./b/../c"))), "/a/c/");
    assert_eq!(show(&normalize_path(&p("a/../../b"))), "b/");
    assert_eq!(show(&normalize_path(&p("/.."))), "/");
    assert_eq!(show(&normalize_path(&p("./x/y/.."))), "x/");
}

#[test]
fn normalize_is_idempotent_on_examples() {
    for s in ["/a/./b/../c", "a/../../b", "./x/y/..", "/"] {
        let once = normalize_path(&p(s));
        assert_eq!(show(&normalize_path(&once)), show(&once));
    }
}

#[test]
fn windows_prefix_and_root() {
    let path = vec![
        PathComponent::Prefix("C:".to_string()),
        PathComponent::RootDir,
        n("a"),
        PathComponent::ParentDir,
        n("b"),
    ];
    assert!(path_is_absolute(TargetOs::Windows, &path));
    assert_eq!(show(&normalize_path(&path)), "C:/b/");
    let rooted = vec![PathComponent::RootDir, n("x")];
    assert!(!path_is_absolute(TargetOs::Windows, &rooted));
    assert!(path_is_absolute(TargetOs::Linux, &rooted));
}

#[test]
fn resolve_from_relative_and_absolute() {
    let base = p("/home/me/app");
    assert_eq!(show(&resolve_from(TargetOs::Linux, &base, &p("../dist"))), "/home/me/dist/");
    assert_eq!(show(&resolve_from(TargetOs::Linux, &base, &p("/opt/out"))), "/opt/out/");
    assert_eq!(show(&resolve_from(TargetOs::Linux, &base, &p("./a/b"))), "/home/me/app/a/b/");
}

#[test]
fn file_stems() {
    assert_eq!(file_stem(&p("/x/a.tar.gz")), Some("a.tar".to_string()));
    assert_eq!(file_stem(&p("/x/.bashrc")), Some(".bashrc".to_string()));
    assert_eq!(file_stem(&p("noext")), Some("noext".to_string()));
    assert_eq!(file_stem(&p("/x/a.")), Some("a".to_string()));
    assert_eq!(file_stem(&p("/")), None);
    assert_eq!(file_stem(&p("x/..")), None);
}

#[test]
fn parents() {
    assert_eq!(parent(&p("/a/b")).map(|q| show(&q)), Some("/a/".to_string()));
    assert_eq!(parent(&p("a")).map(|q| show(&q)), Some("".to_string()));
    assert_eq!(parent(&p("/")).map(|q| show(&q)), None);
    assert_eq!(parent(&Vec::new()).map(|q| show(&q)), None);
}

#[test]
fn binary_and_asset_names() {
    assert_eq!(get_binary_name(TargetOs::Windows), "uzumaki.exe");
    assert_eq!(get_binary_name(TargetOs::Linux), "uzumaki");
    assert_eq!(get_binary_name(TargetOs::MacOs), "uzumaki");
    assert_eq!(get_asset_name(TargetOs::Linux, TargetArch::X86_64), "uzumaki-linux-x64.zip");
    assert_eq!(get_asset_name(TargetOs::MacOs, TargetArch::Aarch64), "uzumaki-macos-arm64.zip");
    assert_eq!(get_asset_name(TargetOs::Windows, TargetArch::Other), "uzumaki-windows-x64.zip");
}

#[test]
fn output_extension_per_os() {
    assert_eq!(normalize_output_extension(TargetOs::Windows, "out/app"), "out/app.exe");
    assert_eq!(normalize_output_extension(TargetOs::Windows, "out/app.exe"), "out/app.exe");
    assert_eq!(normalize_output_extension(TargetOs::Linux, "out/app.exe.exe"), "out/app");
    assert_eq!(normalize_output_extension(TargetOs::Linux, "out/app"), "out/app");
    assert_eq!(normalize_output_extension(TargetOs::MacOs, "out/app.app"), "out/app");
    assert_eq!(normalize_output_extension(TargetOs::MacOs, "out/app.app.exe"), "out/app");
    // Only trailing `.exe`s go before trailing `.app`s are trimmed.
    assert_eq!(normalize_output_extension(TargetOs::MacOs, "out/app.exe.app"), "out/app.exe");
}

#[test]
fn output_extension_twice_on_windows_and_linux() {
    for s in ["a", "a.exe", "a.exe.exe", "a.app"] {
        for os in [TargetOs::Windows, TargetOs::Linux] {
            let once = normalize_output_extension(os, s);
            assert_eq!(normalize_output_extension(os, &once), once);
        }
    }
}

#[test]
fn trim_end_matches_repeats() {
    assert_eq!(trim_end_matches("xabab", "ab"), "x");
    assert_eq!(trim_end_matches("abx", "ab"), "abx");
    assert_eq!(trim_end_matches("", "ab"), "");
}

#[test]
fn args_routing() {
    assert_eq!(cli_args(&args(&["uzumaki"])), None);
    assert_eq!(
        cli_args(&args(&["uzumaki", "app.tsx", "--flag"])),
        Some(args(&["uzumaki", "run", "app.tsx", "--flag"]))
    );
    assert_eq!(cli_args(&args(&["uzumaki", "build", "--no-build"])), Some(args(&["uzumaki", "build", "--no-build"])));
    assert_eq!(cli_args(&args(&["uzumaki", "--help"])), Some(args(&["uzumaki", "--help"])));
    assert_eq!(cli_args(&args(&["uzumaki", "help"])), Some(args(&["uzumaki", "help"])));
    assert_eq!(cli_args(&args(&["uzumaki", "upgrade"])), Some(args(&["uzumaki", "upgrade"])));
}

#[test]
fn build_and_pack_settings() {
    let config = UzumakiConfig {
        build: BuildConfig { command: Some("npm run build".to_string()) },
        pack: PackConfig {
            dist: Some("dist".to_string()),
            entry: Some("index.js".to_string()),
            output: None,
            name: None,
            base_binary: None,
        },
    };
    assert_eq!(build_command(&config, false), Some("npm run build".to_string()));
    assert_eq!(build_command(&config, true), None);
    match pack_plan(&config.pack) {
        Err(CliError::MissingPackOutput) => {}
        other => panic!("unexpected {:?}", other.err()),
    }
    assert_eq!(CliError::MissingPackOutput.message(), "missing pack.output in config");
    let empty = PackConfig::default();
    match pack_plan(&empty) {
        Err(e) => assert_eq!(e.message(), "missing pack.dist in config"),
        Ok(_) => panic!("expected an error"),
    }
    assert_eq!(BuildConfig::default().command, None);
    let full = PackConfig {
        dist: Some("d".to_string()),
        entry: Some("e.js".to_string()),
        output: Some("out/app".to_string()),
        name: None,
        base_binary: None,
    };
    let plan = pack_plan(&full).ok().unwrap();
    assert_eq!((plan.dist.as_str(), plan.entry.as_str(), plan.output.as_str()), ("d", "e.js", "out/app"));
}

#[test]
fn app_names() {
    assert_eq!(app_name(Some("My App"), &p("/o/app.exe")), "My App");
    assert_eq!(app_name(None, &p("/o/app.exe")), "app");
    assert_eq!(app_name(None, &p("/")), "uzumaki-app");
}

#[test]
fn config_lookup_walks_up() {
    let c: Vec<String> = config_candidates(&p("/home/me")).iter().map(|q| show(q)).collect();
    assert_eq!(
        c,
        vec![
            "/home/me/uzumaki.config.json/".to_string(),
            "/home/uzumaki.config.json/".to_string(),
            "/uzumaki.config.json/".to_string(),
        ]
    );
    let rel: Vec<String> = config_candidates(&p("a")).iter().map(|q| show(q)).collect();
    assert_eq!(rel, vec!["a/uzumaki.config.json/".to_string(), "uzumaki.config.json/".to_string()]);
}

#[test]
fn shell_per_os() {
    let w = shell_invocation(TargetOs::Windows, "npm run build");
    assert_eq!(w.program, "cmd.exe");
    assert_eq!(w.args, args(&["/d", "/s", "/c", "npm run build"]));
    let l = shell_invocation(TargetOs::Linux, "make");
    assert_eq!(l.program, "sh");
    assert_eq!(l.args, args(&["-lc", "make"]));
}

#[test]
fn version_tags() {
    assert_eq!(version_tag("0.2.0"), "v0.2.0");
    assert_eq!(version_tag("v0.2.0"), "v0.2.0");
    assert_eq!(version_tag(""), "v");
}

#[test]
fn update_targets() {
    match update_target("0.2.0", "v0.2.0", TargetOs::Linux, TargetArch::X86_64) {
        UpdateTarget::UpToDate => {}
        _ => panic!("expected up to date"),
    }
    match update_target("0.1.0", "v0.2.0", TargetOs::Windows, TargetArch::X86_64) {
        UpdateTarget::Download { version, url, binary_name } => {
            assert_eq!(version, "0.2.0");
            assert_eq!(
                url,
                "https://github.com/golok727/uzumaki/releases/download/v0.2.0/uzumaki-windows-x64.zip"
            );
            assert_eq!(binary_name, "uzumaki.exe");
        }
        _ => panic!("expected a download"),
    }
    assert_eq!(
        latest_release_url(),
        "https://api.github.com/repos/golok727/uzumaki/releases/latest"
    );
}

#[test]
fn release_tag_from_json() {
    assert_eq!(latest_tag(r#"{"tag_name":"v0.3.1","name":"x"}"#).ok(), Some("v0.3.1".to_string()));
    match latest_tag("not json") {
        Err(e @ UpdateError::InvalidJson(_)) => assert_eq!(e.message(), "invalid JSON from GitHub API"),
        _ => panic!("expected invalid JSON"),
    }
    match latest_tag(r#"{"name":"x"}"#) {
        Err(e @ UpdateError::NoTagName) => assert_eq!(e.message(), "no tag_name in latest release"),
        _ => panic!("expected no tag"),
    }
    assert!(matches!(latest_tag(r#"{"tag_name":5}"#), Err(UpdateError::NoTagName)));
    assert!(matches!(latest_tag("[1,2]"), Err(UpdateError::NoTagName)));
}

fn zip_of(entries: &[(&str, &[u8])]) -> Vec<u8> {
    let mut w = zip::ZipWriter::new(std::io::Cursor::new(Vec::new()));
    let opts = zip::write::SimpleFileOptions::default()
        .compression_method(zip::CompressionMethod::Stored);
    for (name, bytes) in entries {
        w.start_file(*name, opts).unwrap();
        w.write_all(bytes).unwrap();
    }
    w.finish().unwrap().into_inner()
}

#[test]
fn binary_from_zip() {
    let bytes = zip_of(&[("README.md", b"hi"), ("uzumaki-linux/uzumaki", b"\x7fELF"), ("uzumaki", b"second")]);
    assert_eq!(extract_binary_from_zip(bytes.clone(), "uzumaki").ok(), Some(b"\x7fELF".to_vec()));
    match extract_binary_from_zip(bytes, "uzumaki.exe") {
        Err(e @ UpdateError::BinaryNotFound(_)) => {
            assert_eq!(e.message(), "binary 'uzumaki.exe' not found in zip archive")
        }
        _ => panic!("expected not found"),
    }
    match extract_binary_from_zip(b"not a zip".to_vec(), "uzumaki") {
        Err(e @ UpdateError::InvalidZip(_)) => assert_eq!(e.message(), "invalid zip archive"),
        _ => panic!("expected an invalid archive"),
    }
}

#[test]
fn binary_entry_names() {
    assert!(binary_entry_matches("uzumaki", "uzumaki"));
    assert!(binary_entry_matches("dir/uzumaki", "uzumaki"));
    assert!(!binary_entry_matches("xuzumaki", "uzumaki"));
    assert!(!binary_entry_matches("uzumaki/", "uzumaki"));
}

#[test]
fn launch_modes() {
    let dev = dev_launch(&p("/cwd"), p("/proj/src/main.tsx"));
    assert_eq!(show(dev.app_root()), "/proj/src/");
    assert_eq!(show(dev.entry_path()), "/proj/src/main.tsx/");
    let rootless = dev_launch(&p("/cwd"), p("/"));
    assert_eq!(show(rootless.app_root()), "/cwd/");
    let sa = standalone_launch(p("/x/.app/abc"), &p("app"), &p("app/index.js"));
    assert_eq!(show(sa.app_root()), "/x/.app/abc/app/");
    assert_eq!(show(sa.entry_path()), "/x/.app/abc/app/index.js/");
    match sa {
        LaunchMode::Standalone { extraction_dir, .. } => assert_eq!(show(&extraction_dir), "/x/.app/abc/"),
        _ => panic!("expected standalone"),
    }
}

#[test]
fn extraction_dirs() {
    let exe = p("/opt/tools/myapp.exe");
    let hash = p("deadbeef");
    assert_eq!(
        preferred_extraction_dir(&exe, &hash).map(|d| show(&d)),
        Some("/opt/tools/.myapp/deadbeef/".to_string())
    );
    assert_eq!(
        show(&fallback_extraction_dir(&p("/home/u/.local/share"), &exe, &hash)),
        "/home/u/.local/share/uzumaki/myapp/deadbeef/"
    );
    assert_eq!(preferred_extraction_dir(&p("/"), &hash).map(|d| show(&d)), None);
    assert_eq!(
        show(&fallback_extraction_dir(&p("/tmp"), &p("/"), &hash)),
        "/tmp/uzumaki/uzumaki_app/deadbeef/"
    );
}

#[test]
fn data_dirs() {
    let home = Some(p("/home/u"));
    assert_eq!(
        local_data_dir(TargetOs::Linux, None, home.clone(), None).map(|d| show(&d)),
        Some("/home/u/.local/share/".to_string())
    );
    assert_eq!(
        local_data_dir(TargetOs::Linux, None, home.clone(), Some(p("/xdg"))).map(|d| show(&d)),
        Some("/xdg/".to_string())
    );
    assert_eq!(
        local_data_dir(TargetOs::MacOs, None, home.clone(), None).map(|d| show(&d)),
        Some("/home/u/Library/Application Support/".to_string())
    );
    assert_eq!(
        local_data_dir(TargetOs::Windows, Some(p("/appdata")), home, None).map(|d| show(&d)),
        Some("/appdata/".to_string())
    );
    assert_eq!(local_data_dir(TargetOs::Windows, None, Some(p("/h")), None).map(|d| show(&d)), None);
    assert_eq!(local_data_dir(TargetOs::Linux, None, None, None).map(|d| show(&d)), None);
}

#[test]
fn separators() {
    assert_eq!(native_separators(TargetOs::Windows, "app/js/index.js"), "app\\js\\index.js");
    assert_eq!(native_separators(TargetOs::Linux, "app/js/index.js"), "app/js/index.js");
}

#[test]
fn listing_is_sorted_with_forward_slashes() {
    let found = vec![
        ("js\\b.js".to_string(), 1),
        ("a.txt".to_string(), 2),
        ("js/a.js".to_string(), 3),
        ("Z.txt".to_string(), 4),
        ("a.txt".to_string(), 5),
    ];
    let out = walk_dir(found);
    assert_eq!(
        out,
        vec![
            ("Z.txt".to_string(), 4),
            ("a.txt".to_string(), 2),
            ("a.txt".to_string(), 5),
            ("js/a.js".to_string(), 3),
            ("js/b.js".to_string(), 1),
        ]
    );
}

#[test]
fn string_order() {
    assert!(str_lt("a", "b"));
    assert!(str_lt("a", "ab"));
    assert!(!str_lt("ab", "a"));
    assert!(!str_lt("a", "a"));
    assert!(str_lt("Z", "a"));
    assert!(str_lt("z", "é"));
}

#[test]
fn entry_ranges() {
    assert!(matches!(entry_byte_range("a.js", 2, 3, 10), Ok((2, 5))));
    match entry_byte_range("a.js", 8, 3, 10) {
        Err(e @ VfsError::OutOfBounds(_)) => assert_eq!(e.message(), "manifest entry out of bounds for a.js"),
        _ => panic!("expected out of bounds"),
    }
    match entry_byte_range("a.js", usize::MAX, 1, 10) {
        Err(e @ VfsError::LengthOverflow) => assert_eq!(e.message(), "manifest entry length overflow"),
        _ => panic!("expected overflow"),
    }
    assert!(matches!(entry_byte_range("a.js", 10, 0, 10), Ok((10, 10))));
}

#[test]
fn split_on_line_breaks() {
    assert_eq!(split_newlines("a\nb\n"), vec!["a".to_string(), "b".to_string(), String::new()]);
    assert_eq!(split_newlines(""), vec![String::new()]);
    assert_eq!(split_newlines("\n\n"), vec![String::new(), String::new(), String::new()]);
}

#[test]
fn model_selection_and_limit_setters() {
    let mut m = uzumaki::text_model::TextModel::new();
    m.set_value("hello".to_string());
    m.set_max_length(Some(6));
    assert_eq!(m.get_max_length(), Some(6));
    m.set_selection(uzumaki::selection::Selection { anchor: 1, active: 3 });
    assert_eq!(m.get_selection().start(), 1);
    assert_eq!(m.selected_text(), "el");
    assert!(m.insert("wxyz").is_none());
    assert_eq!(m.text(), "hello");
    assert!(m.insert("xyz").is_some());
    assert_eq!(m.text(), "hxyzlo");
}
