use skeptic::command::{compile_args, CompileType};
use skeptic::edition::{edition_flag, get_edition, parse_u64};
use skeptic::fingerprint::{guess_ext, FilePath, Fingerprint};
use skeptic::locked::{LockedDeps, PackageNode, ProjectMetadata};
use skeptic::resolve::{get_rlib_dependencies, lookup_locked, resolve_fingerprints, CacheEntry, CacheSnapshot};
use skeptic::SkepticError;

fn path(s: &str) -> FilePath {
    let mut parts: Vec<String> = Vec::new();
    if s.starts_with('/') {
        parts.push("/".to_string());
    }
    for p in s.split('/').filter(|p| !p.is_empty()) {
        parts.push(p.to_string());
    }
    FilePath { parts }
}

fn text(p: &FilePath) -> String {
    p.to_text()
}

fn fp(name: &str, version: Option<&str>, rlib: &str, mtime: u128) -> Fingerprint {
    Fingerprint {
        libname: name.to_string(),
        version: version.map(|v| v.to_string()),
        rlib: path(rlib),
        mtime,
    }
}

fn locked(pairs: &[(&str, &str)]) -> Vec<(String, String)> {
    pairs.iter().map(|(n, v)| (n.to_string(), v.to_string())).collect()
}

fn meta(members: &[&str], nodes: Option<Vec<(&str, Vec<&str>)>>, editions: &[&str]) -> ProjectMetadata {
    ProjectMetadata {
        workspace_members: members.iter().map(|m| m.to_string()).collect(),
        resolve: nodes.map(|ns| {
            ns.into_iter()
                .map(|(id, deps)| PackageNode {
                    id: id.to_string(),
                    dependencies: deps.into_iter().map(|d| d.to_string()).collect(),
                })
                .collect()
        }),
        editions: editions.iter().map(|e| e.to_string()).collect(),
    }
}

#[test]
fn non_json_metadata_file_yields_nothing() {
    let existing = vec![path("/t/debug/deps/libfoo-abc.rlib")];
    let r = Fingerprint::from_path(&path("/t/debug/.fingerprint/foo-abc/lib-foo.txt"), 5, &existing);
    assert_eq!(r.err(), Some(SkepticError::Fingerprint));
    let r = Fingerprint::from_path(&path("/t/debug/.fingerprint/foo-abc/lib-foo"), 5, &existing);
    assert_eq!(r.err(), Some(SkepticError::Fingerprint));
}

#[test]
fn newer_exact_version_replaces_older() {
    let lock = locked(&[("foo", "1.2.0")]);
    let fps = vec![
        fp("foo", Some("1.2.0"), "/t/deps/libfoo-a.rlib", 10),
        fp("foo", Some("1.2.0"), "/t/deps/libfoo-b.rlib", 20),
    ];
    let existing = vec![path("/t/deps/libfoo-a.rlib"), path("/t/deps/libfoo-b.rlib")];
    let r = resolve_fingerprints(&lock, &fps, &existing);
    assert_eq!(r.len(), 1);
    assert_eq!(r[0].mtime, 20);
    assert_eq!(text(&r[0].rlib), "/t/deps/libfoo-b.rlib");
}

#[test]
fn older_exact_version_does_not_replace_newer() {
    let lock = locked(&[("foo", "1.2.0")]);
    let fps = vec![
        fp("foo", Some("1.2.0"), "/t/deps/libfoo-b.rlib", 20),
        fp("foo", Some("1.2.0"), "/t/deps/libfoo-a.rlib", 10),
    ];
    let existing = vec![path("/t/deps/libfoo-a.rlib"), path("/t/deps/libfoo-b.rlib")];
    let r = resolve_fingerprints(&lock, &fps, &existing);
    assert_eq!(r.len(), 1);
    assert_eq!(r[0].mtime, 20);
}

#[test]
fn unversioned_fingerprint_is_accepted() {
    let lock = locked(&[("foo", "1.2.0")]);
    let fps = vec![fp("foo", None, "/t/deps/libfoo-a.rlib", 3)];
    let existing = vec![path("/t/deps/libfoo-a.rlib")];
    let r = resolve_fingerprints(&lock, &fps, &existing);
    assert_eq!(r.len(), 1);
    assert_eq!(r[0].name(), "foo");
    assert_eq!(r[0].version(), None);
}

#[test]
fn unversioned_never_replaces_and_mismatch_never_enters() {
    let lock = locked(&[("foo", "1.2.0"), ("bar", "0.1.0")]);
    let fps = vec![
        fp("foo", Some("1.2.0"), "/t/deps/libfoo-a.rlib", 1),
        fp("foo", None, "/t/deps/libfoo-b.rlib", 9),
        fp("bar", Some("0.2.0"), "/t/deps/libbar-c.rlib", 1),
        fp("baz", None, "/t/deps/libbaz-d.rlib", 1),
    ];
    let existing = vec![
        path("/t/deps/libfoo-a.rlib"),
        path("/t/deps/libfoo-b.rlib"),
        path("/t/deps/libbar-c.rlib"),
        path("/t/deps/libbaz-d.rlib"),
    ];
    let r = resolve_fingerprints(&lock, &fps, &existing);
    assert_eq!(r.len(), 1);
    assert_eq!(text(&r[0].rlib), "/t/deps/libfoo-a.rlib");
}

#[test]
fn missing_artifact_is_never_resolved() {
    let existing = vec![path("/t/debug/deps/libfoo-abc.a")];
    let r = Fingerprint::from_path(&path("/t/debug/.fingerprint/foo-abc/lib-foo.json"), 5, &existing);
    assert_eq!(r.err(), Some(SkepticError::Fingerprint));

    let lock = locked(&[("foo", "1.2.0")]);
    let fps = vec![fp("foo", Some("1.2.0"), "/t/deps/libfoo-a.rlib", 1)];
    let r = resolve_fingerprints(&lock, &fps, &Vec::new());
    assert!(r.is_empty());
}

#[test]
fn dashed_lock_name_matches_underscored_fingerprint() {
    let mut deps = LockedDeps { dependencies: vec!["my-crate 0.3.1 (registry+https://example.org/index)".to_string()] };
    let pair = deps.next();
    assert_eq!(pair, Some(("my_crate".to_string(), "0.3.1".to_string())));
    assert!(deps.dependencies.is_empty());

    let existing = vec![path("/t/debug/deps/libmy_crate-0a1b.rlib")];
    let f = Fingerprint::from_path(&path("/t/debug/.fingerprint/my-crate-0a1b/lib-my-crate.json"), 7, &existing)
        .ok()
        .unwrap();
    assert_eq!(f.name(), "my_crate");
    let lock = locked(&[("my_crate", "0.3.1")]);
    let r = resolve_fingerprints(&lock, &vec![f], &existing);
    assert_eq!(r.len(), 1);
}

#[test]
fn resolving_twice_gives_the_same_set() {
    let m = meta(&["app 0.1.0 (path+file:///p)"], Some(vec![("app 0.1.0 (path+file:///p)", vec!["serde 1.0.0 (registry)", "log 0.4.0 (registry)"])]), &["2018"]);
    let cache = CacheSnapshot {
        entries: vec![
            CacheEntry { path: path("/p/target/debug/.fingerprint/serde-abc/lib-serde.json"), mtime: 1 },
            CacheEntry { path: path("/p/target/debug/.fingerprint/log-def/lib-log.json"), mtime: 2 },
        ],
        artifacts: vec![path("/p/target/debug/deps/libserde-abc.rlib"), path("/p/target/debug/deps/liblog-def.so")],
    };
    let a = get_rlib_dependencies(&m, &m, &cache).ok().unwrap();
    let b = get_rlib_dependencies(&m, &m, &cache).ok().unwrap();
    assert_eq!(a.len(), 2);
    assert_eq!(a.len(), b.len());
    for (x, y) in a.iter().zip(b.iter()) {
        assert_eq!(x.name(), y.name());
        assert_eq!(text(&x.rlib), text(&y.rlib));
        assert_eq!(x.mtime, y.mtime);
    }
}

#[test]
fn end_to_end_single_serde_dependency() {
    let m = meta(&["app 0.1.0 (path+file:///p)"], Some(vec![("app 0.1.0 (path+file:///p)", vec!["serde 1.0.0 (registry)"])]), &["2015"]);
    let cache = CacheSnapshot {
        entries: vec![
            CacheEntry { path: path("/p/target/debug/.fingerprint/serde-abc123"), mtime: 4 },
            CacheEntry { path: path("/p/target/debug/.fingerprint/serde-abc123/lib-serde.json"), mtime: 4 },
        ],
        artifacts: vec![path("/p/target/debug/deps/libserde-abc123.rlib")],
    };
    let r = get_rlib_dependencies(&m, &m, &cache).ok().unwrap();
    assert_eq!(r.len(), 1);
    assert_eq!(r[0].name(), "serde");
    assert_eq!(text(&r[0].rlib), "/p/target/debug/deps/libserde-abc123.rlib");
}

#[test]
fn fallback_metadata_is_used_when_primary_has_no_graph() {
    let bad = meta(&["app 0.1.0"], None, &["2018"]);
    let good = meta(&["app 0.1.0"], Some(vec![("app 0.1.0", vec!["foo 1.0.0"])]), &["2018"]);
    let cache = CacheSnapshot {
        entries: vec![CacheEntry { path: path("t/.fingerprint/foo-h/lib-foo.json"), mtime: 1 }],
        artifacts: vec![path("t/deps/libfoo-h.dylib")],
    };
    let r = get_rlib_dependencies(&bad, &good, &cache).ok().unwrap();
    assert_eq!(r.len(), 1);
    assert_eq!(text(&r[0].rlib), "t/deps/libfoo-h.dylib");
    assert_eq!(get_rlib_dependencies(&bad, &bad, &cache).err(), Some(SkepticError::Metadata));
}

#[test]
fn locked_deps_collects_members_and_their_dependencies() {
    let m = meta(
        &["a 0.1.0", "b 0.2.0"],
        Some(vec![("a 0.1.0", vec!["x-y 1.0.0"]), ("c 9.0.0", vec!["z 2.0.0"]), ("b 0.2.0", vec!["w 3.0.0"])]),
        &[],
    );
    let deps = LockedDeps::from_path(&m).ok().unwrap();
    assert_eq!(deps.dependencies, vec!["x-y 1.0.0", "w 3.0.0", "a 0.1.0", "b 0.2.0"]);
    let pairs = deps.collect_pairs();
    assert_eq!(lookup_locked(&pairs, &"x_y".to_string()), Some("1.0.0".to_string()));
    assert_eq!(lookup_locked(&pairs, &"b".to_string()), Some("0.2.0".to_string()));
    assert_eq!(lookup_locked(&pairs, &"z".to_string()), None);
    assert!(LockedDeps::from_path(&meta(&["a"], None, &[])).is_err());
}

#[test]
fn collection_stops_at_unparsable_id() {
    let deps = LockedDeps { dependencies: vec!["a 1.0".to_string(), "single".to_string(), "b 2.0".to_string()] };
    let pairs = deps.collect_pairs();
    assert_eq!(lookup_locked(&pairs, &"b".to_string()), Some("2.0".to_string()));
    assert_eq!(lookup_locked(&pairs, &"a".to_string()), None);
}

#[test]
fn guess_ext_takes_first_existing_extension() {
    let existing = vec![path("/d/libx-1.so"), path("/d/libx-1.dll")];
    let r = guess_ext(path("/d/libx-1"), &["rlib", "so", "dylib", "dll"], &existing).ok().unwrap();
    assert_eq!(text(&r), "/d/libx-1.so");
    let r = guess_ext(path("/d/libx-1.tmp"), &["dll"], &existing).ok().unwrap();
    assert_eq!(text(&r), "/d/libx-1.dll");
    assert!(guess_ext(path("/d/libx-1"), &["rlib"], &existing).is_err());
}

#[test]
fn edition_is_the_largest_declared() {
    assert_eq!(get_edition(&meta(&[], None, &["2015", "2021", "2018"])).ok(), Some("2021".to_string()));
    assert_eq!(get_edition(&meta(&[], None, &[])).err(), Some(SkepticError::Edition));
    assert_eq!(get_edition(&meta(&[], None, &["2018", "next"])).err(), Some(SkepticError::Edition));
    assert_eq!(edition_flag(&"2015".to_string()), None);
    assert_eq!(edition_flag(&"2021".to_string()), Some("--edition=2021".to_string()));
}

#[test]
fn parse_u64_follows_from_str() {
    let p = |s: &str| parse_u64(&s.chars().collect());
    assert_eq!(p("2018"), Some(2018));
    assert_eq!(p("+7"), Some(7));
    assert_eq!(p("18446744073709551615"), Some(u64::MAX));
    assert_eq!(p("18446744073709551616"), None);
    assert_eq!(p(""), None);
    assert_eq!(p("+"), None);
    assert_eq!(p("-1"), None);
}

#[test]
fn compile_args_for_check_and_full() {
    let deps = vec![fp("serde", None, "/p/target/debug/deps/libserde-abc.rlib", 1)];
    let check = compile_args(
        &path("/tmp/x/test.rs"),
        &path("/tmp/x/out.exe"),
        &path("/p/target/debug"),
        &path("/p/target/debug/deps"),
        &"x86_64-unknown-linux-gnu".to_string(),
        &"2018".to_string(),
        &deps,
        CompileType::Check,
    );
    assert_eq!(
        check,
        vec![
            "/tmp/x/test.rs",
            "--verbose",
            "--crate-type=bin",
            "--edition=2018",
            "-L",
            "/p/target/debug",
            "-L",
            "/p/target/debug/deps",
            "--target",
            "x86_64-unknown-linux-gnu",
            "--extern",
            "serde=/p/target/debug/deps/libserde-abc.rlib",
            "--emit=dep-info=/tmp/x/out.exe.d,metadata=/tmp/x/out.exe.m",
        ]
    );
    let full = compile_args(
        &path("a.rs"),
        &path("o"),
        &path("t"),
        &path("t/deps"),
        &"tt".to_string(),
        &"2015".to_string(),
        &Vec::new(),
        CompileType::Full,
    );
    assert_eq!(full, vec!["a.rs", "--verbose", "--crate-type=bin", "-L", "t", "-L", "t/deps", "--target", "tt", "-o", "o"]);
}

#[test]
fn pop_levels_stops_at_root() {
    assert_eq!(text(&path("/p/target/debug/build/x/out").pop_levels(3)), "/p/target/debug");
    assert_eq!(text(&path("/a").pop_levels(3)), "/");
    assert_eq!(text(&path("a/b").pop_levels(3)), "");
}
