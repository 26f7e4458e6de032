use aviutl2_catalog::cache::FileHashes;
use aviutl2_catalog::candidacy::item_is_candidate;
use aviutl2_catalog::catalog::CatalogItem;
use aviutl2_catalog::catalog::DirectorySnapshot;
use aviutl2_catalog::catalog::FileSpec;
use aviutl2_catalog::catalog::VersionEntry;
use aviutl2_catalog::hashing::xxh3_128_hex;
use aviutl2_catalog::paths::AppDirs;
use aviutl2_catalog::resolver::collect_unique_paths;
use aviutl2_catalog::resolver::detect_versions_map;

fn test_dirs() -> AppDirs {
    AppDirs {
        aviutl2_root: String::from("C:\\AviUtl2"),
        aviutl2_data: String::from("C:\\Data"),
        plugin_dir: String::from("C:\\Data\\Plugin"),
        script_dir: String::from("C:\\Data\\Script"),
        catalog_exe_dir: String::new(),
        catalog_config_dir: String::new(),
        log_path: String::new(),
    }
}

fn snap(folders: &[&str], files: &[&str]) -> DirectorySnapshot {
    DirectorySnapshot {
        folders: folders.iter().map(|s| s.to_string()).collect(),
        files: files.iter().map(|s| s.to_string()).collect(),
    }
}

fn file(path: &str, hash: &str) -> FileSpec {
    FileSpec { path: path.to_string(), hash: hash.to_string() }
}

fn version(label: &str, files: Vec<FileSpec>) -> VersionEntry {
    VersionEntry { version: label.to_string(), files, release_date: String::new() }
}

fn item(id: &str, versions: Vec<VersionEntry>) -> CatalogItem {
    CatalogItem {
        id: id.to_string(),
        name: String::new(),
        author: String::new(),
        summary: String::new(),
        item_type: String::new(),
        tags: Vec::new(),
        versions,
    }
}

fn result_of(r: &[(String, String)], id: &str) -> String {
    r.iter().find(|p| p.0 == id).expect("missing id").1.clone()
}

#[test]
fn dual_encoding_hash_resolves_the_version() {
    // the computed hash equals the expectation only after reversing the
    // hex string one byte at a time
    let items = vec![item(
        "x",
        vec![version(
            "1.0",
            vec![file("{pluginsDir}/foo.auf", "00112233445566778899aabbccddeeff")],
        )],
    )];
    let plugins = snap(&[], &["foo.auf"]);
    let scripts = snap(&[], &[]);
    let d = test_dirs();
    let hashes = FileHashes {
        entries: vec![(
            String::from("C:\\Data\\Plugin\\foo.auf"),
            String::from("ffeeddccbbaa99887766554433221100"),
        )],
    };
    let r = detect_versions_map(&items, false, &plugins, &scripts, &d, &hashes);
    assert_eq!(result_of(&r, "x"), "1.0");
}

#[test]
fn all_files_missing_resolves_to_empty() {
    let items = vec![item(
        "x",
        vec![version("1.0", vec![file("{pluginsDir}/foo.auf", "00ff")])],
    )];
    let plugins = snap(&[], &["foo.auf"]);
    let scripts = snap(&[], &[]);
    let d = test_dirs();
    let hashes = FileHashes { entries: Vec::new() };
    let r = detect_versions_map(&items, false, &plugins, &scripts, &d, &hashes);
    assert_eq!(result_of(&r, "x"), "");
}

#[test]
fn present_but_unrecognized_resolves_to_unknown() {
    let items = vec![item(
        "x",
        vec![version("1.0", vec![file("{pluginsDir}/foo.auf", "00112233")])],
    )];
    let plugins = snap(&[], &["foo.auf"]);
    let scripts = snap(&[], &[]);
    let d = test_dirs();
    let hashes = FileHashes {
        entries: vec![(String::from("C:\\Data\\Plugin\\foo.auf"), String::from("deadbeef"))],
    };
    let r = detect_versions_map(&items, false, &plugins, &scripts, &d, &hashes);
    assert_eq!(result_of(&r, "x"), "???");
}

#[test]
fn newest_matching_version_wins() {
    let old_hash = xxh3_128_hex(b"old");
    let new_hash = xxh3_128_hex(b"new");
    let items = vec![item(
        "x",
        vec![
            version("1", vec![file("{pluginsDir}/a.auf", &old_hash)]),
            version("2", vec![file("{pluginsDir}/a.auf", &new_hash)]),
        ],
    )];
    let plugins = snap(&[], &["a.auf"]);
    let scripts = snap(&[], &[]);
    let d = test_dirs();
    // disk holds the newer content: the last (newest) version matches
    let hashes_new = FileHashes {
        entries: vec![(String::from("C:\\Data\\Plugin\\a.auf"), new_hash.clone())],
    };
    let r = detect_versions_map(&items, false, &plugins, &scripts, &d, &hashes_new);
    assert_eq!(result_of(&r, "x"), "2");
    // disk holds the older content: only the older version matches
    let hashes_old = FileHashes {
        entries: vec![(String::from("C:\\Data\\Plugin\\a.auf"), old_hash.clone())],
    };
    let r2 = detect_versions_map(&items, false, &plugins, &scripts, &d, &hashes_old);
    assert_eq!(result_of(&r2, "x"), "1");
}

#[test]
fn version_with_partial_match_is_not_reported() {
    let h = xxh3_128_hex(b"data");
    let items = vec![item(
        "x",
        vec![version(
            "1",
            vec![file("{pluginsDir}/a.auf", &h), file("{pluginsDir}/b.auf", &h)],
        )],
    )];
    let plugins = snap(&[], &["a.auf", "b.auf"]);
    let scripts = snap(&[], &[]);
    let d = test_dirs();
    let hashes = FileHashes {
        entries: vec![(String::from("C:\\Data\\Plugin\\a.auf"), h.clone())],
    };
    let r = detect_versions_map(&items, false, &plugins, &scripts, &d, &hashes);
    assert_eq!(result_of(&r, "x"), "???");
}

#[test]
fn empty_expected_hash_never_matches() {
    let items = vec![item("x", vec![version("1", vec![file("{pluginsDir}/a.auf", "")])])];
    let plugins = snap(&[], &["a.auf"]);
    let scripts = snap(&[], &[]);
    let d = test_dirs();
    let hashes = FileHashes {
        entries: vec![(String::from("C:\\Data\\Plugin\\a.auf"), xxh3_128_hex(b"z"))],
    };
    let r = detect_versions_map(&items, false, &plugins, &scripts, &d, &hashes);
    assert_eq!(result_of(&r, "x"), "???");
}

#[test]
fn empty_id_items_are_dropped() {
    let items = vec![item("", vec![])];
    let r = detect_versions_map(
        &items,
        false,
        &snap(&[], &[]),
        &snap(&[], &[]),
        &test_dirs(),
        &FileHashes { entries: Vec::new() },
    );
    assert!(r.is_empty());
}

#[test]
fn non_candidate_resolves_empty_without_hashes() {
    // the expected file is not in the snapshot, so the item is not a
    // candidate, even though its hash would match
    let h = xxh3_128_hex(b"data");
    let items = vec![item("x", vec![version("1", vec![file("{pluginsDir}/a.auf", &h)])])];
    let plugins = snap(&[], &[]);
    let scripts = snap(&[], &[]);
    let d = test_dirs();
    let hashes = FileHashes {
        entries: vec![(String::from("C:\\Data\\Plugin\\a.auf"), h.clone())],
    };
    let r = detect_versions_map(&items, false, &plugins, &scripts, &d, &hashes);
    assert_eq!(result_of(&r, "x"), "");
}

#[test]
fn candidacy_checks_folder_for_nested_paths_and_file_for_leaves() {
    let it_leaf = item("a", vec![version("1", vec![file("{pluginsDir}/foo.auf", "00")])]);
    let it_nested = item("b", vec![version("1", vec![file("{pluginsDir}/sub/x.anm", "00")])]);
    let plugins = snap(&["Sub"], &["FOO.AUF"]);
    let scripts = snap(&[], &[]);
    // name comparisons ignore ASCII case
    assert!(item_is_candidate(&it_leaf, false, &plugins, &scripts));
    assert!(item_is_candidate(&it_nested, false, &plugins, &scripts));
    let empty = snap(&[], &[]);
    assert!(!item_is_candidate(&it_leaf, false, &empty, &scripts));
    assert!(!item_is_candidate(&it_nested, false, &empty, &scripts));
}

#[test]
fn candidacy_host_executable_requires_presence_flag() {
    let it = item("a", vec![version("1", vec![file("{appDir}/aviutl2.exe", "00")])]);
    let empty = snap(&[], &[]);
    assert!(item_is_candidate(&it, true, &empty, &empty));
    assert!(!item_is_candidate(&it, false, &empty, &empty));
}

#[test]
fn non_candidate_files_are_never_collected_for_hashing() {
    let items = vec![
        item("a", vec![version("1", vec![file("{pluginsDir}/seen.auf", "00")])]),
        item("b", vec![version("1", vec![file("{pluginsDir}/unseen.auf", "00")])]),
    ];
    let cands = vec![true, false];
    let d = test_dirs();
    let paths = collect_unique_paths(&items, &cands, &d);
    assert_eq!(paths, vec![String::from("C:\\Data\\Plugin\\seen.auf")]);
}

#[test]
fn collected_paths_are_deduplicated() {
    let items = vec![
        item("a", vec![version("1", vec![file("{pluginsDir}/x.auf", "00")])]),
        item("b", vec![version("1", vec![file("{pluginsDir}/x.auf", "11")])]),
    ];
    let cands = vec![true, true];
    let d = test_dirs();
    let paths = collect_unique_paths(&items, &cands, &d);
    assert_eq!(paths, vec![String::from("C:\\Data\\Plugin\\x.auf")]);
}
