use minefetch::structs::MfError;
use minefetch::utils::{
    content_hash, generate_hash, get_confdir, get_confpath, has_jar_extension, scan_hashes,
    select_deletions, to_hex_lower, ScanEntry, ScanFile,
};

fn mk_file(name: &str, data: &[u8]) -> ScanFile {
    ScanFile { name: name.to_string(), data: data.to_vec() }
}

fn mk_entry(path: &str, hash: &str) -> ScanEntry {
    ScanEntry { path: path.to_string(), hash: hash.to_string() }
}

#[test]
fn content_hash_matches_known_digests() {
    assert_eq!(content_hash(&Vec::new()), "da39a3ee5e6b4b0d3255bfef95601890afd80709");
    assert_eq!(content_hash(&b"abc".to_vec()), "a9993e364706816aba3e25717850c26c9cd0d89d");
    assert_eq!(
        content_hash(&b"hello world".to_vec()),
        "2aae6c35c94fcfb415dbe95f408b9ce91ee846ed"
    );
}

#[test]
fn hex_rendering_is_two_digits_per_byte() {
    assert_eq!(to_hex_lower(&vec![0x00u8, 0x0f, 0xa5, 0xff]), "000fa5ff");
    assert_eq!(to_hex_lower(&Vec::new()), "");
}

#[test]
fn jar_extension_check() {
    assert!(has_jar_extension("a.jar"));
    assert!(has_jar_extension("x.y.jar"));
    assert!(!has_jar_extension("a.jar.txt"));
    assert!(!has_jar_extension("ajar"));
    assert!(!has_jar_extension(".jar"));
    assert!(!has_jar_extension(""));
}

#[test]
fn scan_hashes_only_eligible_files() {
    let files = vec![
        mk_file("a.jar", b"abc"),
        mk_file("notes.txt", b"zzz"),
        mk_file("b.jar", b"hello world"),
    ];
    let hashes = scan_hashes(&files).unwrap();
    assert_eq!(
        hashes,
        vec![
            "a9993e364706816aba3e25717850c26c9cd0d89d".to_string(),
            "2aae6c35c94fcfb415dbe95f408b9ce91ee846ed".to_string(),
        ]
    );
}

#[test]
fn scan_without_eligible_files_is_a_distinct_condition() {
    let files = vec![mk_file("readme.md", b"hi")];
    assert_eq!(scan_hashes(&files).unwrap_err(), MfError::NoModsYet);
    let none: Vec<ScanFile> = Vec::new();
    assert_eq!(scan_hashes(&none).unwrap_err(), MfError::NoModsYet);
}

#[test]
fn scan_is_invariant_under_renames() {
    // The same bytes under different (still eligible) names hash identically.
    let before = vec![mk_file("old-name.jar", b"abc"), mk_file("other.jar", b"xyz")];
    let after = vec![mk_file("new-name.jar", b"abc"), mk_file("moved.jar", b"xyz")];
    assert_eq!(scan_hashes(&before).unwrap(), scan_hashes(&after).unwrap());
}

#[test]
fn scan_changes_with_content() {
    let before = vec![mk_file("m.jar", b"abc")];
    let after = vec![mk_file("m.jar", b"abd")];
    assert_ne!(scan_hashes(&before).unwrap(), scan_hashes(&after).unwrap());
}

#[test]
fn deletions_are_selected_by_hash() {
    let entries = vec![
        mk_entry("/mods/a.jar", "H1"),
        mk_entry("/mods/renamed.jar", "H2"),
        mk_entry("/mods/c.jar", "H3"),
    ];
    let old = vec!["H2".to_string()];
    let (del, keep) = select_deletions(entries, &old);
    assert_eq!(del.len(), 1);
    assert_eq!(del[0].path, "/mods/renamed.jar");
    assert_eq!(keep.len(), 2);
    assert_eq!(keep[0].hash, "H1");
    assert_eq!(keep[1].hash, "H3");
}

#[test]
fn replace_leaves_survivors_plus_fetched() {
    // Prior state {A, B}; hash A is superseded; only the new file C arrived.
    // What a fresh scan would see is (prior - old) with the fetched hash: the
    // failed item's old hash is gone regardless, by policy.
    let entries = vec![mk_entry("/mods/a.jar", "A"), mk_entry("/mods/b.jar", "B")];
    let old = vec!["A".to_string()];
    let (_, keep) = select_deletions(entries, &old);
    let mut after: Vec<String> = keep.into_iter().map(|e| e.hash).collect();
    after.push("C".to_string());
    after.sort();
    assert_eq!(after, vec!["B".to_string(), "C".to_string()]);
}

#[test]
fn generated_token_is_long_and_alphanumeric() {
    let token = generate_hash();
    assert_eq!(token.chars().count(), 64);
    assert!(token.chars().all(|c| c.is_ascii_alphanumeric()));
    // Two draws almost surely differ; equality would hint at a constant stub.
    assert_ne!(generate_hash(), token);
}

#[test]
fn config_paths_hang_off_the_home_directory() {
    let home = "/home/user".to_string();
    assert_eq!(get_confdir(&home), "/home/user/.config/minefetch");
    assert_eq!(get_confpath(&home), "/home/user/.config/minefetch/config.toml");
}
