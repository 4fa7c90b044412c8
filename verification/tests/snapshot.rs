use minefetch::api::Anymod;
use minefetch::cache::{
    apply_validation, cache_hashes, diff_hashes, get_cache_path, validate_cache, Cache,
};
use minefetch::structs::Profile;

fn mk_mod(title: &str, hash: &str) -> Anymod {
    Anymod {
        title: Some(title.to_string()),
        project_id: format!("p-{}", hash),
        version_name: "v1".to_string(),
        version_id: format!("v-{}", hash),
        filename: format!("{}.jar", hash),
        hash: hash.to_string(),
        url: "https://example.invalid/x".to_string(),
        depends: None,
    }
}

fn mk_profile(folder: &str) -> Profile {
    Profile {
        active: true,
        name: "main".to_string(),
        modsfolder: folder.to_string(),
        gameversion: "1.21".to_string(),
        loader: "fabric".to_string(),
        hash: "abc".to_string(),
    }
}

#[test]
fn empty_cache_has_no_hashes() {
    let cache = Cache::new();
    assert!(cache_hashes(&cache).is_empty());
}

#[test]
fn validate_detects_vanished_records() {
    // Disk has {A, B}; the snapshot still describes {A, B, C}.
    let cache = Cache { elements: vec![mk_mod("a", "A"), mk_mod("b", "B"), mk_mod("c", "C")] };
    let current = vec!["A".to_string(), "B".to_string()];
    let (added, removed) = validate_cache(&cache, &current);
    assert!(added.is_empty());
    assert_eq!(removed, vec!["C".to_string()]);

    let repaired = apply_validation(cache, Vec::new(), &removed);
    let mut hashes = cache_hashes(&repaired);
    hashes.sort();
    assert_eq!(hashes, vec!["A".to_string(), "B".to_string()]);
}

#[test]
fn validate_detects_new_files() {
    let cache = Cache { elements: vec![mk_mod("a", "A")] };
    let current = vec!["A".to_string(), "B".to_string()];
    let (added, removed) = validate_cache(&cache, &current);
    assert_eq!(added, vec!["B".to_string()]);
    assert!(removed.is_empty());

    let repaired = apply_validation(cache, vec![mk_mod("b", "B")], &removed);
    let mut hashes = cache_hashes(&repaired);
    hashes.sort();
    assert_eq!(hashes, vec!["A".to_string(), "B".to_string()]);
}

#[test]
fn validate_is_idempotent() {
    // A snapshot that already matches the disk needs no work at all.
    let cache = Cache { elements: vec![mk_mod("a", "A"), mk_mod("b", "B")] };
    let current = vec!["B".to_string(), "A".to_string()];
    let (added, removed) = validate_cache(&cache, &current);
    assert!(added.is_empty());
    assert!(removed.is_empty());
}

#[test]
fn diff_hashes_deduplicates() {
    let current = vec!["A".to_string(), "A".to_string(), "B".to_string()];
    let snapshot = vec!["B".to_string()];
    let (added, removed) = diff_hashes(&current, &snapshot);
    assert_eq!(added, vec!["A".to_string()]);
    assert!(removed.is_empty());
}

#[test]
fn apply_validation_sorts_by_title() {
    let cache = Cache { elements: vec![mk_mod("zebra", "Z"), mk_mod("apple", "A")] };
    let out = apply_validation(cache, vec![mk_mod("mango", "M")], &Vec::new());
    let titles: Vec<Option<String>> = out.elements.iter().map(|m| m.title.clone()).collect();
    assert_eq!(
        titles,
        vec![
            Some("apple".to_string()),
            Some("mango".to_string()),
            Some("zebra".to_string())
        ]
    );
}

#[test]
fn cache_path_lies_in_the_mod_directory() {
    let p = mk_profile("/mods/dir");
    assert_eq!(get_cache_path(&p), "/mods/dir/cache.toml");
}
