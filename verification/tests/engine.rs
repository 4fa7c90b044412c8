use minefetch::api::{
    attach_titles, check_edit_selection, compute_duplicate_check, compute_upgrade,
    dependency_rows, get_primary, list_effective, mods_from_versions, pick_latest,
    remove_locked_ones, require_hits, set_title, sort_by_title, version_label, Anymod,
};
use minefetch::structs::{Dependency, File, Hashes, MfError, Object, Search, Version};

fn mk_file(hash: &str, filename: &str, primary: bool) -> File {
    File {
        hashes: Hashes { sha1: hash.to_string() },
        url: format!("https://example.invalid/{}", filename),
        filename: filename.to_string(),
        primary,
    }
}

fn mk_version(name: &str, pid: &str, vid: &str, files: Vec<File>) -> Version {
    Version {
        name: name.to_string(),
        files,
        dependencies: None,
        project_id: pid.to_string(),
        id: vid.to_string(),
    }
}

fn mk_mod(title: Option<&str>, pid: &str, hash: &str) -> Anymod {
    Anymod {
        title: title.map(|t| t.to_string()),
        project_id: pid.to_string(),
        version_name: "v1".to_string(),
        version_id: "vid".to_string(),
        filename: format!("{}.jar", pid),
        hash: hash.to_string(),
        url: "https://example.invalid/x".to_string(),
        depends: None,
    }
}

#[test]
fn primary_file_is_first_marked() {
    let files = vec![
        mk_file("h1", "a.jar", false),
        mk_file("h2", "b.jar", true),
        mk_file("h3", "c.jar", true),
    ];
    let f = get_primary(&files).unwrap();
    assert_eq!(f.hashes.sha1, "h2");
    assert_eq!(f.filename, "b.jar");
}

#[test]
fn primary_file_absent_is_an_error() {
    let files = vec![mk_file("h1", "a.jar", false)];
    assert_eq!(get_primary(&files).unwrap_err(), MfError::NoPrimaryFile);
    let none: Vec<File> = Vec::new();
    assert_eq!(get_primary(&none).unwrap_err(), MfError::NoPrimaryFile);
}

#[test]
fn upgrade_unchanged_hash_is_a_noop() {
    // The service returns the very version that is installed: nothing to do.
    let current = vec!["a".to_string()];
    let response = vec![(
        "a".to_string(),
        mk_version("modA 1.0", "pa", "va", vec![mk_file("a", "a.jar", true)]),
    )];
    let locks: Vec<String> = Vec::new();
    let (old, new) = compute_upgrade(response, &current, &locks);
    assert!(old.is_empty());
    assert!(new.is_empty());
}

#[test]
fn upgrade_respects_locks() {
    let current = vec!["a".to_string(), "b".to_string()];
    let response = vec![
        (
            "a".to_string(),
            mk_version("modA 2.0", "pa", "va2", vec![mk_file("a2", "a2.jar", true)]),
        ),
        (
            "b".to_string(),
            mk_version("modB 2.0", "pb", "vb2", vec![mk_file("b2", "b2.jar", true)]),
        ),
    ];
    let locks = vec!["b".to_string()];
    let (old, new) = compute_upgrade(response, &current, &locks);
    assert_eq!(old, vec!["a".to_string()]);
    assert_eq!(new.len(), 1);
    assert_eq!(new[0].hash, "a2");
    assert_eq!(new[0].project_id, "pa");
    assert_eq!(new[0].version_name, "modA 2.0");
    assert_eq!(new[0].filename, "a2.jar");
    assert_eq!(new[0].title, None);
}

#[test]
fn upgrade_empty_response_is_up_to_date() {
    let current = vec!["a".to_string()];
    let response: Vec<(String, Version)> = Vec::new();
    let locks: Vec<String> = Vec::new();
    let (old, new) = compute_upgrade(response, &current, &locks);
    assert!(old.is_empty());
    assert!(new.is_empty());
}

#[test]
fn upgrade_skips_entry_without_primary_file() {
    let current = vec!["a".to_string(), "b".to_string()];
    let response = vec![
        (
            "a".to_string(),
            mk_version("modA 2.0", "pa", "va2", vec![mk_file("a2", "a2.jar", false)]),
        ),
        (
            "b".to_string(),
            mk_version("modB 2.0", "pb", "vb2", vec![mk_file("b2", "b2.jar", true)]),
        ),
    ];
    let locks: Vec<String> = Vec::new();
    let (old, new) = compute_upgrade(response, &current, &locks);
    assert_eq!(old, vec!["b".to_string()]);
    assert_eq!(new[0].hash, "b2");
}

#[test]
fn remove_locked_ones_filters_by_key() {
    let response = vec![
        ("a".to_string(), mk_version("A", "pa", "va", vec![])),
        ("b".to_string(), mk_version("B", "pb", "vb", vec![])),
        ("a".to_string(), mk_version("A2", "pa", "va2", vec![])),
    ];
    let locks = vec!["a".to_string()];
    let kept = remove_locked_ones(response, &locks);
    assert_eq!(kept.len(), 1);
    assert_eq!(kept[0].0, "b");
    assert_eq!(kept[0].1.name, "B");
}

#[test]
fn sort_by_title_orders_and_keeps_records() {
    let mods = vec![
        mk_mod(Some("citrus"), "p1", "h1"),
        mk_mod(Some("apple"), "p2", "h2"),
        mk_mod(None, "p3", "h3"),
        mk_mod(Some("banana"), "p4", "h4"),
    ];
    let sorted = sort_by_title(mods);
    let titles: Vec<Option<String>> = sorted.iter().map(|m| m.title.clone()).collect();
    assert_eq!(
        titles,
        vec![
            None,
            Some("apple".to_string()),
            Some("banana".to_string()),
            Some("citrus".to_string())
        ]
    );
}

#[test]
fn attach_titles_fills_from_metadata() {
    let mods = vec![mk_mod(None, "p1", "h1"), mk_mod(Some("old"), "p2", "h2")];
    let projects = vec![
        Object { project_id: "p1".to_string(), title: "Fresh".to_string() },
        Object { project_id: "px".to_string(), title: "Unused".to_string() },
    ];
    let titled = attach_titles(mods, &projects);
    assert_eq!(titled[0].title, Some("Fresh".to_string()));
    // A project the response does not mention keeps its previous title.
    assert_eq!(titled[1].title, Some("old".to_string()));
}

#[test]
fn list_effective_is_sorted_inventory() {
    let mods = vec![mk_mod(None, "p2", "h2"), mk_mod(None, "p1", "h1")];
    let projects = vec![
        Object { project_id: "p1".to_string(), title: "Alpha".to_string() },
        Object { project_id: "p2".to_string(), title: "Beta".to_string() },
    ];
    let listing = list_effective(mods, &projects);
    assert_eq!(listing.len(), 2);
    assert_eq!(listing[0].title, Some("Alpha".to_string()));
    assert_eq!(listing[1].title, Some("Beta".to_string()));
}

#[test]
fn pick_latest_takes_first_version() {
    let versions = vec![
        mk_version("new", "pa", "v2", vec![mk_file("h2", "new.jar", true)]),
        mk_version("older", "pa", "v1", vec![mk_file("h1", "old.jar", true)]),
    ];
    let locks: Vec<String> = Vec::new();
    let m = pick_latest(versions, &locks).unwrap();
    assert_eq!(m.version_id, "v2");
    assert_eq!(m.hash, "h2");
}

#[test]
fn pick_latest_reports_absences() {
    let locks: Vec<String> = Vec::new();
    assert_eq!(pick_latest(Vec::new(), &locks).unwrap_err(), MfError::NoVersions);

    let versions = vec![mk_version("new", "pa", "v2", vec![mk_file("h2", "x.jar", true)])];
    let locks = vec!["h2".to_string()];
    assert_eq!(pick_latest(versions, &locks).unwrap_err(), MfError::ModLocked);
}

#[test]
fn set_title_fills_the_title() {
    let m = set_title(mk_mod(None, "pa", "h"), "Named".to_string());
    assert_eq!(m.title, Some("Named".to_string()));
    assert_eq!(m.project_id, "pa");
}

#[test]
fn mods_from_versions_carries_title_and_project() {
    let versions = vec![
        mk_version("1.1", "pa", "v2", vec![mk_file("h2", "a2.jar", true)]),
        mk_version("1.0", "pa", "v1", vec![mk_file("h1", "a1.jar", true)]),
    ];
    let title = "Alpha".to_string();
    let mods = mods_from_versions(versions, &title).unwrap();
    assert_eq!(mods.len(), 2);
    assert_eq!(mods[0].title, Some("Alpha".to_string()));
    assert_eq!(mods[0].version_id, "v2");
    assert_eq!(mods[1].version_id, "v1");
    assert_eq!(mods[1].hash, "h1");
}

#[test]
fn mods_from_versions_fails_without_primary() {
    let versions = vec![
        mk_version("1.1", "pa", "v2", vec![mk_file("h2", "a2.jar", true)]),
        mk_version("1.0", "pa", "v1", vec![mk_file("h1", "a1.jar", false)]),
    ];
    let title = "Alpha".to_string();
    assert_eq!(mods_from_versions(versions, &title).unwrap_err(), MfError::NoPrimaryFile);
}

#[test]
fn duplicate_check_flags_installed_projects() {
    let candidates = vec!["p1".to_string(), "p2".to_string(), "p3".to_string()];
    let installed = vec!["p2".to_string()];
    assert_eq!(compute_duplicate_check(&candidates, &installed), vec![false, true, false]);
}

#[test]
fn edit_selection_rejects_reinstall() {
    let installed = mk_mod(Some("A"), "pa", "h1");
    let mut other = mk_mod(Some("A"), "pa", "h2");
    other.version_id = "vid2".to_string();
    assert_eq!(check_edit_selection(&installed, &installed).unwrap_err(), MfError::AlreadyInstalled);
    assert!(check_edit_selection(&other, &installed).is_ok());
}

#[test]
fn require_hits_distinguishes_empty() {
    let empty = Search { hits: Vec::new() };
    assert_eq!(require_hits(empty).unwrap_err(), MfError::NoHits);
    let one = Search {
        hits: vec![Object { project_id: "p".to_string(), title: "T".to_string() }],
    };
    assert_eq!(require_hits(one).unwrap().len(), 1);
}

#[test]
fn version_label_marks_installed() {
    let m = mk_mod(Some("A"), "pa", "h");
    let same = m.version_id.clone();
    let other = "different".to_string();
    assert_eq!(version_label(&m, &same), "v1 (Installed)");
    assert_eq!(version_label(&m, &other), "v1");
}

#[test]
fn dependency_rows_pair_titles_with_kinds() {
    let titles = vec!["Lib".to_string(), "Extra".to_string()];
    let deps = vec![
        Dependency { project_id: "p1".to_string(), dependency_type: "required".to_string() },
        Dependency { project_id: "p2".to_string(), dependency_type: "optional".to_string() },
    ];
    let rows = dependency_rows(titles, &deps);
    assert_eq!(
        rows,
        vec![
            ("Lib".to_string(), "required".to_string()),
            ("Extra".to_string(), "optional".to_string())
        ]
    );
}
