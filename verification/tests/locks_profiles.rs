use minefetch::api::Anymod;
use minefetch::profile::{
    delete_profile, find_by_hash, get_locks, get_locks_path, list_locks, profile_label,
    push_profile, read_config, remove_lock, switch_profile, write_lock,
};
use minefetch::structs::{Config, Locks, MfError, Profile};

fn mk_profile(name: &str, hash: &str, active: bool) -> Profile {
    Profile {
        active,
        name: name.to_string(),
        modsfolder: format!("/mods/{}", name),
        gameversion: "1.21".to_string(),
        loader: "fabric".to_string(),
        hash: hash.to_string(),
    }
}

fn mk_mod(title: &str, hash: &str, filename: &str) -> Anymod {
    Anymod {
        title: Some(title.to_string()),
        project_id: format!("p-{}", hash),
        version_name: "v1".to_string(),
        version_id: format!("v-{}", hash),
        filename: filename.to_string(),
        hash: hash.to_string(),
        url: "https://example.invalid/x".to_string(),
        depends: None,
    }
}

#[test]
fn empty_lock_store_is_a_distinct_condition() {
    let locks = Locks { lock: Vec::new() };
    assert_eq!(get_locks(locks).unwrap_err(), MfError::NoLocks);
    let locks = Locks { lock: vec!["A".to_string()] };
    assert_eq!(get_locks(locks).unwrap(), vec!["A".to_string()]);
}

#[test]
fn write_lock_appends() {
    let locks = Locks { lock: vec!["A".to_string()] };
    let locks = write_lock(locks, "B".to_string());
    assert_eq!(locks.lock, vec!["A".to_string(), "B".to_string()]);
}

#[test]
fn remove_lock_drops_every_occurrence() {
    let locks = Locks {
        lock: vec!["A".to_string(), "B".to_string(), "A".to_string()],
    };
    let hash = "A".to_string();
    let locks = remove_lock(locks, &hash);
    assert_eq!(locks.lock, vec!["B".to_string()]);
}

#[test]
fn find_by_hash_takes_the_first_match() {
    let mods = vec![
        mk_mod("a", "H1", "a.jar"),
        mk_mod("b", "H2", "b.jar"),
        mk_mod("c", "H2", "c.jar"),
    ];
    assert_eq!(find_by_hash(&mods, &"H2".to_string()), Some(1));
    assert_eq!(find_by_hash(&mods, &"H9".to_string()), None);
}

#[test]
fn lock_listing_skips_dangling_locks() {
    let mods = vec![mk_mod("Alpha", "H1", "a.jar"), mk_mod("Beta", "H2", "b.jar")];
    let locks = vec!["H2".to_string(), "H9".to_string(), "H1".to_string()];
    let rows = list_locks(&locks, &mods);
    assert_eq!(
        rows,
        vec![
            (1, Some("Beta".to_string()), "b.jar".to_string()),
            (2, Some("Alpha".to_string()), "a.jar".to_string()),
        ]
    );
}

#[test]
fn read_config_finds_the_active_profile() {
    let config = Config {
        profile: vec![
            mk_profile("one", "h1", false),
            mk_profile("two", "h2", true),
            mk_profile("three", "h3", false),
        ],
    };
    assert_eq!(read_config(config).unwrap().name, "two");
}

#[test]
fn read_config_without_active_profile_is_an_error() {
    let config = Config { profile: vec![mk_profile("one", "h1", false)] };
    assert_eq!(read_config(config).unwrap_err(), MfError::NoActiveProfile);
    let empty = Config { profile: Vec::new() };
    assert_eq!(read_config(empty).unwrap_err(), MfError::NoActiveProfile);
}

#[test]
fn switch_profile_activates_exactly_one() {
    let config = Config {
        profile: vec![mk_profile("one", "h1", true), mk_profile("two", "h2", false)],
    };
    let hash = "h2".to_string();
    let config = switch_profile(config, &hash);
    assert!(!config.profile[0].active);
    assert!(config.profile[1].active);
}

#[test]
fn delete_profile_removes_by_hash() {
    let config = Config {
        profile: vec![mk_profile("one", "h1", true), mk_profile("two", "h2", false)],
    };
    let hash = "h1".to_string();
    let config = delete_profile(config, &hash);
    assert_eq!(config.profile.len(), 1);
    assert_eq!(config.profile[0].name, "two");
}

#[test]
fn push_profile_deactivates_the_rest() {
    let config = Config {
        profile: vec![mk_profile("one", "h1", true), mk_profile("two", "h2", false)],
    };
    let config = push_profile(config, mk_profile("three", "h3", true));
    assert_eq!(config.profile.len(), 3);
    assert!(!config.profile[0].active);
    assert!(!config.profile[1].active);
    assert!(config.profile[2].active);
}

#[test]
fn locks_path_lies_in_the_mod_directory() {
    let p = mk_profile("one", "h1", true);
    assert_eq!(get_locks_path(&p), "/mods/one/locks.toml");
}

#[test]
fn profile_label_marks_the_active_one() {
    let p = mk_profile("one", "h1", true);
    assert_eq!(
        profile_label(&p),
        "[\x1b[1m\x1b[4m*\x1b[0m] one [fabric 1.21] [/mods/one]"
    );
    let q = mk_profile("two", "h2", false);
    assert_eq!(
        profile_label(&q),
        "[\x1b[1m\x1b[4m \x1b[0m] two [fabric 1.21] [/mods/two]"
    );
}
