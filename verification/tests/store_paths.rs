use hyperion::store_paths::{
    account_settings_dir, encryption_settings_path, legacy_timeline_view_cache_paths,
    search_paths_for_store, session_settings_path, timeline_view_state_database_path, StorePath,
};

fn path(root: Option<&str>, names: &[&str]) -> StorePath {
    StorePath {
        root: root.map(String::from),
        components: names.iter().map(|n| String::from(*n)).collect(),
    }
}

fn names(p: &StorePath) -> Vec<&str> {
    p.components.iter().map(|n| n.as_str()).collect()
}

#[test]
fn settings_files_live_beside_the_store() {
    let store = path(Some("/"), &["data", "accounts", "abc", "store"]);
    let dir = account_settings_dir(&store).unwrap();
    assert_eq!(names(&dir), vec!["data", "accounts", "abc", "settings"]);
    assert_eq!(dir.root.as_deref(), Some("/"));
    let enc = encryption_settings_path(&store).unwrap();
    assert_eq!(names(&enc), vec!["data", "accounts", "abc", "settings", "encryption-settings.json"]);
    let ses = session_settings_path(&store).unwrap();
    assert_eq!(names(&ses), vec!["data", "accounts", "abc", "settings", "session-settings.json"]);
    let search = search_paths_for_store(&store).unwrap();
    assert_eq!(
        names(&search.database_path),
        vec!["data", "accounts", "abc", "hyperion-search", "search.sqlite3"]
    );
}

#[test]
fn a_store_without_parent_is_refused() {
    let bare = path(Some("/"), &[]);
    assert_eq!(
        account_settings_dir(&bare).unwrap_err(),
        "Account store directory has no parent"
    );
    assert_eq!(
        search_paths_for_store(&bare).unwrap_err(),
        "account store path has no parent directory"
    );
    assert!(encryption_settings_path(&bare).is_err());
    assert!(legacy_timeline_view_cache_paths(&bare).is_empty());
    let relative = path(None, &["store"]);
    assert_eq!(names(&account_settings_dir(&relative).unwrap()), vec!["settings"]);
}

#[test]
fn legacy_cache_files_are_the_database_and_its_journals() {
    let store = path(None, &["acct", "store"]);
    let db = timeline_view_state_database_path(&store).unwrap();
    assert_eq!(names(&db), vec!["acct", "hyperion-cache", "timeline-view.sqlite3"]);
    let legacy = legacy_timeline_view_cache_paths(&store);
    assert_eq!(legacy.len(), 3);
    assert_eq!(names(&legacy[0]), vec!["acct", "hyperion-cache", "timeline-view.sqlite3"]);
    assert_eq!(names(&legacy[1]), vec!["acct", "hyperion-cache", "timeline-view.sqlite3-wal"]);
    assert_eq!(names(&legacy[2]), vec!["acct", "hyperion-cache", "timeline-view.sqlite3-shm"]);
}
