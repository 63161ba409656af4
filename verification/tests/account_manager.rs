use hyperion::account::AccountAuthorizationMode;
use hyperion::account_manager::{
    active_account_store_id, clean_store_login_error, client_uses_default_preferences,
    remove_dir_retries_exhausted, remove_dir_step, should_retry_login_on_clean_store,
    store_root_and_id, AccountManager, AccountRestoreState, DiscoveredAccountRestore,
    ManagedAccount, RemoveDirAttempt, RemoveDirStep, StoreIdProblem,
    discovered_account_stores, StoreDirEntry,
};
use hyperion::account::account_store_id;
use hyperion::settings::EncryptionPreferences;
use hyperion::store_paths::StorePath;

fn dir(names: &[&str]) -> StorePath {
    StorePath {
        root: Some(String::from("/")),
        components: names.iter().map(|n| String::from(*n)).collect(),
    }
}

fn account(user: &str, store: &str) -> ManagedAccount<u32> {
    ManagedAccount {
        client: 7,
        user_id: String::from(user),
        homeserver_url: String::from("https://example.org"),
        store_dir: dir(&["accounts", store, "store"]),
    }
}

fn sign_in(manager: &mut AccountManager<u32>, user: &str, store: &str) -> bool {
    let a = account(user, store);
    manager
        .store_logged_in_account(String::from(user), a.user_id, a.homeserver_url, a.store_dir, a.client)
        .is_active
}

#[test]
fn first_signed_in_account_becomes_active() {
    let mut manager: AccountManager<u32> = AccountManager::new();
    assert!(manager.active_account().is_none());
    assert!(sign_in(&mut manager, "@a:x", "s1"));
    assert!(!sign_in(&mut manager, "@b:x", "s2"));
    let active = manager.active_account().expect("an active account");
    assert_eq!(active.account_key, "@a:x");
    let mut listed: Vec<(String, bool)> = manager
        .list_accounts()
        .into_iter()
        .map(|s| (s.account_key, s.is_active))
        .collect();
    listed.sort();
    assert_eq!(listed, vec![(String::from("@a:x"), true), (String::from("@b:x"), false)]);
    assert!(!sign_in(&mut manager, "@b:x", "s3"));
    assert_eq!(manager.list_accounts().len(), 2);
}

#[test]
fn switching_to_an_unknown_account_is_refused() {
    let mut manager: AccountManager<u32> = AccountManager::new();
    sign_in(&mut manager, "@a:x", "s1");
    sign_in(&mut manager, "@b:x", "s2");
    assert_eq!(
        manager.switch_active_account("@z:x"),
        Err(String::from("Unknown account key: @z:x"))
    );
    assert_eq!(manager.active_account().map(|s| s.account_key), Some(String::from("@a:x")));
    assert_eq!(manager.switch_active_account("@b:x"), Ok(()));
    assert_eq!(manager.validate_active_account().map(|s| s.account_key), Some(String::from("@b:x")));
    let snapshot = manager.require_active_account().expect("active client");
    assert_eq!(snapshot.account_key, "@b:x");
    assert_eq!(snapshot.client, 7);
}

#[test]
fn releasing_a_store_drops_its_accounts_and_moves_the_active_one() {
    let mut manager: AccountManager<u32> = AccountManager::new();
    sign_in(&mut manager, "@a:x", "s1");
    sign_in(&mut manager, "@b:x", "s2");
    assert!(manager.store_dir_is_managed(&dir(&["accounts", "s1", "store"])));
    manager.release_accounts_for_store_dir(&dir(&["accounts", "s1", "store"]));
    assert!(!manager.store_dir_is_managed(&dir(&["accounts", "s1", "store"])));
    assert_eq!(manager.active_account().map(|s| s.account_key), Some(String::from("@b:x")));
    manager.release_accounts_for_store_dir(&dir(&["accounts", "s2", "store"]));
    assert!(manager.active_account().is_none());
    assert!(manager.list_accounts().is_empty());
    assert_eq!(
        manager.require_active_account().map(|s| s.account_key),
        Err(String::from("No active account is available"))
    );
}

#[test]
fn restoring_prefers_the_account_that_was_active() {
    let mut manager: AccountManager<u32> = AccountManager::new();
    assert!(!manager.restore_is_completed());
    let outcomes = vec![
        DiscoveredAccountRestore::Restored {
            account_key: String::from("@a:x"),
            account: account("@a:x", "s1"),
            is_active: false,
        },
        DiscoveredAccountRestore::SkippedMissingKey,
        DiscoveredAccountRestore::Restored {
            account_key: String::from("@b:x"),
            account: account("@b:x", "s2"),
            is_active: true,
        },
        DiscoveredAccountRestore::RetryNeeded,
    ];
    let state = manager.restore_accounts_state(outcomes);
    assert_eq!(state, AccountRestoreState { retry_needed: true, has_restored_accounts: true });
    assert_eq!(manager.active_account().map(|s| s.account_key), Some(String::from("@b:x")));
    manager.complete_restore(state);
    assert!(!manager.restore_is_completed());
    let state = manager.restore_accounts_state(vec![DiscoveredAccountRestore::SkippedMissingKey]);
    assert_eq!(state, AccountRestoreState { retry_needed: false, has_restored_accounts: false });
    manager.complete_restore(state);
    assert!(manager.restore_is_completed());
    assert!(manager.active_account().is_none());
}

#[test]
fn reauthentication_blocks_network_actions() {
    let mut manager: AccountManager<u32> = AccountManager::new();
    assert!(manager.network_actions_allowed("@a:x"));
    manager.mark_reauthentication_required("@a:x");
    assert!(!manager.network_actions_allowed("@a:x"));
    manager.set_authorization_mode("@a:x", AccountAuthorizationMode::Online);
    assert!(manager.network_actions_allowed("@a:x"));
}

#[test]
fn store_ids_come_from_the_directory_above_the_store() {
    let (root, id) = store_root_and_id(&dir(&["accounts", "v1_abc", "store"])).unwrap();
    assert_eq!(id, "v1_abc");
    assert_eq!(root.components, vec![String::from("accounts"), String::from("v1_abc")]);
    assert_eq!(store_root_and_id(&dir(&[])).unwrap_err(), StoreIdProblem::NoParent);
    assert_eq!(store_root_and_id(&dir(&["store"])).unwrap_err(), StoreIdProblem::NoStoreId);
    assert_eq!(store_root_and_id(&dir(&["..", "store"])).unwrap_err(), StoreIdProblem::NoStoreId);
    assert_eq!(
        active_account_store_id(&dir(&[])).unwrap_err(),
        "Active account store path has no parent directory"
    );
    assert_eq!(
        active_account_store_id(&dir(&["store"])).unwrap_err(),
        "Active account store directory has no valid store id"
    );
}

#[test]
fn removing_a_held_directory_is_retried() {
    let busy = || RemoveDirAttempt::Failed { os_error: Some(32), message: String::from("in use") };
    assert!(matches!(remove_dir_step(0, RemoveDirAttempt::Missing, "ctx"), RemoveDirStep::Done));
    assert!(matches!(remove_dir_step(3, RemoveDirAttempt::Removed, "ctx"), RemoveDirStep::Done));
    assert!(matches!(remove_dir_step(0, busy(), "ctx"), RemoveDirStep::RetryAfterDelay));
    match remove_dir_step(49, busy(), "ctx") {
        RemoveDirStep::Fail(e) => assert_eq!(e, "ctx: in use"),
        _ => panic!("the last try fails"),
    }
    match remove_dir_step(
        0,
        RemoveDirAttempt::Failed { os_error: Some(5), message: String::from("denied") },
        "Failed to reset",
    ) {
        RemoveDirStep::Fail(e) => assert_eq!(e, "Failed to reset: denied"),
        _ => panic!("other errors fail at once"),
    }
    assert_eq!(remove_dir_retries_exhausted("ctx"), "ctx after repeated retries");
}

#[test]
fn a_stale_crypto_store_is_reset_once() {
    let stale = "account in the store doesn't match the account in the constructor";
    assert!(should_retry_login_on_clean_store(None, stale));
    assert!(!should_retry_login_on_clean_store(Some("DEVICE"), stale));
    assert!(!should_retry_login_on_clean_store(None, "wrong password"));
    assert_eq!(
        clean_store_login_error("boom"),
        "Login failed after resetting the stale local crypto store: boom"
    );
    let mut preferences = EncryptionPreferences {
        server_key_storage_opted_out: true,
        verified_devices_only: false,
        share_encrypted_history_on_invite: false,
    };
    assert!(client_uses_default_preferences(&preferences));
    preferences.verified_devices_only = true;
    assert!(!client_uses_default_preferences(&preferences));
}

#[test]
fn accounts_are_found_by_store_and_the_active_one_snapshotted() {
    let mut manager: AccountManager<u32> = AccountManager::new();
    assert!(manager.active_account_snapshot().is_none());
    sign_in(&mut manager, "@a:x", "s1");
    sign_in(&mut manager, "@b:x", "s2");
    let (key, found) = manager
        .account_for_store_dir(&dir(&["accounts", "s2", "store"]))
        .expect("a managed store");
    assert_eq!(key, "@b:x");
    assert_eq!(found.user_id, "@b:x");
    assert!(manager.account_for_store_dir(&dir(&["accounts", "s9", "store"])).is_none());

    let (summary, client, store) = manager.active_account_snapshot().expect("an active account");
    assert_eq!(summary.account_key, "@a:x");
    assert!(summary.is_active);
    assert_eq!(client, 7);
    assert_eq!(store.components, vec![String::from("accounts"), String::from("s1"), String::from("store")]);
    let loaded = manager.active_account_client_loaded().expect("loaded");
    assert_eq!(loaded.account_key, "@a:x");
}

fn entry(name: &str, is_dir: bool, has_store_dir: bool) -> StoreDirEntry {
    StoreDirEntry { name: String::from(name), is_dir, has_store_dir }
}

#[test]
fn account_stores_on_disk_are_found_in_store_id_order() {
    let b = account_store_id("https://b.example.org", "bob");
    let a = account_store_id("https://a.example.org", "alice");
    let root = dir(&["data", "matrix-accounts"]);
    let found = discovered_account_stores(
        &root,
        vec![
            entry(&b, true, true),
            entry("notes.txt", false, false),
            entry("v1__hs_@@@__acct_x", true, true),
            entry(&account_store_id("https://c.example.org", "carol"), true, false),
            entry(&a, true, true),
        ],
    );
    assert_eq!(found.len(), 2);
    assert_eq!(found[0].store_id, a);
    assert_eq!(found[0].homeserver_url, "https://a.example.org");
    assert_eq!(found[1].store_id, b);
    assert_eq!(found[1].homeserver_url, "https://b.example.org");
    assert_eq!(
        found[0].store_dir.components,
        vec![String::from("data"), String::from("matrix-accounts"), a.clone(), String::from("store")]
    );
    assert_eq!(found[0].cache_dir.components.last(), Some(&String::from("cache")));
}

#[test]
fn new_account_storage_replaces_a_store_no_account_keeps() {
    let mut manager: AccountManager<u32> = AccountManager::new();
    let root = dir(&["accounts"]);
    let id = account_store_id("https://example.org", "alice");

    let fresh = manager.plan_account_storage(&root, "https://example.org", "alice", false);
    assert_eq!(fresh.stale_key_entry, None);
    let location = fresh.location.expect("a location");
    assert_eq!(location.store_id, id);
    assert_eq!(location.homeserver_url, "https://example.org");

    let taken = manager.plan_account_storage(&root, "https://example.org", "alice", true);
    assert_eq!(taken.stale_key_entry, Some(format!("matrix-store-key::{id}")));
    let replaced = taken.location.expect("a location");
    assert!(replaced.store_id.starts_with(&format!("{id}__fresh_")));

    manager.store_logged_in_account(
        String::from("@alice:example.org"),
        String::from("@alice:example.org"),
        String::from("https://example.org"),
        dir(&["accounts", &id, "store"]),
        1,
    );
    let kept = manager.plan_account_storage(&root, "https://example.org", "alice", true);
    assert_eq!(kept.stale_key_entry, None);
    assert_eq!(kept.location.expect("a location").store_id, id);
}
