use hyperion::cache_state::{room_cache_key, ServedKeys, ShellCacheState, ShellManager};

#[test]
fn served_keys_behave_as_a_set() {
    let mut keys = ServedKeys::new();
    assert!(!keys.contains("a"));
    keys.insert("a");
    keys.insert("a");
    keys.insert("ab");
    assert!(keys.contains("a"));
    keys.remove("a");
    assert!(!keys.contains("a"));
    assert!(keys.contains("ab"));
    keys.remove_with_prefix("a");
    assert!(!keys.contains("ab"));
    keys.insert("x");
    keys.clear();
    assert!(!keys.contains("x"));
}

#[test]
fn account_timelines_are_forgotten_by_prefix() {
    assert_eq!(room_cache_key("acct", "!room"), "acct::!room");
    let mut state = ShellCacheState::new();
    state.mark_room_timeline_cache_served("acct", "!a");
    state.mark_room_timeline_cache_served("acct", "!b");
    state.mark_room_timeline_cache_served("other", "!a");
    state.mark_room_thread_cache_served("acct");
    state.mark_space_cache_served("acct");
    assert!(state.room_timeline_cache_was_served("acct", "!a"));
    state.clear_served_room_timeline_caches("acct");
    assert!(!state.room_timeline_cache_was_served("acct", "!a"));
    assert!(!state.room_timeline_cache_was_served("acct", "!b"));
    assert!(state.room_timeline_cache_was_served("other", "!a"));
    assert!(state.room_thread_cache_was_served("acct"));
    state.clear_served_room_thread_cache("acct");
    assert!(!state.room_thread_cache_was_served("acct"));
    assert!(state.space_cache_was_served("acct"));
    state.clear_all_served_space_caches();
    assert!(!state.space_cache_was_served("acct"));
    state.clear_all_served_room_timeline_caches();
    assert!(!state.room_timeline_cache_was_served("other", "!a"));
}

#[test]
fn shell_manager_forgets_served_caches() {
    let mut shell = ShellManager::new();
    shell.cache_state.mark_room_thread_cache_served("acct");
    shell.cache_state.mark_space_cache_served("acct");
    shell.cache_state.mark_room_timeline_cache_served("acct", "!a");
    shell.cache_state.mark_space_cache_served("other");
    shell.forget_served_account_caches("acct");
    assert!(!shell.cache_state.room_thread_cache_was_served("acct"));
    assert!(!shell.cache_state.space_cache_was_served("acct"));
    assert!(!shell.cache_state.room_timeline_cache_was_served("acct", "!a"));
    assert!(shell.cache_state.space_cache_was_served("other"));
    shell.forget_all_served_caches();
    assert!(!shell.cache_state.space_cache_was_served("other"));
}
