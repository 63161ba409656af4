use hyperion::cache_state::ShellCacheState;
use hyperion::media::{duration_to_milliseconds, optional_uint_to_u32};
use hyperion::security::deauthorize_session_error;

#[test]
fn served_lists_are_forgotten_one_kind_at_a_time() {
    let mut manager = ShellCacheState::new();
    manager.mark_room_thread_cache_served("a");
    manager.mark_room_thread_cache_served("b");
    manager.mark_space_cache_served("a");
    manager.mark_space_cache_served("b");
    manager.mark_room_timeline_cache_served("a", "!r");

    manager.clear_served_space_cache("a");
    assert!(!manager.space_cache_was_served("a"));
    assert!(manager.space_cache_was_served("b"));
    assert!(manager.room_thread_cache_was_served("a"));

    manager.clear_all_served_room_thread_caches();
    assert!(!manager.room_thread_cache_was_served("a"));
    assert!(!manager.room_thread_cache_was_served("b"));
    assert!(manager.space_cache_was_served("b"));
    assert!(manager.room_timeline_cache_was_served("a", "!r"));
}

#[test]
fn media_numbers_convert_only_when_they_fit() {
    assert_eq!(optional_uint_to_u32(Some(640)), Some(640));
    assert_eq!(optional_uint_to_u32(Some(u64::from(u32::MAX) + 1)), None);
    assert_eq!(optional_uint_to_u32(None), None);
    assert_eq!(duration_to_milliseconds(Some(1500)), Some(1500));
    assert_eq!(duration_to_milliseconds(Some(u128::from(u64::MAX) + 1)), None);
    assert_eq!(duration_to_milliseconds(None), None);
}

#[test]
fn deauthorization_failures_name_the_session() {
    assert_eq!(
        deauthorize_session_error("DEVICE", "forbidden"),
        "Failed to deauthorize session DEVICE: forbidden"
    );
}
