use hyperion::paging::RoomTimelineIdentity;
use hyperion::timeline::RoomTimelineItem;
use hyperion::timeline_registry::{
    focused_cache_key, latest_items, live_timeline_window, restore_pagination_continues,
    unseen_items, ShellTimelineRegistry, TIMELINE_RESTORE_PAGINATION_ATTEMPTS,
};

fn item(id: &str) -> RoomTimelineItem {
    RoomTimelineItem::text_message(
        String::from(id),
        String::from("@a:x"),
        None,
        String::from("hi"),
        0,
        false,
        false,
    )
}

fn ids(items: &[RoomTimelineItem]) -> Vec<&str> {
    items.iter().map(|i| i.event_id.as_str()).collect()
}

fn identity(account: &str, instance: &str) -> RoomTimelineIdentity {
    RoomTimelineIdentity {
        account_key: String::from(account),
        room_id: String::from("!r"),
        instance_id: String::from(instance),
        focused_event_id: None,
    }
}

#[test]
fn timelines_are_kept_once_per_room_and_dropped_on_teardown() {
    let mut registry: ShellTimelineRegistry<u32> = ShellTimelineRegistry::new();
    assert_eq!(ShellTimelineRegistry::<u32>::cache_key("a", "!r"), "a::!r");
    assert_eq!(focused_cache_key("a", "!r", "$e"), "a::!r::$e");
    let revision = registry.lifecycle_revision();
    assert!(registry.cached_live_timeline("a", "!r").is_none());
    assert_eq!(registry.keep_live_timeline("a", "!r", revision, 1), Ok(()));
    assert_eq!(registry.keep_live_timeline("a", "!r", revision, 2), Ok(()));
    assert_eq!(registry.cached_live_timeline("a", "!r"), Some(&1));
    assert_eq!(registry.keep_focused_timeline("a", "!r", "$e", revision, 3), Ok(()));
    assert_eq!(registry.keep_live_timeline("b", "!r", revision, 4), Ok(()));
    let mut removed = registry.clear_account("a");
    removed.sort();
    assert_eq!(removed, vec![(String::from("a::!r"), 1), (String::from("a::!r::$e"), 3)]);
    assert!(registry.cached_live_timeline("a", "!r").is_none());
    assert!(registry.cached_focused_timeline("a", "!r", "$e").is_none());
    assert_eq!(registry.cached_live_timeline("b", "!r"), Some(&4));
    assert_eq!(
        registry.keep_live_timeline("a", "!r", revision, 5),
        Err(String::from("Timeline creation was invalidated by account teardown"))
    );
    let removed = registry.clear_all();
    assert_eq!(removed, vec![(String::from("b::!r"), 4)]);
    assert!(registry.cached_live_timeline("b", "!r").is_none());
}

#[test]
fn only_the_latest_opened_view_may_publish() {
    let mut registry: ShellTimelineRegistry<u32> = ShellTimelineRegistry::new();
    let first = registry.reserve_view("a");
    let second = registry.reserve_view("a");
    assert_eq!(
        registry.activate_opened_view(&identity("a", "one"), first),
        Err(String::from("Timeline view was replaced while opening"))
    );
    assert_eq!(registry.activate_opened_view(&identity("a", "two"), second), Ok(()));
    assert!(registry.view_may_publish(&identity("a", "two")));
    assert!(!registry.view_may_publish(&identity("a", "one")));
    registry.close_account_view("a");
    assert!(!registry.view_may_publish(&identity("a", "two")));
}

#[test]
fn windows_of_items() {
    let items: Vec<RoomTimelineItem> = (0..5).map(|i| item(&format!("${i}"))).collect();
    assert_eq!(ids(&latest_items(&items, 2)), vec!["$3", "$4"]);
    assert_eq!(latest_items(&items, 9).len(), 5);
    let fresh = unseen_items(
        (0..5).map(|i| item(&format!("${i}"))).collect(),
        &[String::from("$1"), String::from("$3")],
    );
    assert_eq!(ids(&fresh), vec!["$0", "$2", "$4"]);
    let (window, at_start) = live_timeline_window(&items, false, 3, true);
    assert_eq!(ids(&window), vec!["$2", "$3", "$4"]);
    assert!(!at_start);
    let (window, at_start) = live_timeline_window(&items, true, 3, true);
    assert_eq!(window.len(), 5);
    assert!(at_start);
    assert!(restore_pagination_continues(2, 3, false, 0));
    assert!(!restore_pagination_continues(3, 3, false, 0));
    assert!(!restore_pagination_continues(2, 3, true, 0));
    assert!(!restore_pagination_continues(2, 3, false, TIMELINE_RESTORE_PAGINATION_ATTEMPTS));
}
