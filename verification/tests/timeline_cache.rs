use hyperion::paging::timeline_page_token;
use hyperion::timeline::RoomTimelineItem;
use hyperion::discovery::{RoomThreadSummary, SpaceSummary};
use hyperion::timeline_cache::{
    cached_spaces_by_name, cached_threads_newest_first, cached_timeline_from_rows,
    merge_cached_room_timeline_refresh, prepend_cached_room_timeline_items, remembered_count_after,
    restored_timeline_limit, CachedRoomTimeline,
};

fn cached_item(event_id: &str) -> RoomTimelineItem {
    RoomTimelineItem::text_message(
        String::from(event_id),
        String::from("@alice:example.org"),
        None,
        String::from("Body"),
        1,
        false,
        false,
    )
}

#[test]
fn restored_timeline_limit_uses_remembered_count_with_startup_cap() {
    assert_eq!(restored_timeline_limit(30, Some(200), 1_000), 200);
    assert_eq!(restored_timeline_limit(30, None, 1_000), 30);
    assert_eq!(restored_timeline_limit(30, Some(2_000), 1_000), 1_000);
    assert_eq!(restored_timeline_limit(30, Some(12), 1_000), 30);
}

#[test]
fn restored_timeline_limit_saturates_at_u16() {
    assert_eq!(restored_timeline_limit(30, Some(100_000), 200_000), u16::MAX);
}

#[test]
fn cached_room_timeline_merges_older_items() {
    let newer_items = vec![cached_item("$2"), cached_item("$3")];
    let older_items = vec![cached_item("$1"), cached_item("$2")];
    let token_one = timeline_page_token(1);
    let token_two = timeline_page_token(2);
    let cached =
        merge_cached_room_timeline_refresh(None, &newer_items, Some(token_one.as_str()), &[]);
    let cached =
        prepend_cached_room_timeline_items(Some(cached), &older_items, Some(token_two.as_str()));
    let ids: Vec<&str> = cached.items.iter().map(|item| item.event_id.as_str()).collect();
    assert_eq!(ids, vec!["$1", "$2", "$3"]);
    assert_eq!(cached.next_before, Some(timeline_page_token(2)));
}

#[test]
fn refreshed_room_timeline_updates_and_redacts_cached_items() {
    let cached_items = vec![cached_item("$1"), cached_item("$2"), cached_item("$3")];
    let mut edited_item = cached_item("$2");
    edited_item.body = String::from("Edited body");
    edited_item.is_edited = Some(true);
    let refreshed_items = vec![edited_item, cached_item("$4")];
    let token_four = timeline_page_token(4);
    let token_one = timeline_page_token(1);
    let cached =
        merge_cached_room_timeline_refresh(None, &cached_items, Some(token_four.as_str()), &[]);
    let cached = merge_cached_room_timeline_refresh(
        Some(cached),
        &refreshed_items,
        Some(token_one.as_str()),
        &[String::from("$3")],
    );
    let rows: Vec<(&str, &str, Option<bool>)> = cached
        .items
        .iter()
        .map(|item| (item.event_id.as_str(), item.body.as_str(), item.is_edited))
        .collect();
    assert_eq!(
        rows,
        vec![
            ("$1", "Body", Some(false)),
            ("$2", "Edited body", Some(true)),
            ("$4", "Body", Some(false)),
        ]
    );
    assert_eq!(cached.next_before, Some(timeline_page_token(4)));
}

#[test]
fn prepending_without_a_cache_keeps_the_page() {
    let page = vec![cached_item("$1"), cached_item("$1")];
    let cached = prepend_cached_room_timeline_items(None, &page, None);
    assert_eq!(cached.items.len(), 2);
    assert!(cached.next_before.is_none());
    let existing = CachedRoomTimeline { items: vec![cached_item("$2")], next_before: None };
    let merged = prepend_cached_room_timeline_items(Some(existing), &page, Some("t"));
    let ids: Vec<&str> = merged.items.iter().map(|item| item.event_id.as_str()).collect();
    assert_eq!(ids, vec!["$1", "$2"]);
    assert_eq!(merged.next_before.as_deref(), Some("t"));
}

fn test_room_summary(room_id: &str, last_activity_unix_ms: u64) -> RoomThreadSummary {
    RoomThreadSummary {
        room_id: room_id.to_owned(),
        title: String::from("Room"),
        preview: String::from("Preview"),
        participant_label: String::from("Alice"),
        last_activity_unix_ms,
        last_activity_label: String::from("Now"),
        message_count: 10,
        unread_count: 1,
        homeserver_label: String::from("example.org"),
        avatar_label: Some(String::from("R")),
        is_direct: false,
    }
}

#[test]
fn timeline_view_state_keeps_largest_visible_count() {
    let stored = remembered_count_after(None, 200);
    let stored = remembered_count_after(Some(stored), 60);
    assert_eq!(stored, 200);
    assert_eq!(remembered_count_after(Some(stored), 250), 250);
}

#[test]
fn cached_room_threads_round_trip() {
    let summaries = vec![
        test_room_summary("!old:example.org", 1_000),
        test_room_summary("!new:example.org", 2_000),
    ];
    let cached = cached_threads_newest_first(summaries);
    assert_eq!(cached.len(), 2);
    assert_eq!(cached[0].room_id, "!new:example.org");
    assert_eq!(cached[1].room_id, "!old:example.org");
}

fn space(name: &str) -> SpaceSummary {
    SpaceSummary {
        space_id: format!("!{name}:x"),
        name: String::from(name),
        description: String::new(),
        member_label: String::new(),
        activity_label: String::new(),
        accent_label: None,
        is_official: None,
    }
}

#[test]
fn cached_spaces_come_back_in_name_order() {
    let cached = cached_spaces_by_name(vec![space("rust"), space("Go"), space("matrix")]);
    let names: Vec<&str> = cached.iter().map(|s| s.name.as_str()).collect();
    assert_eq!(names, vec!["Go", "matrix", "rust"]);
}

#[test]
fn cached_timelines_need_a_state_and_items() {
    assert!(cached_timeline_from_rows(None, vec![cached_item("$a")]).is_none());
    assert!(cached_timeline_from_rows(Some(Some(String::from("t"))), Vec::new()).is_none());
    let cached = cached_timeline_from_rows(Some(None), vec![cached_item("$a"), cached_item("$b")]).unwrap();
    assert_eq!(cached.items.len(), 2);
    assert_eq!(cached.next_before, None);
}
