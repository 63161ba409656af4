use hyperion::discovery::{RoomThreadSummary, SpaceSummary};
use hyperion::search::{
    body_matches_user_query, fields_match_user_query, first_visible_grapheme,
    fts_query_for_user_query, global_search_query, global_search_room_hit, global_search_room_hits,
    global_search_space_hit, global_search_space_hits,
    matches_query, message_document, message_document_id, message_search_hit,
    message_search_plan, new_backfill_progress, normalize_query, normalized_query_text,
    normalized_terms, push_message_hits, relative_time_label, retry_delay_for_backfill_state,
    room_document, room_document_id, scan_items_for_query, search_hit_matches_query,
    search_limit_per_group, server_backed_search_hit, space_document, space_document_id,
    state_for_backfill_error, task_key, GlobalSearchMessageHit, SearchBackfillState,
    SearchEntityType,
};
use hyperion::timeline::RoomTimelineItem;

fn item(event_id: &str, body: &str) -> RoomTimelineItem {
    RoomTimelineItem::text_message(
        String::from(event_id),
        String::from("@bob:example.org"),
        Some(String::from("Bob")),
        String::from(body),
        7,
        false,
        false,
    )
}

fn hit(id: &str) -> GlobalSearchMessageHit {
    GlobalSearchMessageHit {
        result_id: String::from(id),
        room_id: String::from("!r"),
        title: String::from("t"),
        description: String::from("d"),
        event_id: None,
    }
}

#[test]
fn queries_are_normalized() {
    assert_eq!(normalize_query(Some("  Hello World ")), Some(String::from("hello world")));
    assert_eq!(normalize_query(Some("   ")), None);
    assert_eq!(normalize_query(None), None);
    assert_eq!(global_search_query("  MiXed "), Some(String::from("mixed")));
    assert_eq!(global_search_query(" "), None);
    assert!(matches_query(None, &["anything"]));
    assert!(matches_query(Some("lo w"), &["x", "Hello World"]));
    assert!(!matches_query(Some("zzz"), &["x", "Hello World"]));
    assert_eq!(first_visible_grapheme("  ßeta"), Some(String::from("SS")));
    assert_eq!(first_visible_grapheme("   "), None);
    assert_eq!(search_limit_per_group(None), 5);
    assert_eq!(search_limit_per_group(Some(9)), 9);
}

#[test]
fn user_queries_become_terms() {
    assert_eq!(normalized_terms("Hello, wörld! 42x"), vec!["hello", "wörld", "42x"]);
    assert!(normalized_terms(" -- ").is_empty());
    assert_eq!(
        fts_query_for_user_query("Foo bar"),
        Some(String::from("foo* AND bar*"))
    );
    assert_eq!(fts_query_for_user_query("!!"), None);
    assert_eq!(normalized_query_text("Foo,  Bar"), "foo bar");
    assert!(fields_match_user_query(&["Project Alpha", "team"], "alp tea"));
    assert!(!fields_match_user_query(&["Project Alpha"], "beta"));
    assert!(!fields_match_user_query(&["Project"], "  "));
    assert!(body_matches_user_query("see you tomorrow", "tom"));
    assert!(!body_matches_user_query("see you tomorrow", "row"));
    assert!(search_hit_matches_query(
        SearchEntityType::Room,
        "Lobby",
        "3 members",
        Some("!abc"),
        "",
        "abc"
    ));
    assert!(search_hit_matches_query(SearchEntityType::Space, "", "", None, "", "anything"));
    assert!(!search_hit_matches_query(SearchEntityType::Message, "", "", None, "hello", "bye"));
}

#[test]
fn relative_time_labels() {
    let now = 1_000_000_000;
    assert_eq!(relative_time_label(0, now), "No recent activity");
    assert_eq!(relative_time_label(now - 30_000, now), "Just now");
    assert_eq!(relative_time_label(now - 60_000, now), "1 minute ago");
    assert_eq!(relative_time_label(now - 5 * 60_000, now), "5 minutes ago");
    assert_eq!(relative_time_label(now - 3_600_000, now), "1 hour ago");
    assert_eq!(relative_time_label(now - 3 * 3_600_000, now), "3 hours ago");
    assert_eq!(relative_time_label(now - 86_400_000, now), "Yesterday");
    assert_eq!(relative_time_label(now - 3 * 86_400_000, now), "3 days ago");
    assert_eq!(relative_time_label(now + 5, now), "Just now");
}

#[test]
fn index_documents_and_ids() {
    assert_eq!(room_document_id("a", "!r"), "room::a::!r");
    assert_eq!(space_document_id("a", "!s"), "space::a::!s");
    assert_eq!(message_document_id("a", "!r", "$e"), "message::a::!r::$e");
    let summary = RoomThreadSummary {
        room_id: String::from("!r"),
        title: String::from("Lobby"),
        preview: String::from("hi"),
        participant_label: String::from("3 members"),
        last_activity_unix_ms: 9,
        last_activity_label: String::new(),
        message_count: 0,
        unread_count: 0,
        homeserver_label: String::from("example.org"),
        avatar_label: None,
        is_direct: false,
    };
    let room = room_document("a", &summary, 100);
    assert_eq!(room.body, "3 members example.org !r");
    assert_eq!(room.timestamp_unix_ms, 9);
    assert_eq!(room.updated_at_unix_ms, 100);
    let space = space_document(
        "a",
        &SpaceSummary {
            space_id: String::from("!s"),
            name: String::from("Space"),
            description: String::from("About"),
            member_label: String::from("2 members"),
            activity_label: String::new(),
            accent_label: None,
            is_official: None,
        },
        100,
    );
    assert_eq!(space.body, "About 2 members !s");
    assert_eq!(space.sort_timestamp_unix_ms, 100);
    let message = message_document("a", "!r", "Lobby", &item("$e", "hello"), 100).unwrap();
    assert_eq!(message.title, "Message in Lobby");
    assert_eq!(message.subtitle, "Bob");
    assert!(message_document("a", "!r", "Lobby", &item("$e", "  "), 100).is_none());
    assert!(message_document(
        "a",
        "!r",
        "Lobby",
        &item("$e", "Unable to decrypt this message"),
        100
    )
    .is_none());
    assert_eq!(SearchEntityType::from_str("space"), Some(SearchEntityType::Space));
    assert_eq!(SearchEntityType::Message.as_str(), "message");
    assert_eq!(SearchEntityType::from_str("user"), None);
}

#[test]
fn backfill_states() {
    assert_eq!(SearchBackfillState::PausedNetwork.as_str(), "paused_network");
    assert_eq!(
        SearchBackfillState::from_str("rate_limited"),
        Some(SearchBackfillState::RateLimited)
    );
    assert_eq!(SearchBackfillState::from_str("nope"), None);
    assert_eq!(state_for_backfill_error("HTTP 429"), SearchBackfillState::RateLimited);
    assert_eq!(
        state_for_backfill_error("M_LIMIT_EXCEEDED: slow down"),
        SearchBackfillState::RateLimited
    );
    assert_eq!(state_for_backfill_error("boom"), SearchBackfillState::Error);
    assert_eq!(retry_delay_for_backfill_state(SearchBackfillState::RateLimited), Some(60));
    assert_eq!(retry_delay_for_backfill_state(SearchBackfillState::Error), None);
    assert_eq!(task_key("a", "!r"), "a::!r");
    let progress = new_backfill_progress("a", "!r");
    assert_eq!(progress.room_kind, "conversation");
    assert_eq!(progress.backfill_state, SearchBackfillState::Queued);
}

#[test]
fn message_hits_are_deduped_and_capped() {
    let mut target = vec![hit("x")];
    let mut seen = vec![String::from("x")];
    push_message_hits(&mut target, &mut seen, vec![hit("x"), hit("y"), hit("z"), hit("w")], 3);
    let ids: Vec<&str> = target.iter().map(|h| h.result_id.as_str()).collect();
    assert_eq!(ids, vec!["x", "y", "z"]);
    let recent = message_search_hit("!r", "Lobby", item("$e", "hello"));
    assert_eq!(recent.result_id, "!r::$e");
    assert_eq!(recent.title, "Recent message in Lobby");
    let titles = vec![(String::from("!r"), String::from("Lobby"))];
    let server = server_backed_search_hit(
        String::from("$e"),
        String::from("!r"),
        String::from("Hello There"),
        &titles,
        "there",
    )
    .unwrap();
    assert_eq!(server.title, "Message in Lobby");
    assert!(server_backed_search_hit(
        String::from("$e"),
        String::from("!q"),
        String::from("Hello"),
        &titles,
        "bye"
    )
    .is_none());
}

#[test]
fn global_search_plans_and_scans() {
    let small = message_search_plan(&[true, false]);
    assert!(!small.server_backed);
    assert_eq!(small.local_rooms, vec![0, 1]);
    let mut flags = vec![false; 20];
    flags[3] = true;
    let large = message_search_plan(&flags);
    assert!(large.server_backed);
    assert_eq!(large.local_rooms, vec![3]);
    assert_eq!(large.fallback_rooms.len(), 19);

    let mut hits = Vec::new();
    let mut seen = Vec::new();
    let reached = scan_items_for_query(
        &mut hits,
        &mut seen,
        vec![item("$1", "Hello"), item("$1", "hello"), item("$2", "nope"), item("$3", "HELLO")],
        "hello",
        5,
    );
    assert!(!reached);
    let ids: Vec<&str> = hits.iter().map(|i| i.event_id.as_str()).collect();
    assert_eq!(ids, vec!["$1", "$3"]);

    let room = RoomThreadSummary {
        room_id: String::from("!r"),
        title: String::from("Lobby"),
        preview: String::from("Welcome"),
        participant_label: String::new(),
        last_activity_unix_ms: 0,
        last_activity_label: String::new(),
        message_count: 0,
        unread_count: 0,
        homeserver_label: String::new(),
        avatar_label: None,
        is_direct: false,
    };
    assert!(global_search_room_hit(&room, "welc").is_some());
    assert!(global_search_room_hit(&room, "zz").is_none());
    let space = SpaceSummary {
        space_id: String::from("!s"),
        name: String::from("Team"),
        description: String::from("Work"),
        member_label: String::new(),
        activity_label: String::new(),
        accent_label: None,
        is_official: None,
    };
    assert_eq!(global_search_space_hit(space, "wor").map(|h| h.title), Some(String::from("Team")));
}

fn space(id: &str, name: &str) -> SpaceSummary {
    SpaceSummary {
        space_id: String::from(id),
        name: String::from(name),
        description: String::new(),
        member_label: String::new(),
        activity_label: String::new(),
        accent_label: None,
        is_official: None,
    }
}

fn room(id: &str, title: &str, preview: &str) -> RoomThreadSummary {
    RoomThreadSummary {
        room_id: String::from(id),
        title: String::from(title),
        preview: String::from(preview),
        participant_label: String::new(),
        last_activity_unix_ms: 0,
        last_activity_label: String::new(),
        message_count: 0,
        unread_count: 0,
        homeserver_label: String::new(),
        avatar_label: None,
        is_direct: false,
    }
}

#[test]
fn global_search_groups_keep_first_matches_up_to_limit() {
    let spaces = vec![
        space("!1", "Rust Lovers"),
        space("!2", "Gardening"),
        space("!3", "rusty tools"),
        space("!4", "Trust"),
    ];
    let hits = global_search_space_hits(spaces, "rust", 2);
    let ids: Vec<&str> = hits.iter().map(|h| h.space_id.as_str()).collect();
    assert_eq!(ids, vec!["!1", "!3"]);
    let rooms = vec![
        room("!a", "Lobby", "say HELLO"),
        room("!b", "Hello world", ""),
        room("!c", "Other", "nothing"),
    ];
    let hits = global_search_room_hits(&rooms, "hello", 5);
    let ids: Vec<&str> = hits.iter().map(|h| h.room_id.as_str()).collect();
    assert_eq!(ids, vec!["!a", "!b"]);
    assert_eq!(hits[0].description, "say HELLO");
    assert!(global_search_room_hits(&rooms, "hello", 0).is_empty());
}
