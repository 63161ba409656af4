use hyperion::room_state::{
    cached_list_while_empty, outgoing_message_body, room_threads_matching, serve_cached_room_threads,
    serve_cached_spaces, spaces_matching,
    recent_timeline_warmup_rooms, RECENT_TIMELINE_WARM_ROOM_COUNT,
    homeserver_label, room_thread_summary, room_title, space_summary, local_room_state_key, message_preview, pagination_error,
    participant_label, read_anchor_event_id, space_activity_label, space_matches_homeserver,
    unread_count_after_local_count, unread_count_step, unread_message_count, LatestMessageReport,
    LocallyReadRooms, UnreadCountStep,
};

fn s(v: &str) -> Option<String> {
    Some(String::from(v))
}

#[test]
fn local_read_marks_round_trip() {
    assert_eq!(local_room_state_key("a", "!r"), "a::!r");
    let mut rooms = LocallyReadRooms::new();
    assert_eq!(rooms.read_event("a", "!r"), None);
    rooms.mark_room_read_locally("a", "!r", "$1");
    rooms.mark_room_read_locally("a", "!r", "$2");
    rooms.mark_room_read_locally("b", "!r", "$9");
    assert_eq!(rooms.read_event("a", "!r"), s("$2"));
    assert_eq!(rooms.read_event("b", "!r"), s("$9"));
}

#[test]
fn read_anchor_prefers_the_latest_event() {
    assert_eq!(read_anchor_event_id(s("$l"), s("$p"), &s("$p")), s("$p"));
    assert_eq!(read_anchor_event_id(s("$l"), s("$p"), &s("$l")), s("$l"));
    assert_eq!(read_anchor_event_id(s("$l"), s("$p"), &s("$x")), s("$p"));
    assert_eq!(read_anchor_event_id(s("$l"), None, &None), s("$l"));
}

#[test]
fn unread_counts() {
    assert!(matches!(unread_count_step(true, s("$a"), s("$b")), UnreadCountStep::Known { count: 0 }));
    assert!(matches!(unread_count_step(false, None, s("$b")), UnreadCountStep::UseSdkCount));
    assert!(matches!(unread_count_step(false, s("$a"), None), UnreadCountStep::Known { count: 0 }));
    assert!(matches!(unread_count_step(false, s("$a"), s("$a")), UnreadCountStep::Known { count: 0 }));
    match unread_count_step(false, s("$a"), s("$b")) {
        UnreadCountStep::CountSince { anchor_event_id } => assert_eq!(anchor_event_id, "$a"),
        _ => panic!("expected a local count"),
    }
    assert_eq!(unread_count_after_local_count(Some(0), 9), 1);
    assert_eq!(unread_count_after_local_count(Some(4), 9), 4);
    assert_eq!(unread_count_after_local_count(None, 9), 9);
    assert_eq!(unread_message_count(3, 5, true), 3);
    assert_eq!(unread_message_count(0, 5, true), 5);
    assert_eq!(unread_message_count(0, 0, true), 1);
    assert_eq!(unread_message_count(0, 0, false), 0);
}

#[test]
fn room_labels() {
    assert_eq!(participant_label(true, 2), "Direct chat");
    assert_eq!(participant_label(false, 12), "12 members");
    assert_eq!(homeserver_label(Some("example.org"), "https://other.org"), "example.org");
    assert_eq!(homeserver_label(None, "https://matrix.example.org/"), "matrix.example.org");
    assert_eq!(homeserver_label(None, "http://local:8008"), "local:8008");
    assert!(space_matches_homeserver(Some("example.org"), "https://matrix.example.org"));
    assert!(!space_matches_homeserver(None, "https://example.org"));
    assert_eq!(space_activity_label(0, 10), "No recent activity");
    assert_eq!(space_activity_label(10, 10 + 120_000), "2 minutes ago");
    assert_eq!(message_preview(LatestMessageReport::Emote { body: String::from("waves") }), s("waves"));
    assert_eq!(message_preview(LatestMessageReport::Other), None);
    assert_eq!(
        pagination_error(true, "429"),
        "Older messages are temporarily rate limited. Please wait and try again."
    );
    assert_eq!(pagination_error(false, "boom"), "Could not load older messages: boom");
}

#[test]
fn the_most_recent_rooms_are_warmed_up() {
    let candidates: Vec<(String, u64)> = (0..9u64).map(|i| (format!("!r{i}"), i % 4)).collect();
    let rooms = recent_timeline_warmup_rooms(&candidates);
    assert_eq!(rooms.len(), RECENT_TIMELINE_WARM_ROOM_COUNT);
    assert_eq!(rooms, vec!["!r3", "!r7", "!r2", "!r6", "!r1", "!r5"]);
    assert!(recent_timeline_warmup_rooms(&[]).is_empty());
}

fn summary(id: &str, title: &str, participants: &str) -> hyperion::discovery::RoomThreadSummary {
    hyperion::discovery::RoomThreadSummary {
        room_id: String::from(id),
        title: String::from(title),
        preview: String::new(),
        participant_label: String::from(participants),
        last_activity_unix_ms: 0,
        last_activity_label: String::new(),
        message_count: 0,
        unread_count: 0,
        homeserver_label: String::new(),
        avatar_label: None,
        is_direct: false,
    }
}

#[test]
fn room_and_space_lists_follow_the_query() {
    let rooms = vec![summary("!a", "Lobby", "3 members"), summary("!b", "Dev", "Alice")];
    let shown = room_threads_matching(rooms, Some("alice"));
    assert_eq!(shown.len(), 1);
    assert_eq!(shown[0].room_id, "!b");
    let all = room_threads_matching(vec![summary("!a", "Lobby", "")], None);
    assert_eq!(all.len(), 1);
    let spaces = vec![
        hyperion::discovery::SpaceSummary {
            space_id: String::from("!s"),
            name: String::from("Rust"),
            description: String::from("Systems"),
            member_label: String::new(),
            activity_label: String::new(),
            accent_label: None,
            is_official: None,
        },
        hyperion::discovery::SpaceSummary {
            space_id: String::from("!t"),
            name: String::from("Go"),
            description: String::new(),
            member_label: String::new(),
            activity_label: String::new(),
            accent_label: None,
            is_official: None,
        },
    ];
    let shown = spaces_matching(spaces, Some("systems"));
    assert_eq!(shown.len(), 1);
    assert_eq!(shown[0].space_id, "!s");
}

#[test]
fn cached_lists_are_served_once() {
    let mut state = hyperion::cache_state::ShellCacheState::new();
    assert!(serve_cached_room_threads(&mut state, "a", None).is_none());
    let first = serve_cached_room_threads(&mut state, "a", Some(vec![summary("!a", "Lobby", "")]));
    assert_eq!(first.map(|r| r.len()), Some(1));
    assert!(serve_cached_room_threads(&mut state, "a", Some(vec![summary("!a", "Lobby", "")])).is_none());
    assert!(state.room_thread_cache_was_served("a"));
    assert!(serve_cached_spaces(&mut state, "a", Some(Vec::new())).is_some());
    assert!(serve_cached_spaces(&mut state, "a", Some(Vec::new())).is_none());
    assert_eq!(cached_list_while_empty(true, None, Some(vec![1])), Some(vec![1]));
    assert_eq!(cached_list_while_empty(true, Some(""), Some(vec![1])), Some(vec![1]));
    assert_eq!(cached_list_while_empty(true, Some("x"), Some(vec![1])), None);
    assert_eq!(cached_list_while_empty(false, None, Some(vec![1])), None);
    assert_eq!(cached_list_while_empty::<u8>(true, None, Some(Vec::new())), None);
}

#[test]
fn blank_messages_are_not_sent() {
    assert_eq!(outgoing_message_body("  hi  "), Ok(String::from("hi")));
    assert_eq!(
        outgoing_message_body(" \n "),
        Err(String::from("Message body must not be empty"))
    );
}

#[test]
fn room_titles_prefer_the_explicit_name() {
    assert_eq!(
        room_title(Some("  Lobby  "), Some("Alice and Bob"), None, Some("#lobby:x"), "!r:x"),
        "Lobby"
    );
    assert_eq!(room_title(Some("   "), Some(" Alice "), None, None, "!r:x"), " Alice ");
    assert_eq!(room_title(None, Some(""), Some("Computed"), None, "!r:x"), "Computed");
    assert_eq!(room_title(None, None, Some("  "), Some("#lobby:x"), "!r:x"), "#lobby:x");
    assert_eq!(room_title(None, None, None, None, "!r:x"), "!r:x");
}

#[test]
fn room_summaries_are_assembled_from_room_details() {
    let summary = room_thread_summary(
        String::from("!r:example.org"),
        String::from("lobby"),
        false,
        12,
        None,
        Some(String::from("Say hello")),
        0,
        1_000,
        40,
        3,
        None,
        "https://matrix.example.org/",
    );
    assert_eq!(summary.room_id, "!r:example.org");
    assert_eq!(summary.preview, "Say hello");
    assert_eq!(summary.participant_label, "12 members");
    assert_eq!(summary.last_activity_label, "No recent activity");
    assert_eq!(summary.homeserver_label, "matrix.example.org");
    assert_eq!(summary.avatar_label, Some(String::from("L")));
    assert_eq!(summary.message_count, 40);
    assert_eq!(summary.unread_count, 3);

    let direct = room_thread_summary(
        String::from("!d:x"),
        String::new(),
        true,
        2,
        Some(String::from("hi")),
        Some(String::from("topic")),
        0,
        0,
        0,
        0,
        Some("x"),
        "https://x",
    );
    assert_eq!(direct.preview, "hi");
    assert_eq!(direct.participant_label, "Direct chat");
    assert_eq!(direct.homeserver_label, "x");
    assert_eq!(direct.avatar_label, None);
}

#[test]
fn space_summaries_are_assembled_from_space_details() {
    let summary = space_summary(
        String::from("!s:example.org"),
        String::from("rust"),
        None,
        7,
        0,
        5_000,
        Some("example.org"),
        "https://example.org",
    );
    assert_eq!(summary.description, "");
    assert_eq!(summary.member_label, "7 members");
    assert_eq!(summary.activity_label, "No recent activity");
    assert_eq!(summary.accent_label, Some(String::from("R")));
    assert_eq!(summary.is_official, Some(true));
    let other = space_summary(String::from("!t:y"), String::from("Go"), Some(String::from("About")), 1, 0, 0, Some("y.org"), "https://example.org");
    assert_eq!(other.description, "About");
    assert_eq!(other.is_official, Some(false));
}

#[test]
fn formatted_error_text_cannot_classify_a_rate_limit() {
    let message = pagination_error(false, "429 M_LIMIT_EXCEEDED rate limit");
    assert!(message.starts_with("Could not load older messages:"));
}
