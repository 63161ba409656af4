use hyperion::discovery::{RoomThreadSummary, SpaceSummary};
use hyperion::message_search::{
    global_search_response, MessageSearch, MessageSearchAction, RoomMessageSearch, RoomSearchAction,
    MESSAGE_SEARCH_SCAN_LIMIT,
};
use hyperion::search::GlobalSearchMessageHit;
use hyperion::timeline::RoomTimelineItem;

fn hit(id: &str) -> GlobalSearchMessageHit {
    GlobalSearchMessageHit {
        result_id: String::from(id),
        room_id: String::from("!r"),
        title: String::from("t"),
        description: String::from("d"),
        event_id: None,
    }
}

fn item(event_id: &str, body: &str) -> RoomTimelineItem {
    RoomTimelineItem::text_message(
        String::from(event_id),
        String::from("@bob:example.org"),
        None,
        String::from(body),
        1,
        false,
        false,
    )
}

fn space(id: &str, name: &str) -> SpaceSummary {
    SpaceSummary {
        space_id: String::from(id),
        name: String::from(name),
        description: String::new(),
        member_label: String::new(),
        activity_label: String::new(),
        accent_label: None,
        is_official: None,
    }
}

fn room(id: &str, title: &str, preview: &str) -> RoomThreadSummary {
    RoomThreadSummary {
        room_id: String::from(id),
        title: String::from(title),
        preview: String::from(preview),
        participant_label: String::new(),
        last_activity_unix_ms: 0,
        last_activity_label: String::new(),
        message_count: 0,
        unread_count: 0,
        homeserver_label: String::new(),
        avatar_label: None,
        is_direct: false,
    }
}

#[test]
fn small_accounts_search_every_room_with_what_is_missing() {
    let mut search = MessageSearch::start(&[true, false, true], 3);
    assert_eq!(search.next_action(), MessageSearchAction::SearchRoom { room: 0, limit: 3 });
    search.record_hits(vec![hit("a"), hit("a"), hit("b")]);
    assert_eq!(search.next_action(), MessageSearchAction::SearchRoom { room: 1, limit: 1 });
    search.record_hits(vec![hit("b"), hit("c"), hit("d")]);
    assert_eq!(search.next_action(), MessageSearchAction::Finished);
    let ids: Vec<&str> = search.messages.iter().map(|h| h.result_id.as_str()).collect();
    assert_eq!(ids, vec!["a", "b", "c"]);
}

#[test]
fn large_accounts_ask_the_server_then_encrypted_then_unencrypted_rooms() {
    let mut flags = vec![false; 20];
    flags[3] = true;
    let mut search = MessageSearch::start(&flags, 4);
    assert_eq!(search.next_action(), MessageSearchAction::SearchServer { limit: 4 });
    search.record_hits(vec![hit("s1")]);
    assert_eq!(search.next_action(), MessageSearchAction::SearchRoom { room: 3, limit: 3 });
    search.record_hits(Vec::new());
    assert_eq!(search.next_action(), MessageSearchAction::SearchRoom { room: 0, limit: 3 });
    search.record_hits(vec![hit("x"), hit("y"), hit("z"), hit("w")]);
    assert_eq!(search.next_action(), MessageSearchAction::Finished);
    assert_eq!(search.messages.len(), 4);
}

#[test]
fn a_room_reads_its_index_then_its_history_capped_at_five() {
    let mut room_search =
        RoomMessageSearch::new(String::from("!r"), String::from("Lobby"), String::from("hello"), 10);
    assert!(matches!(room_search.next_action(), RoomSearchAction::SearchIndex { limit: 10 }));
    room_search.record_index_items(vec![item("$a", "Hello there"), item("$b", "nope"), item("$a", "hello again")]);
    assert!(matches!(room_search.next_action(), RoomSearchAction::LoadCachedItems));
    room_search.record_cached_items(vec![item("$c", "hello 1"), item("$d", "hello 2")]);
    match room_search.next_action() {
        RoomSearchAction::FetchPage { limit, before } => {
            assert_eq!(limit, MESSAGE_SEARCH_SCAN_LIMIT);
            assert_eq!(before, None);
        }
        _ => panic!("a page"),
    }
    room_search.record_page(
        vec![item("$e", "hello 3"), item("$f", "hello 4"), item("$g", "hello 5"), item("$h", "hello 6")],
        Some(String::from("older")),
    );
    assert!(matches!(room_search.next_action(), RoomSearchAction::Finished));
    let hits = room_search.hits();
    let ids: Vec<&str> = hits.iter().map(|h| h.result_id.as_str()).collect();
    assert_eq!(ids, vec!["!r::$a", "!r::$c", "!r::$d", "!r::$e", "!r::$f", "!r::$g"]);
    assert_eq!(hits[0].title, "Recent message in Lobby");
}

#[test]
fn a_room_stops_after_two_pages_or_at_its_start() {
    let mut room_search =
        RoomMessageSearch::new(String::from("!r"), String::from("Lobby"), String::from("hi"), 2);
    room_search.record_index_items(Vec::new());
    room_search.record_cached_items(Vec::new());
    room_search.record_page(vec![item("$a", "hi")], Some(String::from("t1")));
    match room_search.next_action() {
        RoomSearchAction::FetchPage { before, .. } => assert_eq!(before, Some(String::from("t1"))),
        _ => panic!("a second page"),
    }
    room_search.record_page(Vec::new(), Some(String::from("t2")));
    assert!(matches!(room_search.next_action(), RoomSearchAction::Finished));
    assert_eq!(room_search.hits().len(), 1);

    let mut at_start =
        RoomMessageSearch::new(String::from("!r"), String::from("Lobby"), String::from("hi"), 2);
    at_start.record_index_items(Vec::new());
    at_start.record_cached_items(Vec::new());
    at_start.record_page(Vec::new(), None);
    assert!(matches!(at_start.next_action(), RoomSearchAction::Finished));
}

#[test]
fn global_search_response_groups_matches_for_the_query() {
    let rooms = vec![room("!r1", "Rust", ""), room("!r2", "Go", "rust talk"), room("!r3", "Zig", "")];
    let mut search = MessageSearch::start(&[false], 1);
    assert_eq!(search.next_action(), MessageSearchAction::SearchRoom { room: 0, limit: 1 });
    search.record_hits(vec![hit("m1"), hit("m2")]);
    assert_eq!(search.next_action(), MessageSearchAction::Finished);
    let response = global_search_response(
        "  RUST ",
        true,
        Some(1),
        vec![space("!s1", "Rustaceans"), space("!s2", "Gophers")],
        &rooms,
        search,
    );
    assert_eq!(response.rooms.len(), 1);
    assert_eq!(response.rooms[0].room_id, "!r1");
    assert_eq!(response.spaces.len(), 1);
    assert_eq!(response.spaces[0].space_id, "!s1");
    assert_eq!(response.messages.len(), 1);

    let blank = global_search_response("   ", true, None, Vec::new(), &rooms, MessageSearch::start(&[], 5));
    assert!(blank.rooms.is_empty() && blank.spaces.is_empty() && blank.messages.is_empty());
    let signed_out =
        global_search_response("rust", false, None, Vec::new(), &rooms, MessageSearch::start(&[], 5));
    assert!(signed_out.rooms.is_empty());
}
