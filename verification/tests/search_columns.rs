use hyperion::discovery::RoomThreadSummary;
use hyperion::search::{fts_body, fts_room_id, fts_subtitle, fts_title, message_document, room_document};
use hyperion::timeline::RoomTimelineItem;

#[test]
fn indexed_columns_follow_the_entity_type() {
    let summary = RoomThreadSummary {
        room_id: String::from("!r"),
        title: String::from("Lobby"),
        preview: String::from("hi"),
        participant_label: String::from("3 members"),
        last_activity_unix_ms: 9,
        last_activity_label: String::new(),
        message_count: 0,
        unread_count: 0,
        homeserver_label: String::from("example.org"),
        avatar_label: None,
        is_direct: false,
    };
    let room = room_document("a", &summary, 100);
    assert_eq!(fts_title(&room), "Lobby");
    assert_eq!(fts_subtitle(&room), "3 members");
    assert_eq!(fts_body(&room), "");
    assert_eq!(fts_room_id(&room), "!r");

    let item = RoomTimelineItem::text_message(
        String::from("$e"),
        String::from("@bob:example.org"),
        Some(String::from("Bob")),
        String::from("hello there"),
        7,
        false,
        false,
    );
    let message = message_document("a", "!r", "Lobby", &item, 100).unwrap();
    assert_eq!(fts_title(&message), "");
    assert_eq!(fts_subtitle(&message), "");
    assert_eq!(fts_body(&message), "hello there");
    assert_eq!(fts_room_id(&message), "");
}
