use hyperion::discovery::{
    most_recent_first,
    discovery_search_plan, matrixrooms_info_entities, public_directory_entities,
    public_directory_request_limit, public_directory_search_term, DiscoverySearchPlan,
    DiscoverySource, PublicRoomDescription, local_room_title, recommend_joined_room_users, recommendation_room_order, RoomMemberReport,
    bounded_discovery_limit, conversation_is_invite_candidate, dedupe_discovery_entities,
    discovery_via_servers, encode_path_segment, invite_targets_from_summaries,
    map_matrixrooms_info_entry, matrixrooms_info_search_url, DiscoveryEntity,
    DiscoveryEntityKind, MatrixRoomsInfoEntry, MatrixRoomsInfoSearchResponse, RoomThreadSummary,
    SpaceSummary,
};

#[test]
fn matrixrooms_info_mapping_marks_space_and_dedupes_joined() {
    let entry = MatrixRoomsInfoEntry {
        room_id: Some(String::from("!space:example.org")),
        id: None,
        name: Some(String::from("Example Space")),
        alias: Some(String::from("#space:example.org")),
        topic: Some(String::from("A public space")),
        avatar_url: None,
        members: Some(42),
        server: Some(String::from("example.org")),
        room_type: Some(String::from("m.space")),
    };
    let joined_rooms: Vec<String> = Vec::new();
    let joined_spaces: Vec<String> = Vec::new();

    let mapped = map_matrixrooms_info_entry(
        DiscoveryEntityKind::Space,
        entry,
        &joined_rooms,
        &joined_spaces,
    )
    .expect("space should map");

    assert_eq!(mapped.kind, "space");
    assert_eq!(mapped.title, "Example Space");
    assert_eq!(mapped.via, vec![String::from("example.org")]);
}

#[test]
fn matrixrooms_info_mapping_derives_via_from_room_id_and_alias() {
    let entry = MatrixRoomsInfoEntry {
        room_id: Some(String::from("!space:matrix.org")),
        id: None,
        name: Some(String::from("Matrix Space")),
        alias: Some(String::from("#space:example.org")),
        topic: None,
        avatar_url: None,
        members: None,
        server: None,
        room_type: Some(String::from("m.space")),
    };
    let joined_rooms: Vec<String> = Vec::new();
    let joined_spaces: Vec<String> = Vec::new();

    let mapped = map_matrixrooms_info_entry(
        DiscoveryEntityKind::Space,
        entry,
        &joined_rooms,
        &joined_spaces,
    )
    .expect("space should map");

    assert_eq!(
        mapped.via,
        vec![String::from("matrix.org"), String::from("example.org")]
    );
}

#[test]
fn joined_room_results_are_filtered() {
    let entry = MatrixRoomsInfoEntry {
        room_id: Some(String::from("!room:example.org")),
        id: None,
        name: Some(String::from("Example Room")),
        alias: None,
        topic: None,
        avatar_url: None,
        members: None,
        server: None,
        room_type: None,
    };
    let joined_rooms = vec![String::from("!room:example.org")];
    let joined_spaces: Vec<String> = Vec::new();

    let mapped = map_matrixrooms_info_entry(
        DiscoveryEntityKind::Room,
        entry,
        &joined_rooms,
        &joined_spaces,
    );

    assert!(mapped.is_none());
}

fn user(id: &str) -> DiscoveryEntity {
    DiscoveryEntity {
        id: String::from(id),
        kind: String::from("user"),
        title: String::from("One"),
        alias: Some(String::from(id)),
        description: None,
        avatar_url: None,
        member_count: None,
        join_rule: None,
        world_readable: None,
        source: String::from("homeserver"),
        already_joined: false,
        parent_space_labels: Vec::new(),
        via: Vec::new(),
    }
}

#[test]
fn user_results_are_not_deduped() {
    let results = dedupe_discovery_entities(
        vec![user("@one:example.org"), user("@one:example.org")],
        10,
    );

    assert_eq!(results.len(), 2);
}

fn room(id: &str, alias: Option<&str>) -> DiscoveryEntity {
    DiscoveryEntity {
        kind: String::from("room"),
        alias: alias.map(String::from),
        ..user(id)
    }
}

#[test]
fn rooms_are_deduped_by_alias_then_id_and_limited() {
    let results = dedupe_discovery_entities(
        vec![
            room("!a:x", Some("#a:x")),
            room("!b:x", Some("#a:x")),
            room("!c:x", None),
            room("!c:x", None),
            room("!d:x", None),
        ],
        2,
    );
    assert_eq!(results.len(), 2);
    assert_eq!(results[0].id, "!a:x");
    assert_eq!(results[1].id, "!c:x");
}

#[test]
fn invite_targets_exclude_direct_conversations() {
    let direct_conversation = RoomThreadSummary {
        room_id: String::from("!direct:example.org"),
        title: String::from("Direct"),
        preview: String::new(),
        participant_label: String::from("Direct chat"),
        last_activity_unix_ms: 0,
        last_activity_label: String::new(),
        message_count: 0,
        unread_count: 0,
        homeserver_label: String::from("example.org"),
        avatar_label: None,
        is_direct: true,
    };

    assert!(!conversation_is_invite_candidate(&direct_conversation));
}

#[test]
fn invite_targets_list_conversations_then_spaces() {
    let conversation = |id: &str, direct: bool| RoomThreadSummary {
        room_id: String::from(id),
        title: String::from("Room"),
        preview: String::new(),
        participant_label: String::from("People"),
        last_activity_unix_ms: 0,
        last_activity_label: String::new(),
        message_count: 0,
        unread_count: 0,
        homeserver_label: String::from("example.org"),
        avatar_label: None,
        is_direct: direct,
    };
    let targets = invite_targets_from_summaries(
        vec![conversation("!a:x", false), conversation("!b:x", true), conversation("!c:x", false)],
        vec![SpaceSummary {
            space_id: String::from("!s:x"),
            name: String::from("Space"),
            description: String::new(),
            member_label: String::from("3 members"),
            activity_label: String::new(),
            accent_label: None,
            is_official: None,
        }],
        &[true, true, false],
        &[true],
    );
    assert_eq!(targets.len(), 2);
    assert_eq!(targets[0].room_id, "!a:x");
    assert!(!targets[0].is_space);
    assert_eq!(targets[1].room_id, "!s:x");
    assert!(targets[1].is_space);
    assert_eq!(targets[1].description, "3 members");
}

#[test]
fn path_segment_encoding_preserves_safe_bytes() {
    assert_eq!(encode_path_segment("matrix rooms"), "matrix%20rooms");
    assert_eq!(
        encode_path_segment("server:matrix.org"),
        "server%3Amatrix.org"
    );
}

#[test]
fn search_url_defaults_queries_and_skips_users() {
    assert_eq!(
        matrixrooms_info_search_url(DiscoveryEntityKind::Room, "  ", 20, 0).as_deref(),
        Some("https://api.matrixrooms.info/search/matrix/20/0")
    );
    assert_eq!(
        matrixrooms_info_search_url(DiscoveryEntityKind::Space, "my space", 5, 10).as_deref(),
        Some("https://api.matrixrooms.info/search/my%20space/5/10")
    );
    assert!(matrixrooms_info_search_url(DiscoveryEntityKind::User, "", 5, 0).is_none());
}

#[test]
fn discovery_limit_is_bounded() {
    assert_eq!(bounded_discovery_limit(None), 20);
    assert_eq!(bounded_discovery_limit(Some(0)), 1);
    assert_eq!(bounded_discovery_limit(Some(500)), 50);
    assert_eq!(bounded_discovery_limit(Some(7)), 7);
}

#[test]
fn via_servers_are_unique_and_skip_blank() {
    assert_eq!(
        discovery_via_servers(Some(String::from(" example.org ")), "!r:example.org", Some("#a:other.org")),
        vec![String::from("example.org"), String::from("other.org")]
    );
    assert_eq!(discovery_via_servers(Some(String::from("  ")), "noserver", None), Vec::<String>::new());
}

#[test]
fn wrapped_search_answers_prefer_rooms() {
    let entry = || MatrixRoomsInfoEntry {
        room_id: Some(String::from("!r:x")),
        id: None,
        name: None,
        alias: None,
        topic: None,
        avatar_url: None,
        members: None,
        server: None,
        room_type: None,
    };
    let wrapped = MatrixRoomsInfoSearchResponse::Wrapped { rooms: vec![], results: vec![entry()] };
    assert_eq!(wrapped.into_entries().len(), 1);
    let list = MatrixRoomsInfoSearchResponse::List(vec![entry(), entry()]);
    assert_eq!(list.into_entries().len(), 2);
}

#[test]
fn recommendation_rooms_are_most_recent_first() {
    let activities: Vec<u64> = vec![5, 9, 5, 1, 9];
    assert_eq!(recommendation_room_order(&activities), vec![1, 4, 0, 2, 3]);
    let many: Vec<u64> = (0..20).collect();
    let order = recommendation_room_order(&many);
    assert_eq!(order.len(), 12);
    assert_eq!(order[0], 19);
    assert_eq!(order[11], 8);
}

#[test]
fn joined_room_members_are_recommended_once() {
    let member = |id: &str, name: Option<&str>| RoomMemberReport {
        user_id: String::from(id),
        display_name: name.map(String::from),
        avatar_url: None,
    };
    let members = vec![
        (String::from("Lobby"), member("@me:x", None)),
        (String::from("Lobby"), member("@a:x", Some("Ann"))),
        (String::from("Lobby"), member("@b:x", Some("  "))),
        (String::from("Dev"), member("@a:x", Some("Ann again"))),
        (String::from("Dev"), member("@c:x", None)),
    ];
    let all = recommend_joined_room_users(Some("@me:x"), members, 10, 0);
    let ids: Vec<&str> = all.iter().map(|e| e.id.as_str()).collect();
    assert_eq!(ids, vec!["@a:x", "@b:x", "@c:x"]);
    assert_eq!(all[0].title, "Ann");
    assert_eq!(all[1].title, "@b:x");
    assert_eq!(all[2].description.as_deref(), Some("Member of Dev"));
    assert_eq!(all[0].source, "joined");
    let window = recommend_joined_room_users(
        None,
        vec![
            (String::from("R"), member("@a:x", None)),
            (String::from("R"), member("@b:x", None)),
            (String::from("R"), member("@c:x", None)),
        ],
        1,
        1,
    );
    assert_eq!(window.len(), 1);
    assert_eq!(window[0].id, "@b:x");
    assert_eq!(
        local_room_title(None, Some(String::from("#lobby:x")), String::from("!r")),
        "#lobby:x"
    );
    assert_eq!(local_room_title(None, None, String::from("!r")), "!r");
}

fn directory_room(id: &str, name: Option<&str>) -> PublicRoomDescription {
    PublicRoomDescription {
        room_id: String::from(id),
        room_id_server_name: Some(String::from("x")),
        name: name.map(String::from),
        canonical_alias: None,
        topic: None,
        avatar_url: None,
        num_joined_members: 3,
        join_rule: String::from("public"),
        world_readable: false,
    }
}

#[test]
fn public_directory_page_skips_offset_and_joined_rooms() {
    let chunk = vec![
        directory_room("!a:x", Some("A")),
        directory_room("!b:x", None),
        directory_room("!c:x", Some("C")),
        directory_room("!d:x", Some("D")),
        directory_room("!e:x", Some("E")),
    ];
    let joined = vec![String::from("!c:x")];
    let page = public_directory_entities(DiscoveryEntityKind::Room, chunk, &joined, 2, 1);
    let ids: Vec<&str> = page.iter().map(|e| e.id.as_str()).collect();
    assert_eq!(ids, vec!["!b:x", "!d:x"]);
    assert_eq!(page[0].title, "!b:x");
    assert_eq!(page[0].source, "homeserver");
    assert_eq!(page[0].member_count, Some(3));
    assert_eq!(page[0].via, vec![String::from("x")]);
    let beyond = public_directory_entities(
        DiscoveryEntityKind::Space,
        vec![directory_room("!a:x", None)],
        &joined,
        5,
        4,
    );
    assert!(beyond.is_empty());
}

#[test]
fn matrixrooms_info_answer_keeps_entries_of_the_kind() {
    let entry = |id: &str, room_type: Option<&str>| MatrixRoomsInfoEntry {
        room_id: Some(String::from(id)),
        id: None,
        name: None,
        alias: None,
        topic: None,
        avatar_url: None,
        members: None,
        server: None,
        room_type: room_type.map(String::from),
    };
    let entries = vec![
        entry("!r1:x", None),
        entry("!s1:x", Some("m.space")),
        entry("!r2:x", Some("room")),
        entry("!r3:x", None),
    ];
    let joined = vec![String::from("!r3:x")];
    let none: Vec<String> = Vec::new();
    let rooms = matrixrooms_info_entities(DiscoveryEntityKind::Room, entries, &joined, &none);
    let ids: Vec<&str> = rooms.iter().map(|e| e.id.as_str()).collect();
    assert_eq!(ids, vec!["!r1:x", "!r2:x"]);
    assert_eq!(rooms[0].title, "Unnamed room");
    assert_eq!(rooms[0].source, "matrixrooms_info");
}

#[test]
fn directory_request_and_search_plan() {
    assert_eq!(public_directory_request_limit(20, 40), 60);
    assert_eq!(public_directory_request_limit(usize::MAX - 5, 5), u32::MAX);
    assert_eq!(public_directory_search_term("  rust  ").as_deref(), Some("rust"));
    assert_eq!(public_directory_search_term("   "), None);
    assert_eq!(
        discovery_search_plan(DiscoveryEntityKind::User, " ", None),
        DiscoverySearchPlan::RecommendJoinedRoomUsers
    );
    assert_eq!(
        discovery_search_plan(DiscoveryEntityKind::User, "ann", Some(DiscoverySource::Homeserver)),
        DiscoverySearchPlan::SearchUserDirectory
    );
    assert_eq!(
        discovery_search_plan(DiscoveryEntityKind::Room, "x", Some(DiscoverySource::Homeserver)),
        DiscoverySearchPlan::SearchRooms { matrixrooms_info: false, homeserver: true }
    );
    assert_eq!(
        discovery_search_plan(DiscoveryEntityKind::Space, "", None),
        DiscoverySearchPlan::SearchRooms { matrixrooms_info: true, homeserver: true }
    );
}

#[test]
fn most_recent_rooms_come_first_up_to_the_count() {
    assert_eq!(most_recent_first(&[3, 8, 3, 9], 3), vec![3, 1, 0]);
    assert_eq!(most_recent_first(&[3, 8], 5), vec![1, 0]);
    assert!(most_recent_first(&[1, 2], 0).is_empty());
}
