use hyperion::discovery::{
    map_public_room_description, map_user_directory_results, push_server_from_matrix_identifier,
    push_unique_server, via_server_candidates, DiscoveryEntityKind, PublicRoomDescription, UserDirectoryResult,
};

fn user(id: &str, name: Option<&str>) -> UserDirectoryResult {
    UserDirectoryResult {
        user_id: String::from(id),
        display_name: name.map(String::from),
        avatar_url: None,
    }
}

#[test]
fn user_directory_results_are_paged_and_named() {
    let users = vec![
        user("@a:example.org", Some("Alice")),
        user("@b:example.org", Some("   ")),
        user("@c:example.org", None),
    ];
    let mapped = map_user_directory_results(users, 5, 1);
    assert_eq!(mapped.len(), 2);
    assert_eq!(mapped[0].id, "@b:example.org");
    assert_eq!(mapped[0].title, "@b:example.org");
    assert_eq!(mapped[0].kind, "user");
    assert_eq!(mapped[0].alias, Some(String::from("@b:example.org")));
    assert_eq!(mapped[0].description, Some(String::from("Matrix user")));
    assert_eq!(mapped[1].title, "@c:example.org");
}

#[test]
fn user_directory_results_respect_the_limit() {
    let users = vec![user("@a:x", Some("Alice")), user("@b:x", Some("Bob")), user("@c:x", None)];
    let mapped = map_user_directory_results(users, 1, 0);
    assert_eq!(mapped.len(), 1);
    assert_eq!(mapped[0].title, "Alice");
    let none = map_user_directory_results(vec![user("@a:x", None)], 3, 4);
    assert!(none.is_empty());
}

fn description(room_id: &str, name: Option<&str>, alias: Option<&str>) -> PublicRoomDescription {
    PublicRoomDescription {
        room_id: String::from(room_id),
        room_id_server_name: Some(String::from("example.org")),
        name: name.map(String::from),
        canonical_alias: alias.map(String::from),
        topic: Some(String::from("Topic")),
        avatar_url: None,
        num_joined_members: 12,
        join_rule: String::from("public"),
        world_readable: true,
    }
}

#[test]
fn public_rooms_map_to_entities_unless_joined() {
    let joined = vec![String::from("!joined:example.org")];
    let mapped = map_public_room_description(
        DiscoveryEntityKind::Space,
        description("!space:example.org", None, Some("#space:example.org")),
        &joined,
    )
    .expect("not joined");
    assert_eq!(mapped.kind, "space");
    assert_eq!(mapped.title, "#space:example.org");
    assert_eq!(mapped.member_count, Some(12));
    assert_eq!(mapped.join_rule, Some(String::from("public")));
    assert_eq!(mapped.world_readable, Some(true));
    assert_eq!(mapped.source, "homeserver");
    assert_eq!(mapped.via, vec![String::from("example.org")]);
    assert!(!mapped.already_joined);

    let untitled = map_public_room_description(
        DiscoveryEntityKind::Room,
        description("!plain:example.org", None, None),
        &joined,
    )
    .expect("not joined");
    assert_eq!(untitled.title, "!plain:example.org");

    assert!(map_public_room_description(
        DiscoveryEntityKind::Room,
        description("!joined:example.org", Some("Joined"), None),
        &joined,
    )
    .is_none());
}

#[test]
fn servers_are_collected_once_and_from_identifiers() {
    let mut servers: Vec<String> = Vec::new();
    push_unique_server(&mut servers, "example.org");
    push_unique_server(&mut servers, "example.org");
    push_unique_server(&mut servers, "  ");
    push_server_from_matrix_identifier(&mut servers, "#room:matrix.org");
    push_server_from_matrix_identifier(&mut servers, "no-server");
    assert_eq!(servers, vec![String::from("example.org"), String::from("matrix.org")]);
}

#[test]
fn join_servers_are_trimmed_and_blank_ones_dropped() {
    let via = vec![
        String::from(" matrix.org "),
        String::from("   "),
        String::new(),
        String::from("example.org"),
    ];
    assert_eq!(
        via_server_candidates(&via),
        vec![String::from("matrix.org"), String::from("example.org")]
    );
}
