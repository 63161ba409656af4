//! Discovery of users, rooms and spaces: mapping directory entries to
//! discovery entities, deduplicating results, federation `via` servers,
//! invite targets, and the MatrixRooms.info search address.
use vstd::prelude::*;

use crate::text::{
    ascii_lower_seq, chars_of, concat2, decimal_seq, decimal_string, is_blank, lower_ascii,
    opt_view, push_char, str_eq, strings_view, trim, trim_seq,
};
use vstd::utf8::encode_utf8;

use crate::timeline::clone_opt_string;

verus! {

broadcast use vstd::utf8::group_utf8_lib;

// ---------------------------------------------------------------------------
// Types
// ---------------------------------------------------------------------------

#[derive(Debug, Clone, Copy, PartialEq, Eq, Structural)]
pub enum DiscoveryEntityKind {
    User,
    Room,
    Space,
}

#[derive(Debug, Clone, Copy, PartialEq, Eq, Structural)]
pub enum DiscoverySource {
    All,
    MatrixRoomsInfo,
    Homeserver,
}

#[derive(Debug)]
pub struct SearchDiscoveryEntitiesRequest {
    pub kind: DiscoveryEntityKind,
    pub query: String,
    pub source: Option<DiscoverySource>,
    pub limit: Option<usize>,
    pub offset: Option<usize>,
}

#[derive(Debug)]
pub struct JoinDiscoveryRoomRequest {
    pub room_id_or_alias: String,
    pub via: Option<Vec<String>>,
}

#[derive(Debug)]
pub struct InviteUserToRoomRequest {
    pub user_id: String,
    pub room_id: String,
}

#[derive(Debug)]
pub struct ListInviteTargetsRequest {
    pub user_id: String,
}

/// A user, room or space found by discovery.
#[derive(Debug)]
pub struct DiscoveryEntity {
    pub id: String,
    pub kind: String,
    pub title: String,
    pub alias: Option<String>,
    pub description: Option<String>,
    pub avatar_url: Option<String>,
    pub member_count: Option<u64>,
    pub join_rule: Option<String>,
    pub world_readable: Option<bool>,
    pub source: String,
    pub already_joined: bool,
    pub parent_space_labels: Vec<String>,
    pub via: Vec<String>,
}

#[derive(Debug)]
pub struct JoinDiscoveryRoomResponse {
    pub room_id: String,
}

/// A joined room or space that a user may be invited to.
#[derive(Debug)]
pub struct InviteTarget {
    pub room_id: String,
    pub title: String,
    pub description: String,
    pub is_space: bool,
}

/// One entry of a MatrixRooms.info search answer.
#[derive(Debug)]
pub struct MatrixRoomsInfoEntry {
    pub room_id: Option<String>,
    pub id: Option<String>,
    pub name: Option<String>,
    pub alias: Option<String>,
    pub topic: Option<String>,
    pub avatar_url: Option<String>,
    pub members: Option<u64>,
    pub server: Option<String>,
    pub room_type: Option<String>,
}

/// A MatrixRooms.info search answer: a bare list, or a wrapper that holds
/// `rooms` or `results`.
#[derive(Debug)]
pub enum MatrixRoomsInfoSearchResponse {
    List(Vec<MatrixRoomsInfoEntry>),
    Wrapped { rooms: Vec<MatrixRoomsInfoEntry>, results: Vec<MatrixRoomsInfoEntry> },
}

/// A conversation as the room list summarises it.
#[derive(Debug)]
pub struct RoomThreadSummary {
    pub room_id: String,
    pub title: String,
    pub preview: String,
    pub participant_label: String,
    pub last_activity_unix_ms: u64,
    pub last_activity_label: String,
    pub message_count: u64,
    pub unread_count: u64,
    pub homeserver_label: String,
    pub avatar_label: Option<String>,
    pub is_direct: bool,
}

/// A space as the space list summarises it.
#[derive(Debug)]
pub struct SpaceSummary {
    pub space_id: String,
    pub name: String,
    pub description: String,
    pub member_label: String,
    pub activity_label: String,
    pub accent_label: Option<String>,
    pub is_official: Option<bool>,
}

/// A room of a homeserver's public room directory.
#[derive(Debug)]
pub struct PublicRoomDescription {
    pub room_id: String,
    pub room_id_server_name: Option<String>,
    pub name: Option<String>,
    pub canonical_alias: Option<String>,
    pub topic: Option<String>,
    pub avatar_url: Option<String>,
    pub num_joined_members: u64,
    pub join_rule: String,
    pub world_readable: bool,
}

/// A user found by a homeserver's user directory.
#[derive(Debug)]
pub struct UserDirectoryResult {
    pub user_id: String,
    pub display_name: Option<String>,
    pub avatar_url: Option<String>,
}

/// The id is one of the given ones.
pub open spec fn holds_id(set: Seq<String>, id: Seq<char>) -> bool {
    exists|i: int| 0 <= i < set.len() && (#[trigger] set[i])@ == id
}

fn contains_string(set: &[String], id: &str) -> (r: bool)
    ensures
        r == holds_id(set@, id@),
{
    let mut i: usize = 0;
    while i < set.len()
        invariant
            i <= set@.len(),
            forall|k: int| 0 <= k < i ==> (#[trigger] set@[k])@ != id@,
        decreases set.len() - i,
    {
        if str_eq(set[i].as_str(), id) {
            return true;
        }
        i = i + 1;
    }
    false
}

// ---------------------------------------------------------------------------
// Limits and search answers
// ---------------------------------------------------------------------------

pub const DEFAULT_DISCOVERY_LIMIT: usize = 20;

pub const MAX_DISCOVERY_LIMIT: usize = 50;

/// The requested limit, 20 when absent, kept within 1 to 50.
pub fn bounded_discovery_limit(limit: Option<usize>) -> (r: usize)
    ensures
        r == (match limit {
            Some(l) => if l < 1 {
                1
            } else if l > 50 {
                50
            } else {
                l
            },
            None => 20,
        }),
        1 <= r <= MAX_DISCOVERY_LIMIT,
{
    let l = match limit {
        Some(l) => l,
        None => DEFAULT_DISCOVERY_LIMIT,
    };
    if l < 1 {
        1
    } else if l > MAX_DISCOVERY_LIMIT {
        MAX_DISCOVERY_LIMIT
    } else {
        l
    }
}

impl MatrixRoomsInfoSearchResponse {
    /// The entries of an answer: a wrapper gives its `rooms` unless that is
    /// empty, and then its `results`.
    pub fn into_entries(self) -> (r: Vec<MatrixRoomsInfoEntry>)
        ensures
            r@ == (match self {
                MatrixRoomsInfoSearchResponse::List(entries) => entries@,
                MatrixRoomsInfoSearchResponse::Wrapped { rooms, results } => if rooms@.len() == 0 {
                    results@
                } else {
                    rooms@
                },
            }),
    {
        match self {
            MatrixRoomsInfoSearchResponse::List(entries) => entries,
            MatrixRoomsInfoSearchResponse::Wrapped { rooms, results } => {
                if rooms.len() == 0 {
                    results
                } else {
                    rooms
                }
            },
        }
    }
}

// ---------------------------------------------------------------------------
// Via servers
// ---------------------------------------------------------------------------

/// Appends a server unless it is blank or already present.
pub open spec fn push_unique_spec(servers: Seq<Seq<char>>, server: Seq<char>) -> Seq<Seq<char>> {
    if trim_seq(server).len() == 0 || servers.contains(server) {
        servers
    } else {
        servers.push(server)
    }
}

/// The position of the last `c` in `v`, if any.
pub open spec fn last_char_index(v: Seq<char>, c: char) -> Option<int>
    decreases v.len(),
{
    if v.len() == 0 {
        None
    } else if v.last() == c {
        Some(v.len() - 1)
    } else {
        last_char_index(v.drop_last(), c)
    }
}

/// The server part of a Matrix identifier: what follows its last `:`.
pub open spec fn identifier_server(value: Seq<char>) -> Option<Seq<char>> {
    match last_char_index(value, ':') {
        Some(i) => Some(value.skip(i + 1)),
        None => None,
    }
}

pub open spec fn push_identifier_server_spec(servers: Seq<Seq<char>>, value: Seq<char>) -> Seq<Seq<char>> {
    match identifier_server(value) {
        Some(server) => push_unique_spec(servers, server),
        None => servers,
    }
}

/// The servers to join through: the entry's own server (trimmed) if it is
/// not blank, then the servers of the id and of the alias, each once.
pub open spec fn via_servers_spec(
    explicit_server: Option<Seq<char>>,
    id: Seq<char>,
    alias: Option<Seq<char>>,
) -> Seq<Seq<char>> {
    let s0 = match explicit_server {
        Some(server) => if trim_seq(server).len() > 0 {
            push_unique_spec(Seq::empty(), trim_seq(server))
        } else {
            Seq::empty()
        },
        None => Seq::empty(),
    };
    let s1 = push_identifier_server_spec(s0, id);
    match alias {
        Some(a) => push_identifier_server_spec(s1, a),
        None => s1,
    }
}

/// Appends a server unless it is blank or already present.
pub fn push_unique_server(servers: &mut Vec<String>, server_name: &str)
    ensures
        strings_view(final(servers)@) == push_unique_spec(strings_view(old(servers)@), server_name@),
{
    if is_blank(server_name) {
        return;
    }
    let mut i: usize = 0;
    while i < servers.len()
        invariant
            i <= servers@.len(),
            forall|k: int| 0 <= k < i ==> (#[trigger] servers@[k])@ != server_name@,
        decreases servers.len() - i,
    {
        if str_eq(servers[i].as_str(), server_name) {
            assert(strings_view(servers@)[i as int] == server_name@);
            return;
        }
        i = i + 1;
    }
    let ghost before = strings_view(servers@);
    assert(!before.contains(server_name@)) by {
        if before.contains(server_name@) {
            let k = choose|k: int| 0 <= k < before.len() && before[k] == server_name@;
            assert(servers@[k]@ == server_name@);
        }
    }
    servers.push(server_name.to_owned());
    assert(strings_view(servers@) =~= before.push(server_name@));
}

fn find_last_char(v: &[char], c: char) -> (r: Option<usize>)
    ensures
        match r {
            Some(i) => last_char_index(v@, c) == Some(i as int) && i < v@.len(),
            None => last_char_index(v@, c) is None,
        },
{
    let mut i = v.len();
    assert(v@.take(v@.len() as int) == v@);
    while i > 0
        invariant
            i <= v@.len(),
            last_char_index(v@, c) == last_char_index(v@.take(i as int), c),
        decreases i,
    {
        assert(v@.take(i as int).drop_last() == v@.take(i - 1));
        if v[i - 1] == c {
            return Some(i - 1);
        }
        i = i - 1;
    }
    None
}

/// Appends the server of a Matrix identifier, if it has one.
pub fn push_server_from_matrix_identifier(servers: &mut Vec<String>, value: &str)
    ensures
        strings_view(final(servers)@) == push_identifier_server_spec(strings_view(old(servers)@), value@),
{
    let v = chars_of(value);
    let n = v.len();
    match find_last_char(&v, ':') {
        Some(i) => {
            let server = crate::text::string_from_range(&v, i + 1, n);
            assert(server@ == v@.skip(i + 1));
            push_unique_server(servers, server.as_str());
        },
        None => {},
    }
}

/// The `via` servers a join request names: each one trimmed, blank ones
/// left out, in the order given.
pub open spec fn via_candidates_spec(servers: Seq<Seq<char>>) -> Seq<Seq<char>>
    decreases servers.len(),
{
    if servers.len() == 0 {
        Seq::empty()
    } else {
        let rest = via_candidates_spec(servers.drop_last());
        if trim_seq(servers.last()).len() == 0 {
            rest
        } else {
            rest.push(trim_seq(servers.last()))
        }
    }
}

/// The server names a join request is routed through, before each is
/// checked as a Matrix server name.
pub fn via_server_candidates(servers: &[String]) -> (r: Vec<String>)
    ensures
        strings_view(r@) == via_candidates_spec(strings_view(servers@)),
{
    let mut r: Vec<String> = Vec::new();
    let mut i: usize = 0;
    while i < servers.len()
        invariant
            i <= servers@.len(),
            strings_view(r@) == via_candidates_spec(strings_view(servers@).take(i as int)),
        decreases servers@.len() - i,
    {
        let ghost before = strings_view(servers@).take(i as int);
        assert(strings_view(servers@).take(i + 1).drop_last() == before);
        let t = trim(servers[i].as_str());
        if !t.as_str().is_empty() {
            r.push(t);
        }
        i = i + 1;
    }
    assert(strings_view(servers@).take(servers@.len() as int) == strings_view(servers@));
    r
}

/// The servers to join a discovered room through.
pub fn discovery_via_servers(explicit_server: Option<String>, id: &str, alias: Option<&str>) -> (r:
    Vec<String>)
    ensures
        strings_view(r@) == via_servers_spec(
            opt_view(explicit_server),
            id@,
            match alias {
                Some(a) => Some(a@),
                None => None,
            },
        ),
{
    let mut servers: Vec<String> = Vec::new();
    assert(strings_view(servers@) =~= Seq::<Seq<char>>::empty());
    match explicit_server {
        Some(server) => {
            if !is_blank(server.as_str()) {
                let t = trim(server.as_str());
                push_unique_server(&mut servers, t.as_str());
            }
        },
        None => {},
    }
    push_server_from_matrix_identifier(&mut servers, id);
    match alias {
        Some(a) => push_server_from_matrix_identifier(&mut servers, a),
        None => {},
    }
    servers
}

// ---------------------------------------------------------------------------
// Mapping directory entries
// ---------------------------------------------------------------------------

/// The entry describes a space (`m.space` or `space`, ignoring ASCII case).
pub open spec fn entry_is_space(room_type: Option<Seq<char>>) -> bool {
    match room_type {
        Some(t) => ascii_lower_seq(t) == "m.space"@ || ascii_lower_seq(t) == "space"@,
        None => false,
    }
}

/// The entry's id: its room id, else its id, else its alias, else empty.
pub open spec fn entry_id(entry: MatrixRoomsInfoEntry) -> Seq<char> {
    match entry.room_id {
        Some(r) => r@,
        None => match entry.id {
            Some(i) => i@,
            None => match entry.alias {
                Some(a) => a@,
                None => Seq::empty(),
            },
        },
    }
}

/// The title: a non-blank name, else the alias, else `Unnamed room`.
pub open spec fn entry_title(entry: MatrixRoomsInfoEntry) -> Seq<char> {
    match entry.name {
        Some(n) => if trim_seq(n@).len() > 0 {
            n@
        } else {
            match entry.alias {
                Some(a) => a@,
                None => "Unnamed room"@,
            }
        },
        None => match entry.alias {
            Some(a) => a@,
            None => "Unnamed room"@,
        },
    }
}

/// Whether an entry is shown for a search of the given kind: spaces only
/// for space searches, rooms only for room searches, never with an empty
/// id, and never once joined.
pub open spec fn entry_is_shown(
    kind: DiscoveryEntityKind,
    entry: MatrixRoomsInfoEntry,
    joined_rooms: Seq<String>,
    joined_spaces: Seq<String>,
) -> bool {
    let is_space = entry_is_space(opt_view(entry.room_type));
    &&& !(kind == DiscoveryEntityKind::Space && !is_space)
    &&& !(kind == DiscoveryEntityKind::Room && is_space)
    &&& entry_id(entry).len() > 0
    &&& !(if is_space {
        holds_id(joined_spaces, entry_id(entry))
    } else {
        holds_id(joined_rooms, entry_id(entry))
    })
}

/// The entity a shown MatrixRooms.info entry becomes.
pub open spec fn matrixrooms_entity(e: DiscoveryEntity, entry: MatrixRoomsInfoEntry) -> bool {
    let is_space = entry_is_space(opt_view(entry.room_type));
    &&& e.id@ == entry_id(entry)
    &&& e.kind@ == (if is_space {
        "space"@
    } else {
        "room"@
    })
    &&& e.title@ == entry_title(entry)
    &&& e.alias == entry.alias
    &&& e.description == entry.topic
    &&& e.avatar_url == entry.avatar_url
    &&& e.member_count == entry.members
    &&& opt_view(e.join_rule) == Some("public"@)
    &&& e.world_readable is None
    &&& e.source@ == "matrixrooms_info"@
    &&& !e.already_joined
    &&& e.parent_space_labels@.len() == 0
    &&& strings_view(e.via@) == via_servers_spec(
        opt_view(entry.server),
        entry_id(entry),
        opt_view(entry.alias),
    )
}

fn is_space_type(room_type: &Option<String>) -> (r: bool)
    ensures
        r == entry_is_space(opt_view(*room_type)),
{
    match room_type {
        Some(t) => {
            let lowered = lower_ascii(&chars_of(t.as_str()));
            let s = crate::text::string_from_chars(&lowered);
            str_eq(s.as_str(), "m.space") || str_eq(s.as_str(), "space")
        },
        None => false,
    }
}

/// Maps a MatrixRooms.info entry to a discovery entity, or drops it.
pub fn map_matrixrooms_info_entry(
    kind: DiscoveryEntityKind,
    entry: MatrixRoomsInfoEntry,
    joined_rooms: &[String],
    joined_spaces: &[String],
) -> (r: Option<DiscoveryEntity>)
    ensures
        match r {
            Some(e) => entry_is_shown(kind, entry, joined_rooms@, joined_spaces@) && matrixrooms_entity(
                e,
                entry,
            ),
            None => !entry_is_shown(kind, entry, joined_rooms@, joined_spaces@),
        },
{
    let is_space = is_space_type(&entry.room_type);
    if kind == DiscoveryEntityKind::Space && !is_space {
        return None;
    }
    if kind == DiscoveryEntityKind::Room && is_space {
        return None;
    }
    let id = match &entry.room_id {
        Some(r) => r.clone(),
        None => match &entry.id {
            Some(i) => i.clone(),
            None => match &entry.alias {
                Some(a) => a.clone(),
                None => String::new(),
            },
        },
    };
    if id.as_str().is_empty() {
        return None;
    }
    let already_joined = if is_space {
        contains_string(joined_spaces, id.as_str())
    } else {
        contains_string(joined_rooms, id.as_str())
    };
    if already_joined {
        return None;
    }
    let alias_ref: Option<&str> = match &entry.alias {
        Some(a) => Some(a.as_str()),
        None => None,
    };
    let via = discovery_via_servers(clone_opt_string(&entry.server), id.as_str(), alias_ref);
    let title = match &entry.name {
        Some(n) => if !is_blank(n.as_str()) {
            n.clone()
        } else {
            match &entry.alias {
                Some(a) => a.clone(),
                None => "Unnamed room".to_owned(),
            }
        },
        None => match &entry.alias {
            Some(a) => a.clone(),
            None => "Unnamed room".to_owned(),
        },
    };
    let kind_label = if is_space {
        "space".to_owned()
    } else {
        "room".to_owned()
    };
    Some(
        DiscoveryEntity {
            id,
            kind: kind_label,
            title,
            alias: entry.alias,
            description: entry.topic,
            avatar_url: entry.avatar_url,
            member_count: entry.members,
            join_rule: Some("public".to_owned()),
            world_readable: None,
            source: "matrixrooms_info".to_owned(),
            already_joined,
            parent_space_labels: Vec::new(),
            via,
        },
    )
}

/// The entity a public room directory entry becomes.
pub open spec fn public_room_entity(
    e: DiscoveryEntity,
    kind: DiscoveryEntityKind,
    d: PublicRoomDescription,
) -> bool {
    &&& e.id@ == d.room_id@
    &&& e.kind@ == (match kind {
        DiscoveryEntityKind::Room => "room"@,
        DiscoveryEntityKind::Space => "space"@,
        DiscoveryEntityKind::User => "user"@,
    })
    &&& e.title@ == (match d.name {
        Some(n) => n@,
        None => match d.canonical_alias {
            Some(a) => a@,
            None => d.room_id@,
        },
    })
    &&& e.alias == d.canonical_alias
    &&& e.description == d.topic
    &&& e.avatar_url == d.avatar_url
    &&& e.member_count == Some(d.num_joined_members)
    &&& e.join_rule == Some(d.join_rule)
    &&& e.world_readable == Some(d.world_readable)
    &&& e.source@ == "homeserver"@
    &&& !e.already_joined
    &&& e.parent_space_labels@.len() == 0
    &&& e.via@ == (match d.room_id_server_name {
        Some(s) => seq![s],
        None => Seq::empty(),
    })
}

/// Maps a public room directory entry, dropping rooms already joined.
pub fn map_public_room_description(
    kind: DiscoveryEntityKind,
    description: PublicRoomDescription,
    joined_rooms: &[String],
) -> (r: Option<DiscoveryEntity>)
    ensures
        match r {
            Some(e) => !holds_id(joined_rooms@, description.room_id@) && public_room_entity(
                e,
                kind,
                description,
            ),
            None => holds_id(joined_rooms@, description.room_id@),
        },
{
    if contains_string(joined_rooms, description.room_id.as_str()) {
        return None;
    }
    let kind_label = match kind {
        DiscoveryEntityKind::Room => "room".to_owned(),
        DiscoveryEntityKind::Space => "space".to_owned(),
        DiscoveryEntityKind::User => "user".to_owned(),
    };
    let title = match &description.name {
        Some(n) => n.clone(),
        None => match &description.canonical_alias {
            Some(a) => a.clone(),
            None => description.room_id.clone(),
        },
    };
    let mut via: Vec<String> = Vec::new();
    match &description.room_id_server_name {
        Some(s) => via.push(s.clone()),
        None => {},
    }
    assert(via@ == (match description.room_id_server_name {
        Some(s) => seq![s],
        None => Seq::<String>::empty(),
    }));
    Some(
        DiscoveryEntity {
            id: description.room_id,
            kind: kind_label,
            title,
            alias: description.canonical_alias,
            description: description.topic,
            avatar_url: description.avatar_url,
            member_count: Some(description.num_joined_members),
            join_rule: Some(description.join_rule),
            world_readable: Some(description.world_readable),
            source: "homeserver".to_owned(),
            already_joined: false,
            parent_space_labels: Vec::new(),
            via,
        },
    )
}

/// The entity a user directory result becomes.
pub open spec fn user_entity(e: DiscoveryEntity, u: UserDirectoryResult) -> bool {
    &&& e.id@ == u.user_id@
    &&& e.kind@ == "user"@
    &&& e.title@ == (match u.display_name {
        Some(n) => if trim_seq(n@).len() > 0 {
            n@
        } else {
            u.user_id@
        },
        None => u.user_id@,
    })
    &&& opt_view(e.alias) == Some(u.user_id@)
    &&& opt_view(e.description) == Some("Matrix user"@)
    &&& e.avatar_url == u.avatar_url
    &&& e.member_count is None
    &&& e.join_rule is None
    &&& e.world_readable is None
    &&& e.source@ == "homeserver"@
    &&& !e.already_joined
    &&& e.parent_space_labels@.len() == 0
    &&& e.via@.len() == 0
}

/// Maps the user directory results, skipping `offset` and keeping at most
/// `limit`.
pub fn map_user_directory_results(users: Vec<UserDirectoryResult>, limit: usize, offset: usize) -> (r:
    Vec<DiscoveryEntity>)
    ensures
        r@.len() == (if offset >= users@.len() {
            0
        } else if users@.len() - offset <= limit {
            users@.len() - offset
        } else {
            limit as int
        }),
        forall|i: int| 0 <= i < r@.len() ==> user_entity(#[trigger] r@[i], users@[offset + i]),
{
    let mut r: Vec<DiscoveryEntity> = Vec::new();
    let mut i = offset;
    while i < users.len() && r.len() < limit
        invariant
            offset <= i,
            r@.len() == i - offset,
            r@.len() <= limit,
            i <= users@.len() || i == offset,
            forall|k: int| 0 <= k < r@.len() ==> user_entity(#[trigger] r@[k], users@[offset + k]),
        decreases users@.len() - i,
    {
        let u = &users[i];
        let title = match &u.display_name {
            Some(n) => if !is_blank(n.as_str()) {
                n.clone()
            } else {
                u.user_id.clone()
            },
            None => u.user_id.clone(),
        };
        r.push(
            DiscoveryEntity {
                id: u.user_id.clone(),
                kind: "user".to_owned(),
                title,
                alias: Some(u.user_id.clone()),
                description: Some("Matrix user".to_owned()),
                avatar_url: clone_opt_string(&u.avatar_url),
                member_count: None,
                join_rule: None,
                world_readable: None,
                source: "homeserver".to_owned(),
                already_joined: false,
                parent_space_labels: Vec::new(),
                via: Vec::new(),
            },
        );
        i = i + 1;
    }
    r
}

// ---------------------------------------------------------------------------
// Deduplication
// ---------------------------------------------------------------------------

/// The key under which rooms and spaces are deduplicated: the alias, else
/// the id.
pub open spec fn dedupe_key(e: DiscoveryEntity) -> Seq<char> {
    match e.alias {
        Some(a) => a@,
        None => e.id@,
    }
}

/// The entities kept by deduplication, scanning from `i` with `seen` keys
/// and `kept` entities: users always stay; rooms and spaces stay the first
/// time their key appears; the scan stops once `limit` are kept.
pub open spec fn dedupe_from(
    entities: Seq<DiscoveryEntity>,
    i: int,
    seen: Seq<Seq<char>>,
    kept: Seq<DiscoveryEntity>,
    limit: int,
) -> Seq<DiscoveryEntity>
    decreases entities.len() - i,
{
    if i < 0 || i >= entities.len() || kept.len() >= limit {
        kept
    } else {
        let e = entities[i];
        if e.kind@ == "user"@ {
            dedupe_from(entities, i + 1, seen, kept.push(e), limit)
        } else if seen.contains(dedupe_key(e)) {
            dedupe_from(entities, i + 1, seen, kept, limit)
        } else {
            dedupe_from(entities, i + 1, seen.push(dedupe_key(e)), kept.push(e), limit)
        }
    }
}

/// What deduplicated results keep to: at most `limit` entities, each one
/// of the given ones, and no two rooms or spaces under the same key.
pub open spec fn deduplicated(result: Seq<DiscoveryEntity>, entities: Seq<DiscoveryEntity>, limit: int) -> bool {
    &&& result.len() <= limit
    &&& forall|a: int| 0 <= a < result.len() ==> entities.contains(#[trigger] result[a])
    &&& forall|a: int, b: int|
        0 <= a < b < result.len() && result[a].kind@ != "user"@ && result[b].kind@ != "user"@ ==> dedupe_key(
            #[trigger] result[a],
        ) != dedupe_key(#[trigger] result[b])
}

proof fn lemma_dedupe_from_keeps(
    entities: Seq<DiscoveryEntity>,
    i: int,
    seen: Seq<Seq<char>>,
    kept: Seq<DiscoveryEntity>,
    limit: int,
)
    requires
        0 <= i,
        deduplicated(kept, entities, limit),
        forall|a: int| 0 <= a < kept.len() && kept[a].kind@ != "user"@ ==> seen.contains(dedupe_key(#[trigger] kept[a])),
    ensures
        deduplicated(dedupe_from(entities, i, seen, kept, limit), entities, limit),
    decreases entities.len() - i,
{
    if i < 0 || i >= entities.len() || kept.len() >= limit {
    } else {
        let e = entities[i];
        if e.kind@ == "user"@ {
            let next = kept.push(e);
            assert forall|a: int| 0 <= a < next.len() implies entities.contains(#[trigger] next[a]) by {
                if a == kept.len() {
                    assert(entities[i] == next[a]);
                } else {
                    assert(next[a] == kept[a]);
                }
            }
            assert forall|a: int, b: int|
                0 <= a < b < next.len() && next[a].kind@ != "user"@ && next[b].kind@ != "user"@ implies dedupe_key(
                #[trigger] next[a],
            ) != dedupe_key(#[trigger] next[b]) by {
                assert(next[a] == kept[a]);
                assert(next[b] == kept[b]);
            }
            assert forall|a: int| 0 <= a < next.len() && next[a].kind@ != "user"@ implies seen.contains(
                dedupe_key(#[trigger] next[a]),
            ) by {
                assert(next[a] == kept[a]);
            }
            lemma_dedupe_from_keeps(entities, i + 1, seen, next, limit);
        } else if seen.contains(dedupe_key(e)) {
            lemma_dedupe_from_keeps(entities, i + 1, seen, kept, limit);
        } else {
            let next = kept.push(e);
            let seen2 = seen.push(dedupe_key(e));
            assert forall|a: int| 0 <= a < next.len() implies entities.contains(#[trigger] next[a]) by {
                if a == kept.len() {
                    assert(entities[i] == next[a]);
                } else {
                    assert(next[a] == kept[a]);
                }
            }
            assert forall|a: int, b: int|
                0 <= a < b < next.len() && next[a].kind@ != "user"@ && next[b].kind@ != "user"@ implies dedupe_key(
                #[trigger] next[a],
            ) != dedupe_key(#[trigger] next[b]) by {
                assert(next[a] == kept[a]);
                if b == kept.len() {
                    assert(seen.contains(dedupe_key(kept[a])));
                } else {
                    assert(next[b] == kept[b]);
                }
            }
            assert forall|a: int| 0 <= a < next.len() && next[a].kind@ != "user"@ implies seen2.contains(
                dedupe_key(#[trigger] next[a]),
            ) by {
                if a == kept.len() {
                    assert(seen2[seen.len() as int] == dedupe_key(e));
                } else {
                    assert(next[a] == kept[a]);
                    let w = choose|w: int| 0 <= w < seen.len() && seen[w] == dedupe_key(kept[a]);
                    assert(seen2[w] == seen[w]);
                }
            }
            lemma_dedupe_from_keeps(entities, i + 1, seen2, next, limit);
        }
    }
}

/// Deduplication keeps at most the limit (at least one), only given
/// entities, and no two rooms or spaces under the same key.
pub proof fn lemma_dedupe_keeps_keys_distinct(entities: Seq<DiscoveryEntity>, limit: int)
    requires
        limit >= 1,
    ensures
        deduplicated(dedupe_from(entities, 0, Seq::empty(), Seq::empty(), limit), entities, limit),
{
    lemma_dedupe_from_keeps(entities, 0, Seq::empty(), Seq::empty(), limit);
}

/// Deduplicates discovery results and keeps at most `limit` of them.
pub fn dedupe_discovery_entities(entities: Vec<DiscoveryEntity>, limit: usize) -> (r: Vec<
    DiscoveryEntity,
>)
    ensures
        r@ == dedupe_from(
            entities@,
            0,
            Seq::empty(),
            Seq::empty(),
            if limit == 0 {
                1
            } else {
                limit as int
            },
        ),
        deduplicated(
            r@,
            entities@,
            if limit == 0 {
                1
            } else {
                limit as int
            },
        ),
{
    proof {
        lemma_dedupe_keeps_keys_distinct(
            entities@,
            if limit == 0 {
                1
            } else {
                limit as int
            },
        );
    }
    let effective_limit = if limit == 0 {
        1
    } else {
        limit
    };
    let ghost all = entities@;
    let mut rest = entities;
    let mut seen: Vec<String> = Vec::new();
    let mut deduped: Vec<DiscoveryEntity> = Vec::new();
    let mut i: usize = 0;
    let total = rest.len();
    assert(all.skip(0) == all);
    assert(strings_view(seen@) =~= Seq::<Seq<char>>::empty());
    while rest.len() > 0
        invariant
            i + rest@.len() == all.len(),
            all.len() == total,
            all == entities@,
            rest@ == all.skip(i as int),
            deduped@.len() < effective_limit,
            effective_limit >= 1,
            effective_limit as int == (if limit == 0 {
                1
            } else {
                limit as int
            }),
            deduplicated(dedupe_from(all, 0, Seq::empty(), Seq::empty(), effective_limit as int), all, effective_limit as int),
            dedupe_from(all, 0, Seq::empty(), Seq::empty(), effective_limit as int) == dedupe_from(
                all,
                i as int,
                strings_view(seen@),
                deduped@,
                effective_limit as int,
            ),
        decreases rest@.len(),
    {
        let entity = rest.remove(0);
        assert(entity == all[i as int]);
        assert(rest@ == all.skip(i + 1));
        let ghost seen_set = strings_view(seen@);
        let ghost kept0 = deduped@;
        if str_eq(entity.kind.as_str(), "user") {
            deduped.push(entity);
            i = i + 1;
            assert(dedupe_from(all, (i - 1) as int, seen_set, kept0, effective_limit as int)
                == dedupe_from(all, i as int, seen_set, deduped@, effective_limit as int));
            if deduped.len() >= effective_limit {
                assert(dedupe_from(all, i as int, seen_set, deduped@, effective_limit as int)
                    == deduped@);
                return deduped;
            }
            continue;
        }
        let key = match &entity.alias {
            Some(a) => a.clone(),
            None => entity.id.clone(),
        };
        if contains_string(&seen, key.as_str()) {
            proof {
                let k = choose|k: int| 0 <= k < seen@.len() && (#[trigger] seen@[k])@ == key@;
                assert(strings_view(seen@)[k] == key@);
                assert(strings_view(seen@).contains(dedupe_key(entity)));
            }
            i = i + 1;
            continue;
        }
        proof {
            assert(!strings_view(seen@).contains(key@)) by {
                if strings_view(seen@).contains(key@) {
                    let k = choose|k: int| 0 <= k < strings_view(seen@).len() && strings_view(
                        seen@,
                    )[k] == key@;
                    assert(seen@[k]@ == key@);
                }
            }
        }
        let ghost old_seen = strings_view(seen@);
        seen.push(key);
        assert(strings_view(seen@) =~= old_seen.push(dedupe_key(entity)));
        deduped.push(entity);
        i = i + 1;
        assert(dedupe_from(all, (i - 1) as int, seen_set, kept0, effective_limit as int)
            == dedupe_from(all, i as int, strings_view(seen@), deduped@, effective_limit as int));
        if deduped.len() >= effective_limit {
            assert(dedupe_from(all, i as int, strings_view(seen@), deduped@, effective_limit as int)
                == deduped@);
            return deduped;
        }
    }
    deduped
}

// ---------------------------------------------------------------------------
// Invite targets
// ---------------------------------------------------------------------------

/// Direct conversations are never invite targets.
pub fn conversation_is_invite_candidate(conversation: &RoomThreadSummary) -> (r: bool)
    ensures
        r == !conversation.is_direct,
{
    !conversation.is_direct
}

pub type TargetView = (Seq<char>, Seq<char>, Seq<char>, bool);

/// The targets among the first `n` conversations: each non-direct
/// conversation that may be invited to, in order.
pub open spec fn conversation_targets(cs: Seq<RoomThreadSummary>, invitable: Seq<bool>, n: int) -> Seq<
    TargetView,
>
    decreases n,
{
    if n <= 0 {
        Seq::empty()
    } else {
        let prev = conversation_targets(cs, invitable, n - 1);
        let c = cs[n - 1];
        if !c.is_direct && invitable[n - 1] {
            prev.push((c.room_id@, c.title@, c.participant_label@, false))
        } else {
            prev
        }
    }
}

/// The targets among the first `n` spaces: each space that may be invited
/// to, in order.
pub open spec fn space_targets(ss: Seq<SpaceSummary>, invitable: Seq<bool>, n: int) -> Seq<TargetView>
    decreases n,
{
    if n <= 0 {
        Seq::empty()
    } else {
        let prev = space_targets(ss, invitable, n - 1);
        let sp = ss[n - 1];
        if invitable[n - 1] {
            prev.push((sp.space_id@, sp.name@, sp.member_label@, true))
        } else {
            prev
        }
    }
}

pub open spec fn target_view(t: InviteTarget) -> TargetView {
    (t.room_id@, t.title@, t.description@, t.is_space)
}

pub open spec fn targets_view(ts: Seq<InviteTarget>) -> Seq<TargetView> {
    ts.map_values(|t: InviteTarget| target_view(t))
}

/// The rooms and spaces a user may be invited to, given for each
/// conversation and each space whether the account's client may invite
/// there (a joined room): non-direct conversations first, then spaces, in
/// their order.
pub fn invite_targets_from_summaries(
    conversations: Vec<RoomThreadSummary>,
    spaces: Vec<SpaceSummary>,
    conversation_invitable: &[bool],
    space_invitable: &[bool],
) -> (r: Vec<InviteTarget>)
    requires
        conversation_invitable@.len() == conversations@.len(),
        space_invitable@.len() == spaces@.len(),
    ensures
        targets_view(r@) == conversation_targets(
            conversations@,
            conversation_invitable@,
            conversations@.len() as int,
        ) + space_targets(spaces@, space_invitable@, spaces@.len() as int),
{
    let ghost cs = conversations@;
    let ghost ss = spaces@;
    let mut targets: Vec<InviteTarget> = Vec::new();
    let mut rest = conversations;
    let mut i: usize = 0;
    let total = rest.len();
    assert(cs.skip(0) == cs);
    assert(targets_view(targets@) =~= Seq::<TargetView>::empty());
    while rest.len() > 0
        invariant
            i + rest@.len() == cs.len(),
            cs.len() == total,
            rest@ == cs.skip(i as int),
            conversation_invitable@.len() == cs.len(),
            targets_view(targets@) == conversation_targets(cs, conversation_invitable@, i as int),
        decreases rest@.len(),
    {
        let c = rest.remove(0);
        assert(c == cs[i as int]);
        assert(rest@ == cs.skip(i + 1));
        let ghost before = targets@;
        if !c.is_direct && conversation_invitable[i] {
            let t = InviteTarget {
                room_id: c.room_id,
                title: c.title,
                description: c.participant_label,
                is_space: false,
            };
            targets.push(t);
            assert(targets_view(targets@) =~= targets_view(before).push(target_view(t)));
        }
        i = i + 1;
    }
    let ghost after_conversations = targets_view(targets@);
    let mut rest_s = spaces;
    let mut j: usize = 0;
    let total_s = rest_s.len();
    assert(ss.skip(0) == ss);
    while rest_s.len() > 0
        invariant
            j + rest_s@.len() == ss.len(),
            ss.len() == total_s,
            rest_s@ == ss.skip(j as int),
            space_invitable@.len() == ss.len(),
            targets_view(targets@) == after_conversations + space_targets(ss, space_invitable@, j as int),
        decreases rest_s@.len(),
    {
        let sp = rest_s.remove(0);
        assert(sp == ss[j as int]);
        assert(rest_s@ == ss.skip(j + 1));
        let ghost before = targets@;
        if space_invitable[j] {
            let t = InviteTarget {
                room_id: sp.space_id,
                title: sp.name,
                description: sp.member_label,
                is_space: true,
            };
            targets.push(t);
            assert(targets_view(targets@) =~= targets_view(before).push(target_view(t)));
        }
        j = j + 1;
    }
    targets
}

// ---------------------------------------------------------------------------
// MatrixRooms.info search address
// ---------------------------------------------------------------------------

/// An unreserved URL byte: an ASCII letter or digit, or one of `-._~`.
pub open spec fn unreserved_byte(b: u8) -> bool {
    ||| 0x41 <= b <= 0x5a
    ||| 0x61 <= b <= 0x7a
    ||| 0x30 <= b <= 0x39
    ||| b == 0x2d
    ||| b == 0x2e
    ||| b == 0x5f
    ||| b == 0x7e
}

pub open spec fn hex_upper_digit(n: u8) -> char {
    if n < 10 {
        ((n as u32) + 0x30) as char
    } else {
        ((n as u32) - 10 + 0x41) as char
    }
}

/// Percent-encodes bytes: unreserved bytes stay, every other byte becomes
/// `%` and two upper-case hexadecimal digits.
pub open spec fn percent_encode(bytes: Seq<u8>) -> Seq<char>
    decreases bytes.len(),
{
    if bytes.len() == 0 {
        Seq::empty()
    } else {
        let b = bytes.last();
        let tail = if unreserved_byte(b) {
            seq![b as char]
        } else {
            seq!['%', hex_upper_digit(b / 16), hex_upper_digit(b % 16)]
        };
        percent_encode(bytes.drop_last()) + tail
    }
}

fn hex_upper(n: u8) -> (r: char)
    requires
        n < 16,
    ensures
        r == hex_upper_digit(n),
{
    if n < 10 {
        (n + 0x30) as char
    } else {
        (n - 10 + 0x41) as char
    }
}

/// Encodes one path segment of a URL (its UTF-8 bytes, percent-encoded).
pub fn encode_path_segment(value: &str) -> (r: String)
    ensures
        r@ == percent_encode(encode_utf8(value@)),
{
    let bytes = value.as_bytes();
    let mut r = String::new();
    let mut i: usize = 0;
    while i < bytes.len()
        invariant
            i <= bytes@.len(),
            bytes@ == encode_utf8(value@),
            r@ == percent_encode(bytes@.take(i as int)),
        decreases bytes.len() - i,
    {
        let b = bytes[i];
        assert(bytes@.take(i + 1).drop_last() == bytes@.take(i as int));
        assert(bytes@.take(i + 1).last() == b);
        if (0x41 <= b && b <= 0x5a) || (0x61 <= b && b <= 0x7a) || (0x30 <= b && b <= 0x39) || b
            == 0x2d || b == 0x2e || b == 0x5f || b == 0x7e {
            push_char(&mut r, b as char);
        } else {
            push_char(&mut r, '%');
            push_char(&mut r, hex_upper(b / 16));
            push_char(&mut r, hex_upper(b % 16));
        }
        i = i + 1;
    }
    assert(bytes@.take(bytes@.len() as int) == bytes@);
    r
}

/// The query sent to MatrixRooms.info: the trimmed query, or for an empty
/// one `matrix` for rooms and `space` for spaces; users are not searched.
pub open spec fn matrixrooms_query(kind: DiscoveryEntityKind, query: Seq<char>) -> Option<Seq<char>> {
    if trim_seq(query).len() > 0 {
        Some(trim_seq(query))
    } else {
        match kind {
            DiscoveryEntityKind::Room => Some("matrix"@),
            DiscoveryEntityKind::Space => Some("space"@),
            DiscoveryEntityKind::User => None,
        }
    }
}

/// The MatrixRooms.info search address for a query, a limit and an offset,
/// or `None` where nothing is searched there.
pub fn matrixrooms_info_search_url(kind: DiscoveryEntityKind, query: &str, limit: usize, offset: usize) -> (r:
    Option<String>)
    ensures
        match matrixrooms_query(kind, query@) {
            None => r is None,
            Some(q) => r is Some && r.unwrap()@ == "https://api.matrixrooms.info/search/"@
                + percent_encode(encode_utf8(q)) + "/"@ + decimal_seq(limit as nat) + "/"@
                + decimal_seq(offset as nat),
        },
{
    let q = if !is_blank(query) {
        trim(query)
    } else {
        match kind {
            DiscoveryEntityKind::Room => "matrix".to_owned(),
            DiscoveryEntityKind::Space => "space".to_owned(),
            DiscoveryEntityKind::User => {
                return None;
            },
        }
    };
    let encoded = encode_path_segment(q.as_str());
    let a = concat2("https://api.matrixrooms.info/search/", encoded.as_str());
    let b = concat2(a.as_str(), "/");
    let c = concat2(b.as_str(), decimal_string(limit as u64).as_str());
    let d = concat2(c.as_str(), "/");
    Some(concat2(d.as_str(), decimal_string(offset as u64).as_str()))
}

// ---------------------------------------------------------------------------
// Users recommended from joined rooms
// ---------------------------------------------------------------------------

/// From how many joined rooms users are recommended.
pub const MAX_USER_RECOMMENDATION_ROOMS: usize = 12;

/// Room `a` comes before room `b` in recommendation order: more recent
/// activity first, the earlier room first among equals.
pub open spec fn room_before(activities: Seq<u64>, a: usize, b: usize) -> bool {
    activities[a as int] > activities[b as int] || (activities[a as int] == activities[b as int] && a <= b)
}

/// The positions of the `count` most recently active rooms, most recent
/// first, ties in their given order.
pub fn most_recent_first(latest_activity_unix_ms: &[u64], count: usize) -> (r: Vec<usize>)
    ensures
        r@.len() == if latest_activity_unix_ms@.len() < count {
            latest_activity_unix_ms@.len()
        } else {
            count as nat
        },
        forall|i: int| 0 <= i < r@.len() ==> #[trigger] r@[i] < latest_activity_unix_ms@.len(),
        forall|i: int, j: int|
            0 <= i < j < r@.len() ==> r@[i] != r@[j] && room_before(latest_activity_unix_ms@, #[trigger] r@[i], #[trigger] r@[j]),
        forall|k: usize, i: int|
            0 <= i < r@.len() && k < latest_activity_unix_ms@.len() && !r@.contains(k) ==> #[trigger] room_before(
                latest_activity_unix_ms@,
                r@[i],
                k,
            ),
{
    let ghost acts = latest_activity_unix_ms@;
    let n = latest_activity_unix_ms.len();
    let mut order: Vec<usize> = Vec::new();
    let mut k: usize = 0;
    while k < n
        invariant
            k <= n,
            n == acts.len(),
            acts == latest_activity_unix_ms@,
            order@.len() == k,
            forall|i: int| 0 <= i < order@.len() ==> #[trigger] order@[i] < k,
            forall|i: int, j: int|
                0 <= i < j < order@.len() ==> order@[i] != order@[j] && room_before(acts, #[trigger] order@[i], #[trigger] order@[j]),
            forall|m: usize| m < k ==> order@.contains(m),
        decreases n - k,
    {
        let mut pos: usize = 0;
        while pos < order.len() && (latest_activity_unix_ms[order[pos]] >= latest_activity_unix_ms[k])
            invariant
                pos <= order@.len(),
                k < n,
                n == acts.len(),
                acts == latest_activity_unix_ms@,
                order@.len() == k,
                forall|i: int| 0 <= i < order@.len() ==> #[trigger] order@[i] < k,
                forall|i: int| 0 <= i < pos ==> acts[(#[trigger] order@[i]) as int] >= acts[k as int],
            decreases order.len() - pos,
        {
            pos = pos + 1;
        }
        let ghost before = order@;
        proof {
            assert forall|j: int| pos <= j < before.len() implies room_before(acts, k, #[trigger] before[j]) by {
                if j > pos {
                    assert(room_before(acts, before[pos as int], before[j]));
                }
            }
        }
        order.insert(pos, k);
        proof {
            assert(order@ == before.insert(pos as int, k));
            assert forall|i: int, j: int|
                0 <= i < j < order@.len() implies order@[i] != order@[j] && room_before(acts, #[trigger] order@[i], #[trigger] order@[j]) by {
                if i < pos && j == pos {
                    assert(order@[i] == before[i]);
                } else if i == pos {
                    assert(order@[j] == before[j - 1]);
                } else if j < pos {
                    assert(order@[i] == before[i] && order@[j] == before[j]);
                } else if i < pos && j > pos {
                    assert(order@[i] == before[i] && order@[j] == before[j - 1]);
                } else {
                    assert(order@[i] == before[i - 1] && order@[j] == before[j - 1]);
                }
            }
            assert forall|m: usize| m < k + 1 implies order@.contains(m) by {
                if m == k {
                    assert(order@[pos as int] == k);
                } else {
                    assert(before.contains(m));
                    let w = choose|w: int| 0 <= w < before.len() && before[w] == m;
                    if w < pos {
                        assert(order@[w] == m);
                    } else {
                        assert(order@[w + 1] == m);
                    }
                }
            }
            assert forall|i: int| 0 <= i < order@.len() implies #[trigger] order@[i] < k + 1 by {
                if i < pos {
                    assert(order@[i] == before[i]);
                } else if i > pos {
                    assert(order@[i] == before[i - 1]);
                }
            }
        }
        k = k + 1;
    }
    let ghost full = order@;
    let limit = if n < count {
        n
    } else {
        count
    };
    order.truncate(limit);
    proof {
        assert(order@ == full.take(limit as int));
        assert forall|m: usize, i: int|
            0 <= i < order@.len() && m < acts.len() && !order@.contains(m) implies #[trigger] room_before(acts, order@[i], m) by {
            assert(full.contains(m));
            let w = choose|w: int| 0 <= w < full.len() && full[w] == m;
            if w < limit {
                assert(order@[w] == m);
            }
            assert(order@[i] == full[i]);
        }
    }
    order
}

/// The rooms users are recommended from: the `MAX_USER_RECOMMENDATION_ROOMS`
/// most recently active ones, by position, most recent first, ties in
/// their given order.
pub fn recommendation_room_order(latest_activity_unix_ms: &[u64]) -> (r: Vec<usize>)
    ensures
        r@.len() == if latest_activity_unix_ms@.len() < MAX_USER_RECOMMENDATION_ROOMS {
            latest_activity_unix_ms@.len()
        } else {
            MAX_USER_RECOMMENDATION_ROOMS as nat
        },
        forall|i: int| 0 <= i < r@.len() ==> #[trigger] r@[i] < latest_activity_unix_ms@.len(),
        forall|i: int, j: int|
            0 <= i < j < r@.len() ==> r@[i] != r@[j] && room_before(latest_activity_unix_ms@, #[trigger] r@[i], #[trigger] r@[j]),
        forall|k: usize, i: int|
            0 <= i < r@.len() && k < latest_activity_unix_ms@.len() && !r@.contains(k) ==> #[trigger] room_before(
                latest_activity_unix_ms@,
                r@[i],
                k,
            ),
{
    most_recent_first(latest_activity_unix_ms, MAX_USER_RECOMMENDATION_ROOMS)
}

/// A member of a joined room.
#[derive(Debug)]
pub struct RoomMemberReport {
    pub user_id: String,
    pub display_name: Option<String>,
    pub avatar_url: Option<String>,
}

/// A joined room's title: its name, else its canonical alias, else its id.
pub fn local_room_title(name: Option<String>, canonical_alias: Option<String>, room_id: String) -> (r: String)
    ensures
        r == match name {
            Some(n) => n,
            None => match canonical_alias {
                Some(a) => a,
                None => room_id,
            },
        },
{
    match name {
        Some(n) => n,
        None => match canonical_alias {
            Some(a) => a,
            None => room_id,
        },
    }
}

/// The entity recommending a member of a joined room.
pub open spec fn member_entity(e: DiscoveryEntity, member: RoomMemberReport, room_title: Seq<char>) -> bool {
    &&& e.id@ == member.user_id@
    &&& e.kind@ == "user"@
    &&& e.title@ == match member.display_name {
        Some(n) => if trim_seq(n@).len() > 0 {
            n@
        } else {
            member.user_id@
        },
        None => member.user_id@,
    }
    &&& opt_view(e.alias) == Some(member.user_id@)
    &&& opt_view(e.description) == Some("Member of "@ + room_title)
    &&& e.avatar_url == member.avatar_url
    &&& e.member_count is None
    &&& e.join_rule is None
    &&& e.world_readable is None
    &&& e.source@ == "joined"@
    &&& !e.already_joined
    &&& e.parent_space_labels@.len() == 0
    &&& e.via@.len() == 0
}

/// The recommendation for a member of a joined room.
pub fn recommend_member(member: RoomMemberReport, room_title: &str) -> (r: DiscoveryEntity)
    ensures
        member_entity(r, member, room_title@),
{
    let title = match &member.display_name {
        Some(n) => if is_blank(n.as_str()) {
            member.user_id.clone()
        } else {
            n.clone()
        },
        None => member.user_id.clone(),
    };
    DiscoveryEntity {
        id: member.user_id.clone(),
        kind: "user".to_owned(),
        title,
        alias: Some(member.user_id.clone()),
        description: Some(concat2("Member of ", room_title)),
        avatar_url: member.avatar_url,
        member_count: None,
        join_rule: None,
        world_readable: None,
        source: "joined".to_owned(),
        already_joined: false,
        parent_space_labels: Vec::new(),
        via: Vec::new(),
    }
}

/// The user ids of some members.
pub open spec fn member_ids(members: Seq<(String, RoomMemberReport)>) -> Seq<Seq<char>> {
    Seq::new(members.len(), |i: int| members[i].1.user_id@)
}

/// The members recommended, in order, each with its room's title: every
/// user once (at its first appearance), this account never.
pub open spec fn fresh_members(own_user_id: Option<Seq<char>>, members: Seq<(String, RoomMemberReport)>) -> Seq<
    (String, RoomMemberReport),
>
    decreases members.len(),
{
    if members.len() == 0 {
        Seq::empty()
    } else {
        let prev = fresh_members(own_user_id, members.drop_last());
        let m = members.last();
        if own_user_id == Some(m.1.user_id@) || member_ids(prev).contains(m.1.user_id@) {
            prev
        } else {
            prev.push(m)
        }
    }
}

/// Recommends the members of the joined rooms, given in room order, each
/// with its room's title: every user once, this account never; then skips
/// `offset` and keeps at most `limit`.
pub fn recommend_joined_room_users(
    own_user_id: Option<&str>,
    members: Vec<(String, RoomMemberReport)>,
    limit: usize,
    offset: usize,
) -> (r: Vec<DiscoveryEntity>)
    ensures
        ({
            let f = fresh_members(
                match own_user_id {
                    Some(o) => Some(o@),
                    None => None,
                },
                members@,
            );
            &&& r@.len() == if offset >= f.len() {
                0
            } else if f.len() - offset <= limit {
                f.len() - offset
            } else {
                limit as int
            }
            &&& forall|i: int|
                0 <= i < r@.len() ==> member_entity(#[trigger] r@[i], f[offset + i].1, f[offset + i].0@)
        }),
{
    let ghost own: Option<Seq<char>> = match own_user_id {
        Some(o) => Some(o@),
        None => None,
    };
    let ghost all = members@;
    let total: usize = members.len();
    let mut rest = members;
    let mut taken: usize = 0;
    let mut fresh: Vec<(String, RoomMemberReport)> = Vec::new();
    let mut seen: Vec<String> = Vec::new();
    assert(rest@ == all.skip(0));
    while rest.len() > 0
        invariant
            taken + rest@.len() == all.len(),
            all.len() == total,
            rest@ == all.skip(taken as int),
            own == match own_user_id {
                Some(o) => Some(o@),
                None => None,
            },
            fresh@ == fresh_members(own, all.take(taken as int)),
            strings_view(seen@) == member_ids(fresh@),
        decreases rest.len(),
    {
        let m = rest.remove(0);
        assert(all.take(taken + 1).drop_last() == all.take(taken as int));
        assert(all.take(taken + 1).last() == m);
        let is_own = match own_user_id {
            Some(o) => str_eq(o, m.1.user_id.as_str()),
            None => false,
        };
        let known = contains_string(&seen, m.1.user_id.as_str());
        proof {
            if holds_id(seen@, m.1.user_id@) {
                let k = choose|k: int| 0 <= k < seen@.len() && (#[trigger] seen@[k])@ == m.1.user_id@;
                assert(strings_view(seen@)[k] == m.1.user_id@);
                assert(member_ids(fresh@).contains(m.1.user_id@));
            }
            if member_ids(fresh@).contains(m.1.user_id@) {
                let k = choose|k: int| 0 <= k < member_ids(fresh@).len() && member_ids(fresh@)[k] == m.1.user_id@;
                assert(strings_view(seen@)[k] == seen@[k]@);
            }
        }
        if !is_own && !known {
            let ghost before = fresh@;
            let ghost before_seen = seen@;
            seen.push(m.1.user_id.clone());
            fresh.push(m);
            assert(strings_view(seen@) == strings_view(before_seen).push(m.1.user_id@));
            assert(member_ids(fresh@) =~= member_ids(before).push(m.1.user_id@));
        }
        taken = taken + 1;
        assert(rest@ == all.skip(taken as int));
    }
    assert(all.take(all.len() as int) == all);
    let ghost f = fresh@;
    let mut out: Vec<DiscoveryEntity> = Vec::new();
    let mut i = offset;
    while i < fresh.len() && out.len() < limit
        invariant
            offset <= i,
            fresh@ == f,
            out@.len() == i - offset,
            out@.len() <= limit,
            i <= f.len() || i == offset,
            forall|k: int| 0 <= k < out@.len() ==> member_entity(#[trigger] out@[k], f[offset + k].1, f[offset + k].0@),
        decreases f.len() - i,
    {
        let (title, member) = (&fresh[i].0, &fresh[i].1);
        let copy = RoomMemberReport {
            user_id: member.user_id.clone(),
            display_name: clone_opt_string(&member.display_name),
            avatar_url: clone_opt_string(&member.avatar_url),
        };
        let e = recommend_member(copy, title.as_str());
        out.push(e);
        i = i + 1;
    }
    out
}

/// Recommended users are distinct, and this account is never among them.
pub proof fn lemma_fresh_members(own_user_id: Option<Seq<char>>, members: Seq<(String, RoomMemberReport)>)
    ensures
        forall|i: int, j: int|
            0 <= i < j < fresh_members(own_user_id, members).len() ==> member_ids(fresh_members(own_user_id, members))[i]
                != member_ids(fresh_members(own_user_id, members))[j],
        forall|i: int|
            0 <= i < fresh_members(own_user_id, members).len() ==> own_user_id != Some(
                (#[trigger] fresh_members(own_user_id, members)[i]).1.user_id@,
            ),
    decreases members.len(),
{
    if members.len() > 0 {
        lemma_fresh_members(own_user_id, members.drop_last());
        let prev = fresh_members(own_user_id, members.drop_last());
        let all = fresh_members(own_user_id, members);
        let m = members.last();
        if !(own_user_id == Some(m.1.user_id@) || member_ids(prev).contains(m.1.user_id@)) {
            assert(all == prev.push(m));
            assert forall|i: int, j: int| 0 <= i < j < all.len() implies member_ids(all)[i] != member_ids(all)[j] by {
                assert(member_ids(all)[i] == member_ids(prev)[i]);
                if j < prev.len() {
                    assert(member_ids(all)[j] == member_ids(prev)[j]);
                }
            }
            assert forall|i: int| 0 <= i < all.len() implies own_user_id != Some((#[trigger] all[i]).1.user_id@) by {
                if i < prev.len() {
                    assert(all[i] == prev[i]);
                }
            }
        }
    }
}

// ---------------------------------------------------------------------------
// Search pipeline
// ---------------------------------------------------------------------------

/// The MatrixRooms.info entries that are shown, in order, each mapped.
pub open spec fn shown_entries(
    kind: DiscoveryEntityKind,
    entries: Seq<MatrixRoomsInfoEntry>,
    joined_rooms: Seq<String>,
    joined_spaces: Seq<String>,
) -> Seq<MatrixRoomsInfoEntry>
    decreases entries.len(),
{
    if entries.len() == 0 {
        Seq::empty()
    } else {
        let prev = shown_entries(kind, entries.drop_last(), joined_rooms, joined_spaces);
        if entry_is_shown(kind, entries.last(), joined_rooms, joined_spaces) {
            prev.push(entries.last())
        } else {
            prev
        }
    }
}

/// The entities of a MatrixRooms.info answer: each entry that is shown,
/// mapped, in order.
pub fn matrixrooms_info_entities(
    kind: DiscoveryEntityKind,
    entries: Vec<MatrixRoomsInfoEntry>,
    joined_rooms: &[String],
    joined_spaces: &[String],
) -> (r: Vec<DiscoveryEntity>)
    ensures
        r@.len() == shown_entries(kind, entries@, joined_rooms@, joined_spaces@).len(),
        forall|i: int|
            0 <= i < r@.len() ==> matrixrooms_entity(
                #[trigger] r@[i],
                shown_entries(kind, entries@, joined_rooms@, joined_spaces@)[i],
            ),
{
    let ghost all = entries@;
    let total: usize = entries.len();
    let mut rest = entries;
    let mut taken: usize = 0;
    let mut out: Vec<DiscoveryEntity> = Vec::new();
    assert(rest@ == all.skip(0));
    while rest.len() > 0
        invariant
            taken + rest@.len() == all.len(),
            all.len() == total,
            rest@ == all.skip(taken as int),
            out@.len() == shown_entries(kind, all.take(taken as int), joined_rooms@, joined_spaces@).len(),
            forall|i: int|
                0 <= i < out@.len() ==> matrixrooms_entity(
                    #[trigger] out@[i],
                    shown_entries(kind, all.take(taken as int), joined_rooms@, joined_spaces@)[i],
                ),
        decreases rest.len(),
    {
        let entry = rest.remove(0);
        assert(all.take(taken + 1).drop_last() == all.take(taken as int));
        assert(all.take(taken + 1).last() == entry);
        let ghost prev = shown_entries(kind, all.take(taken as int), joined_rooms@, joined_spaces@);
        let ghost e0 = entry;
        match map_matrixrooms_info_entry(kind, entry, joined_rooms, joined_spaces) {
            Some(e) => {
                let ghost before = out@;
                out.push(e);
                assert forall|i: int| 0 <= i < out@.len() implies matrixrooms_entity(
                    #[trigger] out@[i],
                    shown_entries(kind, all.take(taken + 1), joined_rooms@, joined_spaces@)[i],
                ) by {
                    if i < before.len() {
                        assert(out@[i] == before[i]);
                        assert(shown_entries(kind, all.take(taken + 1), joined_rooms@, joined_spaces@)[i] == prev[i]);
                    } else {
                        assert(shown_entries(kind, all.take(taken + 1), joined_rooms@, joined_spaces@)[i] == e0);
                    }
                }
            },
            None => {},
        }
        taken = taken + 1;
        assert(rest@ == all.skip(taken as int));
    }
    assert(all.take(all.len() as int) == all);
    out
}

/// The public directory entries that are shown after `offset`: each not
/// joined yet, in order.
pub open spec fn shown_descriptions(descriptions: Seq<PublicRoomDescription>, joined_rooms: Seq<String>) -> Seq<
    PublicRoomDescription,
>
    decreases descriptions.len(),
{
    if descriptions.len() == 0 {
        Seq::empty()
    } else {
        let prev = shown_descriptions(descriptions.drop_last(), joined_rooms);
        if !holds_id(joined_rooms, descriptions.last().room_id@) {
            prev.push(descriptions.last())
        } else {
            prev
        }
    }
}

/// The entities of a public room directory page: after skipping `offset`
/// entries, those not joined yet, mapped, at most `limit`.
pub fn public_directory_entities(
    kind: DiscoveryEntityKind,
    descriptions: Vec<PublicRoomDescription>,
    joined_rooms: &[String],
    limit: usize,
    offset: usize,
) -> (r: Vec<DiscoveryEntity>)
    ensures
        ({
            let shown = shown_descriptions(
                if offset < descriptions@.len() {
                    descriptions@.skip(offset as int)
                } else {
                    Seq::empty()
                },
                joined_rooms@,
            );
            &&& r@.len() == if shown.len() < limit {
                shown.len()
            } else {
                limit as nat
            }
            &&& forall|i: int| 0 <= i < r@.len() ==> public_room_entity(#[trigger] r@[i], kind, shown[i])
        }),
{
    let ghost after = if offset < descriptions@.len() {
        descriptions@.skip(offset as int)
    } else {
        Seq::<PublicRoomDescription>::empty()
    };
    let mut rest = descriptions;
    let mut skipped: usize = 0;
    while skipped < offset && rest.len() > 0
        invariant
            skipped <= offset,
            rest@ == if skipped < descriptions@.len() {
                descriptions@.skip(skipped as int)
            } else {
                Seq::<PublicRoomDescription>::empty()
            },
            skipped <= descriptions@.len(),
        decreases offset - skipped,
    {
        rest.remove(0);
        skipped = skipped + 1;
        assert(rest@ =~= if skipped < descriptions@.len() {
            descriptions@.skip(skipped as int)
        } else {
            Seq::<PublicRoomDescription>::empty()
        });
    }
    assert(rest@ == after);
    let ghost all = rest@;
    let total: usize = rest.len();
    let mut taken: usize = 0;
    let mut out: Vec<DiscoveryEntity> = Vec::new();
    assert(rest@ == all.skip(0));
    while rest.len() > 0 && out.len() < limit
        invariant
            taken + rest@.len() == all.len(),
            all.len() == total,
            all == after,
            rest@ == all.skip(taken as int),
            out@.len() <= limit,
            out@.len() == shown_descriptions(all.take(taken as int), joined_rooms@).len(),
            forall|i: int|
                0 <= i < out@.len() ==> public_room_entity(
                    #[trigger] out@[i],
                    kind,
                    shown_descriptions(all.take(taken as int), joined_rooms@)[i],
                ),
        decreases rest.len(),
    {
        let d = rest.remove(0);
        assert(all.take(taken + 1).drop_last() == all.take(taken as int));
        assert(all.take(taken + 1).last() == d);
        let ghost prev = shown_descriptions(all.take(taken as int), joined_rooms@);
        let ghost d0 = d;
        match map_public_room_description(kind, d, joined_rooms) {
            Some(e) => {
                let ghost before = out@;
                out.push(e);
                assert forall|i: int| 0 <= i < out@.len() implies public_room_entity(
                    #[trigger] out@[i],
                    kind,
                    shown_descriptions(all.take(taken + 1), joined_rooms@)[i],
                ) by {
                    if i < before.len() {
                        assert(out@[i] == before[i]);
                        assert(shown_descriptions(all.take(taken + 1), joined_rooms@)[i] == prev[i]);
                    } else {
                        assert(shown_descriptions(all.take(taken + 1), joined_rooms@)[i] == d0);
                    }
                }
            },
            None => {},
        }
        taken = taken + 1;
        assert(rest@ == all.skip(taken as int));
    }
    proof {
        lemma_shown_descriptions_prefix(all, joined_rooms@, taken as int);
        if rest@.len() == 0 {
            assert(all.take(taken as int) == all);
        }
    }
    out
}

proof fn lemma_shown_descriptions_prefix(all: Seq<PublicRoomDescription>, joined: Seq<String>, n: int)
    requires
        0 <= n <= all.len(),
    ensures
        shown_descriptions(all.take(n), joined).len() <= shown_descriptions(all, joined).len(),
        forall|i: int|
            0 <= i < shown_descriptions(all.take(n), joined).len() ==> #[trigger] shown_descriptions(
                all.take(n),
                joined,
            )[i] == shown_descriptions(all, joined)[i],
    decreases all.len() - n,
{
    if n < all.len() {
        lemma_shown_descriptions_prefix(all, joined, n + 1);
        let next = all.take(n + 1);
        assert(next.drop_last() == all.take(n));
        let short = shown_descriptions(all.take(n), joined);
        let long = shown_descriptions(next, joined);
        assert(short.len() <= long.len());
        assert forall|i: int| 0 <= i < short.len() implies #[trigger] short[i] == shown_descriptions(
            all,
            joined,
        )[i] by {
            assert(short[i] == long[i]);
        }
    } else {
        assert(all.take(n) == all);
    }
}

/// The search term sent to the public room directory: the trimmed query,
/// none when blank.
pub fn public_directory_search_term(query: &str) -> (r: Option<String>)
    ensures
        opt_view(r) == if trim_seq(query@).len() > 0 {
            Some(trim_seq(query@))
        } else {
            None
        },
{
    if is_blank(query) {
        None
    } else {
        Some(trim(query))
    }
}

/// How many directory entries to ask for: the page and what it skips, at
/// most `u32::MAX`.
pub fn public_directory_request_limit(limit: usize, offset: usize) -> (r: u32)
    requires
        limit + offset <= usize::MAX,
    ensures
        r == if limit + offset > u32::MAX {
            u32::MAX
        } else {
            (limit + offset) as u32
        },
{
    let n = limit + offset;
    if n > 4294967295 {
        4294967295
    } else {
        n as u32
    }
}

/// What a discovery search does: for users, recommend members of joined
/// rooms when the query is blank, else ask the homeserver's user
/// directory; for rooms and spaces, ask MatrixRooms.info and the public
/// room directory as the source allows.
#[derive(Debug, Clone, Copy, PartialEq, Eq, Structural)]
pub enum DiscoverySearchPlan {
    RecommendJoinedRoomUsers,
    SearchUserDirectory,
    SearchRooms { matrixrooms_info: bool, homeserver: bool },
}

/// The plan of a discovery search.
pub fn discovery_search_plan(kind: DiscoveryEntityKind, query: &str, source: Option<DiscoverySource>) -> (r:
    DiscoverySearchPlan)
    ensures
        r == if kind == DiscoveryEntityKind::User {
            if trim_seq(query@).len() == 0 {
                DiscoverySearchPlan::RecommendJoinedRoomUsers
            } else {
                DiscoverySearchPlan::SearchUserDirectory
            }
        } else {
            let s = match source {
                Some(s) => s,
                None => DiscoverySource::All,
            };
            DiscoverySearchPlan::SearchRooms {
                matrixrooms_info: s == DiscoverySource::All || s == DiscoverySource::MatrixRoomsInfo,
                homeserver: s == DiscoverySource::All || s == DiscoverySource::Homeserver,
            }
        },
{
    if kind == DiscoveryEntityKind::User {
        if is_blank(query) {
            return DiscoverySearchPlan::RecommendJoinedRoomUsers;
        }
        return DiscoverySearchPlan::SearchUserDirectory;
    }
    let s = match source {
        Some(s) => s,
        None => DiscoverySource::All,
    };
    DiscoverySearchPlan::SearchRooms {
        matrixrooms_info: s == DiscoverySource::All || s == DiscoverySource::MatrixRoomsInfo,
        homeserver: s == DiscoverySource::All || s == DiscoverySource::Homeserver,
    }
}

} // verus!
