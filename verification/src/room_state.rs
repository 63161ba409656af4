//! Per-room state that the room list shows: which event each room was read
//! up to on this device, unread counts, participant and homeserver labels,
//! and the message shown when older messages fail to load.
use vstd::prelude::*;

use crate::account::without_trailing_slashes;
use crate::cache_state::ShellCacheState;
use crate::discovery::{most_recent_first, room_before, RoomThreadSummary, SpaceSummary};
use crate::search::{first_visible_grapheme, matches_query, relative_time, relative_time_label};
use crate::text::{
    chars_of, concat2, concat3, decimal_seq, decimal_string, is_blank, opt_view, seq_contains,
    starts_with, starts_with_chars, str_contains, str_eq, string_from_range, trim, trim_seq,
    unicode_lowercase, unicode_uppercase,
};
use crate::timeline::clone_opt_string;

verus! {

broadcast use vstd::seq_lib::group_seq_properties;

// ---------------------------------------------------------------------------
// Read state
// ---------------------------------------------------------------------------

/// The key of a room's local state: the account key, `::`, the room id.
pub open spec fn local_room_state_key_spec(account_key: Seq<char>, room_id: Seq<char>) -> Seq<char> {
    account_key + "::"@ + room_id
}

/// The key of a room's local state.
pub fn local_room_state_key(account_key: &str, room_id: &str) -> (r: String)
    ensures
        r@ == local_room_state_key_spec(account_key@, room_id@),
{
    concat3(account_key, "::", room_id)
}

/// The event read last on this device, per room key.
pub open spec fn read_event_of(entries: Seq<(String, String)>, key: Seq<char>) -> Option<Seq<char>>
    decreases entries.len(),
{
    if entries.len() == 0 {
        None
    } else if entries.last().0@ == key {
        Some(entries.last().1@)
    } else {
        read_event_of(entries.drop_last(), key)
    }
}

/// The event each room was read up to on this device.
#[derive(Debug)]
pub struct LocallyReadRooms {
    entries: Vec<(String, String)>,
}

impl View for LocallyReadRooms {
    type V = Map<Seq<char>, Seq<char>>;

    closed spec fn view(&self) -> Map<Seq<char>, Seq<char>> {
        Map::new(|k: Seq<char>| read_event_of(self.entries@, k) is Some, |k: Seq<char>| read_event_of(self.entries@, k).unwrap())
    }
}

impl LocallyReadRooms {
    /// No room read yet.
    pub fn new() -> (r: Self)
        ensures
            r@ == Map::<Seq<char>, Seq<char>>::empty(),
    {
        let r = LocallyReadRooms { entries: Vec::new() };
        assert(r@ =~= Map::<Seq<char>, Seq<char>>::empty());
        r
    }

    /// Records that the room was read up to the event.
    pub fn mark_room_read_locally(&mut self, account_key: &str, room_id: &str, event_id: &str)
        ensures
            final(self)@ == old(self)@.insert(local_room_state_key_spec(account_key@, room_id@), event_id@),
    {
        let key = local_room_state_key(account_key, room_id);
        let ghost k = key@;
        self.entries.push((key, event_id.to_owned()));
        assert(self.entries@.drop_last() == old(self).entries@);
        assert(self@ =~= old(self)@.insert(k, event_id@));
    }

    /// The event the room was read up to on this device, if any.
    pub fn read_event(&self, account_key: &str, room_id: &str) -> (r: Option<String>)
        ensures
            opt_view(r) == if self@.contains_key(local_room_state_key_spec(account_key@, room_id@)) {
                Some(self@[local_room_state_key_spec(account_key@, room_id@)])
            } else {
                None
            },
    {
        let key = local_room_state_key(account_key, room_id);
        let mut i = self.entries.len();
        assert(self.entries@.take(i as int) == self.entries@);
        while i > 0
            invariant
                i <= self.entries@.len(),
                key@ == local_room_state_key_spec(account_key@, room_id@),
                read_event_of(self.entries@, key@) == read_event_of(self.entries@.take(i as int), key@),
            decreases i,
        {
            assert(self.entries@.take(i as int).drop_last() == self.entries@.take(i - 1));
            assert(self.entries@.take(i as int).last() == self.entries@[i - 1]);
            if str_eq(self.entries[i - 1].0.as_str(), key.as_str()) {
                let e = self.entries[i - 1].1.clone();
                assert(read_event_of(self.entries@.take(i as int), key@) == Some(self.entries@[i - 1].1@));
                assert(e@ == self.entries@[i - 1].1@);
                return Some(e);
            }
            i = i - 1;
        }
        None
    }
}

/// The event a room counts as read up to: the read receipt stored with the
/// room when it is the latest event, else the local mark when that is the
/// latest event, else the stored receipt, else the local mark.
pub open spec fn read_anchor(
    local: Option<Seq<char>>,
    persisted: Option<Seq<char>>,
    latest: Option<Seq<char>>,
) -> Option<Seq<char>> {
    if latest is Some && persisted == latest {
        persisted
    } else if latest is Some && local == latest {
        local
    } else if persisted is Some {
        persisted
    } else {
        local
    }
}

/// The event a room counts as read up to.
pub fn read_anchor_event_id(
    local_anchor_event_id: Option<String>,
    persisted_anchor_event_id: Option<String>,
    current_latest_event_id: &Option<String>,
) -> (r: Option<String>)
    ensures
        opt_view(r) == read_anchor(
            opt_view(local_anchor_event_id),
            opt_view(persisted_anchor_event_id),
            opt_view(*current_latest_event_id),
        ),
{
    if current_latest_event_id.is_some() && crate::paging::opt_string_eq(
        &persisted_anchor_event_id,
        current_latest_event_id,
    ) {
        return persisted_anchor_event_id;
    }
    if current_latest_event_id.is_some() && crate::paging::opt_string_eq(&local_anchor_event_id, current_latest_event_id) {
        return local_anchor_event_id;
    }
    match persisted_anchor_event_id {
        Some(p) => Some(p),
        None => local_anchor_event_id,
    }
}

/// How a room's unread count is found: it is known, it is counted from the
/// events after the read anchor, or the SDK's count is used.
#[derive(Debug)]
pub enum UnreadCountStep {
    Known { count: u64 },
    CountSince { anchor_event_id: String },
    UseSdkCount,
}

/// The first step of a room's unread count: none unread when the latest
/// event is this account's own or is the read anchor, or when there is an
/// anchor but no latest event; the SDK's count without an anchor; else a
/// count of the events after the anchor.
pub fn unread_count_step(
    latest_event_is_own: bool,
    read_anchor_event_id: Option<String>,
    latest_event_id: Option<String>,
) -> (r: UnreadCountStep)
    ensures
        latest_event_is_own ==> (r matches UnreadCountStep::Known { count } && count == 0),
        !latest_event_is_own ==> match read_anchor_event_id {
            None => r is UseSdkCount,
            Some(anchor) => match latest_event_id {
                None => (r matches UnreadCountStep::Known { count } && count == 0),
                Some(latest) => if latest@ == anchor@ {
                    (r matches UnreadCountStep::Known { count } && count == 0)
                } else {
                    (r matches UnreadCountStep::CountSince { anchor_event_id } && anchor_event_id == anchor)
                },
            },
        },
{
    if latest_event_is_own {
        return UnreadCountStep::Known { count: 0 };
    }
    let anchor = match read_anchor_event_id {
        None => {
            return UnreadCountStep::UseSdkCount;
        },
        Some(a) => a,
    };
    let latest = match latest_event_id {
        None => {
            return UnreadCountStep::Known { count: 0 };
        },
        Some(l) => l,
    };
    if str_eq(latest.as_str(), anchor.as_str()) {
        return UnreadCountStep::Known { count: 0 };
    }
    UnreadCountStep::CountSince { anchor_event_id: anchor }
}

/// The unread count after counting the events after the anchor: at least
/// one when they could be counted, else the SDK's count.
pub fn unread_count_after_local_count(local_unread_count: Option<u64>, sdk_unread_count: u64) -> (r: u64)
    ensures
        r == match local_unread_count {
            Some(c) => if c > 1 {
                c
            } else {
                1
            },
            None => sdk_unread_count,
        },
{
    match local_unread_count {
        Some(c) => if c > 1 {
            c
        } else {
            1
        },
        None => sdk_unread_count,
    }
}

/// The SDK's unread count of a room: its unread messages, else its unread
/// notifications, else one for a room marked unread, else none.
pub fn unread_message_count(unread_messages: u64, unread_notifications: u64, is_marked_unread: bool) -> (r: u64)
    ensures
        r == if unread_messages > 0 {
            unread_messages
        } else if unread_notifications > 0 {
            unread_notifications
        } else if is_marked_unread {
            1
        } else {
            0
        },
{
    if unread_messages > 0 {
        return unread_messages;
    }
    if unread_notifications > 0 {
        return unread_notifications;
    }
    if is_marked_unread {
        return 1;
    }
    0
}

// ---------------------------------------------------------------------------
// Labels
// ---------------------------------------------------------------------------

/// The title a room is listed under: its explicit name, trimmed, when it is
/// not blank; else the cached display name, else the computed display name,
/// each when not blank; else its canonical alias; else its id.
pub open spec fn room_title_spec(
    name: Option<Seq<char>>,
    cached_display_name: Option<Seq<char>>,
    display_name: Option<Seq<char>>,
    canonical_alias: Option<Seq<char>>,
    room_id: Seq<char>,
) -> Seq<char> {
    if name is Some && trim_seq(name->0).len() > 0 {
        trim_seq(name->0)
    } else if cached_display_name is Some && trim_seq(cached_display_name->0).len() > 0 {
        cached_display_name->0
    } else if display_name is Some && trim_seq(display_name->0).len() > 0 {
        display_name->0
    } else {
        match canonical_alias {
            Some(a) => a,
            None => room_id,
        }
    }
}

/// Chooses a room's title from its name, display names, alias and id.
pub fn room_title(
    name: Option<&str>,
    cached_display_name: Option<&str>,
    display_name: Option<&str>,
    canonical_alias: Option<&str>,
    room_id: &str,
) -> (r: String)
    ensures
        r@ == room_title_spec(
            match name {
                Some(n) => Some(n@),
                None => None,
            },
            match cached_display_name {
                Some(n) => Some(n@),
                None => None,
            },
            match display_name {
                Some(n) => Some(n@),
                None => None,
            },
            match canonical_alias {
                Some(n) => Some(n@),
                None => None,
            },
            room_id@,
        ),
{
    if let Some(n) = name {
        let trimmed = trim(n);
        if !trimmed.as_str().is_empty() {
            return trimmed;
        }
    }
    if let Some(c) = cached_display_name {
        if !is_blank(c) {
            return c.to_owned();
        }
    }
    if let Some(d) = display_name {
        if !is_blank(d) {
            return d.to_owned();
        }
    }
    match canonical_alias {
        Some(a) => a.to_owned(),
        None => room_id.to_owned(),
    }
}

/// The letter shown for a title: its first visible character, upper-cased.
pub open spec fn accent_of(title: Seq<char>) -> Option<Seq<char>> {
    if trim_seq(title).len() > 0 {
        Some(unicode_uppercase(trim_seq(title)[0]))
    } else {
        None
    }
}

/// The text shown under a room: its latest message, else its topic, else
/// nothing.
pub open spec fn room_preview_spec(latest_preview: Option<String>, topic: Option<String>) -> Seq<char> {
    match latest_preview {
        Some(p) => p@,
        None => match topic {
            Some(t) => t@,
            None => Seq::empty(),
        },
    }
}

/// The homeserver label of `homeserver_label`, as a value.
pub open spec fn homeserver_label_spec(server_name: Option<Seq<char>>, fallback_homeserver_url: Seq<char>) -> Seq<char> {
    match server_name {
        Some(s) => s,
        None => without_trailing_slashes(
            without_leading(without_leading(fallback_homeserver_url, "https://"@), "http://"@),
        ),
    }
}

/// The room list's summary of a conversation, from what the client knows
/// of it.
pub fn room_thread_summary(
    room_id: String,
    title: String,
    is_direct: bool,
    active_members_count: u64,
    latest_preview: Option<String>,
    topic: Option<String>,
    last_activity_unix_ms: u64,
    now_unix_ms: u64,
    message_count: u64,
    unread_count: u64,
    server_name: Option<&str>,
    fallback_homeserver_url: &str,
) -> (r: RoomThreadSummary)
    ensures
        r.room_id == room_id,
        r.title == title,
        r.preview@ == room_preview_spec(latest_preview, topic),
        r.participant_label@ == if is_direct {
            "Direct chat"@
        } else {
            decimal_seq(active_members_count as nat) + " members"@
        },
        r.last_activity_unix_ms == last_activity_unix_ms,
        r.last_activity_label@ == relative_time(last_activity_unix_ms, now_unix_ms),
        r.message_count == message_count,
        r.unread_count == unread_count,
        r.homeserver_label@ == homeserver_label_spec(
            match server_name {
                Some(s) => Some(s@),
                None => None,
            },
            fallback_homeserver_url@,
        ),
        opt_view(r.avatar_label) == accent_of(title@),
        r.is_direct == is_direct,
{
    let preview = match latest_preview {
        Some(p) => p,
        None => match topic {
            Some(t) => t,
            None => String::new(),
        },
    };
    let avatar_label = first_visible_grapheme(title.as_str());
    RoomThreadSummary {
        room_id,
        title,
        preview,
        participant_label: participant_label(is_direct, active_members_count),
        last_activity_unix_ms,
        last_activity_label: relative_time_label(last_activity_unix_ms, now_unix_ms),
        message_count,
        unread_count,
        homeserver_label: homeserver_label(server_name, fallback_homeserver_url),
        avatar_label,
        is_direct,
    }
}

/// The space list's summary of a space, from what the client knows of it.
pub fn space_summary(
    space_id: String,
    name: String,
    topic: Option<String>,
    active_members_count: u64,
    activity_timestamp: u64,
    now_unix_ms: u64,
    server_name: Option<&str>,
    fallback_homeserver_url: &str,
) -> (r: SpaceSummary)
    ensures
        r.space_id == space_id,
        r.name == name,
        r.description@ == match topic {
            Some(t) => t@,
            None => Seq::<char>::empty(),
        },
        r.member_label@ == decimal_seq(active_members_count as nat) + " members"@,
        r.activity_label@ == relative_time(activity_timestamp, now_unix_ms),
        opt_view(r.accent_label) == accent_of(name@),
        r.is_official == Some(
            match server_name {
                Some(s) => seq_contains(fallback_homeserver_url@, s@),
                None => false,
            },
        ),
{
    let description = match topic {
        Some(t) => t,
        None => String::new(),
    };
    let accent_label = first_visible_grapheme(name.as_str());
    SpaceSummary {
        space_id,
        name,
        description,
        member_label: concat2(decimal_string(active_members_count).as_str(), " members"),
        activity_label: space_activity_label(activity_timestamp, now_unix_ms),
        accent_label,
        is_official: Some(space_matches_homeserver(server_name, fallback_homeserver_url)),
    }
}

/// `Direct chat` for a direct room, else its number of active members.
pub fn participant_label(is_direct: bool, active_members_count: u64) -> (r: String)
    ensures
        r@ == if is_direct {
            "Direct chat"@
        } else {
            decimal_seq(active_members_count as nat) + " members"@
        },
{
    if is_direct {
        "Direct chat".to_owned()
    } else {
        concat2(decimal_string(active_members_count).as_str(), " members")
    }
}

/// The text with every leading copy of `prefix` removed.
pub open spec fn without_leading(s: Seq<char>, prefix: Seq<char>) -> Seq<char>
    decreases s.len(),
{
    if prefix.len() > 0 && starts_with(s, prefix) {
        without_leading(s.skip(prefix.len() as int), prefix)
    } else {
        s
    }
}

fn strip_leading(s: &str, prefix: &str) -> (r: String)
    ensures
        r@ == without_leading(s@, prefix@),
{
    let v = chars_of(s);
    let p = chars_of(prefix);
    let mut i: usize = 0;
    assert(v@.skip(0) == v@);
    while p.len() > 0 && i <= v.len() && starts_with_chars(&crate::rich_text::subvec(&v, i, v.len()), &p)
        invariant
            i <= v@.len(),
            p@ == prefix@,
            without_leading(v@, p@) == without_leading(v@.skip(i as int), p@),
        decreases v.len() - i,
    {
        assert(v@.subrange(i as int, v@.len() as int) == v@.skip(i as int));
        assert(v@.skip(i as int).skip(p@.len() as int) == v@.skip(i + p@.len()));
        i = i + p.len();
    }
    assert(v@.subrange(i as int, v@.len() as int) == v@.skip(i as int));
    string_from_range(&v, i, v.len())
}

/// The homeserver shown for a room: the server of its id, else the
/// fallback homeserver URL without its scheme and trailing slashes.
pub fn homeserver_label(server_name: Option<&str>, fallback_homeserver_url: &str) -> (r: String)
    ensures
        r@ == match server_name {
            Some(s) => s@,
            None => without_trailing_slashes(
                without_leading(without_leading(fallback_homeserver_url@, "https://"@), "http://"@),
            ),
        },
{
    match server_name {
        Some(s) => s.to_owned(),
        None => {
            let a = strip_leading(fallback_homeserver_url, "https://");
            let b = strip_leading(a.as_str(), "http://");
            crate::account::client_homeserver_url(b.as_str())
        },
    }
}

/// Whether a space belongs to the homeserver: its id names a server that
/// the homeserver URL holds.
pub fn space_matches_homeserver(server_name: Option<&str>, fallback_homeserver_url: &str) -> (r: bool)
    ensures
        r == match server_name {
            Some(s) => seq_contains(fallback_homeserver_url@, s@),
            None => false,
        },
{
    match server_name {
        Some(s) => str_contains(fallback_homeserver_url, s),
        None => false,
    }
}

/// The activity label of a space, `now_unix_ms` being the current time.
pub fn space_activity_label(activity_timestamp: u64, now_unix_ms: u64) -> (r: String)
    ensures
        r@ == crate::search::relative_time(activity_timestamp, now_unix_ms),
{
    if activity_timestamp == 0 {
        return "No recent activity".to_owned();
    }
    crate::search::relative_time_label(activity_timestamp, now_unix_ms)
}

/// The class of a room's latest message, as its preview sees it.
#[derive(Debug)]
pub enum LatestMessageReport {
    Text { body: String },
    Notice { body: String },
    Emote { body: String },
    Other,
}

/// The preview text of a room's latest message: the body of a text,
/// notice or emote; none for others.
pub fn message_preview(message: LatestMessageReport) -> (r: Option<String>)
    ensures
        r == match message {
            LatestMessageReport::Text { body } => Some(body),
            LatestMessageReport::Notice { body } => Some(body),
            LatestMessageReport::Emote { body } => Some(body),
            LatestMessageReport::Other => None::<String>,
        },
{
    match message {
        LatestMessageReport::Text { body } => Some(body),
        LatestMessageReport::Notice { body } => Some(body),
        LatestMessageReport::Emote { body } => Some(body),
        LatestMessageReport::Other => None,
    }
}

/// The message shown when older messages fail to load: a wait-and-retry
/// hint when the homeserver limited the rate (as the error's typed source
/// says), else the error's text.
pub fn pagination_error(is_rate_limited: bool, error_text: &str) -> (r: String)
    ensures
        r@ == if is_rate_limited {
            "Older messages are temporarily rate limited. Please wait and try again."@
        } else {
            "Could not load older messages: "@ + error_text@
        },
{
    if is_rate_limited {
        return "Older messages are temporarily rate limited. Please wait and try again.".to_owned();
    }
    concat2("Could not load older messages: ", error_text)
}

// ---------------------------------------------------------------------------
// Timeline warm-up
// ---------------------------------------------------------------------------

/// How many recently active rooms get their timeline loaded ahead.
pub const RECENT_TIMELINE_WARM_ROOM_COUNT: usize = 6;

/// The rooms whose timelines are loaded ahead: the
/// `RECENT_TIMELINE_WARM_ROOM_COUNT` most recently active, most recent
/// first, ties in their given order.
pub fn recent_timeline_warmup_rooms(room_candidates: &[(String, u64)]) -> (r: Vec<String>)
    ensures
        ({
            let acts = room_candidates@.map_values(|c: (String, u64)| c.1);
            &&& r@.len() == if room_candidates@.len() < RECENT_TIMELINE_WARM_ROOM_COUNT {
                room_candidates@.len()
            } else {
                RECENT_TIMELINE_WARM_ROOM_COUNT as nat
            }
            &&& exists|order: Seq<usize>|
                #![trigger order.len()]
                order.len() == r@.len() && (forall|i: int|
                    0 <= i < order.len() ==> #[trigger] order[i] < room_candidates@.len() && r@[i]
                        == room_candidates@[order[i] as int].0) && (forall|i: int, j: int|
                    0 <= i < j < order.len() ==> order[i] != order[j] && room_before(
                        acts,
                        #[trigger] order[i],
                        #[trigger] order[j],
                    )) && (forall|k: usize, i: int|
                    0 <= i < order.len() && k < acts.len() && !order.contains(k) ==> #[trigger] room_before(
                        acts,
                        order[i],
                        k,
                    ))
        }),
{
    let mut activities: Vec<u64> = Vec::new();
    let mut i: usize = 0;
    while i < room_candidates.len()
        invariant
            i <= room_candidates@.len(),
            activities@.len() == i,
            forall|j: int| 0 <= j < i ==> activities@[j] == (#[trigger] room_candidates@[j]).1,
        decreases room_candidates.len() - i,
    {
        activities.push(room_candidates[i].1);
        i = i + 1;
    }
    let ghost acts = room_candidates@.map_values(|c: (String, u64)| c.1);
    assert(activities@ =~= acts);
    let order = most_recent_first(&activities, RECENT_TIMELINE_WARM_ROOM_COUNT);
    let mut out: Vec<String> = Vec::new();
    let mut j: usize = 0;
    while j < order.len()
        invariant
            j <= order@.len(),
            out@.len() == j,
            forall|m: int| 0 <= m < order@.len() ==> #[trigger] order@[m] < room_candidates@.len(),
            forall|m: int| 0 <= m < j ==> out@[m] == room_candidates@[(#[trigger] order@[m]) as int].0,
        decreases order.len() - j,
    {
        out.push(room_candidates[order[j]].0.clone());
        j = j + 1;
    }
    assert(order@.len() == out@.len());
    out
}

// ---------------------------------------------------------------------------
// Room and space lists
// ---------------------------------------------------------------------------

/// Whether a conversation shows for a normalized query: every one shows
/// without a query; else one whose title, preview or participant label,
/// lowercased, holds it.
pub open spec fn room_thread_shown(summary: RoomThreadSummary, query: Option<Seq<char>>) -> bool {
    match query {
        None => true,
        Some(q) => seq_contains(unicode_lowercase(summary.title@), q) || seq_contains(
            unicode_lowercase(summary.preview@),
            q,
        ) || seq_contains(unicode_lowercase(summary.participant_label@), q),
    }
}

/// Whether a space shows for a normalized query: every one shows without a
/// query; else one whose name or description, lowercased, holds it.
pub open spec fn space_shown(summary: SpaceSummary, query: Option<Seq<char>>) -> bool {
    match query {
        None => true,
        Some(q) => seq_contains(unicode_lowercase(summary.name@), q) || seq_contains(
            unicode_lowercase(summary.description@),
            q,
        ),
    }
}

/// A query as a value.
pub open spec fn query_seq(query: Option<&str>) -> Option<Seq<char>> {
    match query {
        Some(q) => Some(q@),
        None => None,
    }
}

/// The conversations a room list shows for a normalized query, in order.
pub fn room_threads_matching(summaries: Vec<RoomThreadSummary>, query: Option<&str>) -> (r: Vec<RoomThreadSummary>)
    ensures
        r@ == summaries@.filter(|s: RoomThreadSummary| room_thread_shown(s, query_seq(query))),
{
    let ghost all = summaries@;
    let ghost keep = |s: RoomThreadSummary| room_thread_shown(s, query_seq(query));
    let total: usize = summaries.len();
    let mut rest = summaries;
    let mut taken: usize = 0;
    let mut out: Vec<RoomThreadSummary> = Vec::new();
    assert(rest@ == all.skip(0));
    proof {
        reveal(Seq::filter);
        assert(all.take(0).filter(keep) =~= Seq::<RoomThreadSummary>::empty());
    }
    while rest.len() > 0
        invariant
            taken + rest@.len() == all.len(),
            all.len() == total,
            rest@ == all.skip(taken as int),
            keep == (|s: RoomThreadSummary| room_thread_shown(s, query_seq(query))),
            out@ == all.take(taken as int).filter(keep),
        decreases rest.len(),
    {
        let summary = rest.remove(0);
        proof {
            crate::search::lemma_filter_take_next(all, keep, taken as int);
        }
        let fields: [&str; 3] = [summary.title.as_str(), summary.preview.as_str(), summary.participant_label.as_str()];
        let shown = matches_query(query, &fields);
        proof {
            if let Some(q) = query {
                if shown {
                    let i = choose|i: int| 0 <= i < 3 && seq_contains(unicode_lowercase(fields@[i]@), q@);
                    assert(0 <= i < 3);
                }
                if room_thread_shown(summary, query_seq(query)) {
                    if seq_contains(unicode_lowercase(summary.title@), q@) {
                        assert(fields@[0]@ == summary.title@);
                    } else if seq_contains(unicode_lowercase(summary.preview@), q@) {
                        assert(fields@[1]@ == summary.preview@);
                    } else {
                        assert(fields@[2]@ == summary.participant_label@);
                    }
                }
            }
        }
        if shown {
            out.push(summary);
        }
        taken = taken + 1;
        assert(rest@ == all.skip(taken as int));
    }
    assert(all.take(all.len() as int) == all);
    out
}

/// The spaces a space list shows for a normalized query, in order.
pub fn spaces_matching(summaries: Vec<SpaceSummary>, query: Option<&str>) -> (r: Vec<SpaceSummary>)
    ensures
        r@ == summaries@.filter(|s: SpaceSummary| space_shown(s, query_seq(query))),
{
    let ghost all = summaries@;
    let ghost keep = |s: SpaceSummary| space_shown(s, query_seq(query));
    let total: usize = summaries.len();
    let mut rest = summaries;
    let mut taken: usize = 0;
    let mut out: Vec<SpaceSummary> = Vec::new();
    assert(rest@ == all.skip(0));
    proof {
        reveal(Seq::filter);
        assert(all.take(0).filter(keep) =~= Seq::<SpaceSummary>::empty());
    }
    while rest.len() > 0
        invariant
            taken + rest@.len() == all.len(),
            all.len() == total,
            rest@ == all.skip(taken as int),
            keep == (|s: SpaceSummary| space_shown(s, query_seq(query))),
            out@ == all.take(taken as int).filter(keep),
        decreases rest.len(),
    {
        let summary = rest.remove(0);
        proof {
            crate::search::lemma_filter_take_next(all, keep, taken as int);
        }
        let fields: [&str; 2] = [summary.name.as_str(), summary.description.as_str()];
        let shown = matches_query(query, &fields);
        proof {
            if let Some(q) = query {
                if shown {
                    let i = choose|i: int| 0 <= i < 2 && seq_contains(unicode_lowercase(fields@[i]@), q@);
                    assert(0 <= i < 2);
                }
                if space_shown(summary, query_seq(query)) {
                    if seq_contains(unicode_lowercase(summary.name@), q@) {
                        assert(fields@[0]@ == summary.name@);
                    } else {
                        assert(fields@[1]@ == summary.description@);
                    }
                }
            }
        }
        if shown {
            out.push(summary);
        }
        taken = taken + 1;
        assert(rest@ == all.skip(taken as int));
    }
    assert(all.take(all.len() as int) == all);
    out
}

/// The cached room thread list, shown once per account before the live
/// list: when it was not served yet for the account and a cached list
/// exists, it is served and marked as served; otherwise nothing is served
/// and nothing changes.
pub fn serve_cached_room_threads(
    cache_state: &mut ShellCacheState,
    account_key: &str,
    cached: Option<Vec<RoomThreadSummary>>,
) -> (r: Option<Vec<RoomThreadSummary>>)
    ensures
        if !old(cache_state).room_thread_cache_served_accounts@.contains(account_key@) && cached is Some {
            r == cached && final(cache_state).room_thread_cache_served_accounts@ == old(
                cache_state,
            ).room_thread_cache_served_accounts@.insert(account_key@)
        } else {
            r is None && final(cache_state).room_thread_cache_served_accounts@ == old(
                cache_state,
            ).room_thread_cache_served_accounts@
        },
        final(cache_state).space_cache_served_accounts@ == old(cache_state).space_cache_served_accounts@,
        final(cache_state).room_timeline_cache_served_keys@ == old(cache_state).room_timeline_cache_served_keys@,
{
    if cache_state.room_thread_cache_was_served(account_key) {
        return None;
    }
    match cached {
        Some(rooms) => {
            cache_state.mark_room_thread_cache_served(account_key);
            Some(rooms)
        },
        None => None,
    }
}

/// The cached space list, shown once per account before the live list,
/// as for room threads.
pub fn serve_cached_spaces(
    cache_state: &mut ShellCacheState,
    account_key: &str,
    cached: Option<Vec<SpaceSummary>>,
) -> (r: Option<Vec<SpaceSummary>>)
    ensures
        if !old(cache_state).space_cache_served_accounts@.contains(account_key@) && cached is Some {
            r == cached && final(cache_state).space_cache_served_accounts@ == old(
                cache_state,
            ).space_cache_served_accounts@.insert(account_key@)
        } else {
            r is None && final(cache_state).space_cache_served_accounts@ == old(
                cache_state,
            ).space_cache_served_accounts@
        },
        final(cache_state).room_thread_cache_served_accounts@ == old(cache_state).room_thread_cache_served_accounts@,
        final(cache_state).room_timeline_cache_served_keys@ == old(cache_state).room_timeline_cache_served_keys@,
{
    if cache_state.space_cache_was_served(account_key) {
        return None;
    }
    match cached {
        Some(spaces) => {
            cache_state.mark_space_cache_served(account_key);
            Some(spaces)
        },
        None => None,
    }
}

/// The cached list shown while the live list is still empty: only without
/// a search query, and only when the cache holds something.
pub fn cached_list_while_empty<T>(live_list_is_empty: bool, search_query: Option<&str>, cached: Option<Vec<T>>) -> (r:
    Option<Vec<T>>)
    ensures
        r == if live_list_is_empty && (match search_query {
            None => true,
            Some(q) => q@.len() == 0,
        }) && (cached matches Some(c) && c@.len() > 0) {
            cached
        } else {
            None
        },
{
    let no_query = match search_query {
        None => true,
        Some(q) => q.unicode_len() == 0,
    };
    if !live_list_is_empty || !no_query {
        return None;
    }
    match cached {
        Some(c) => if c.len() > 0 {
            Some(c)
        } else {
            None
        },
        None => None,
    }
}

/// The body of a message to send: trimmed; a blank body is refused.
pub fn outgoing_message_body(body: &str) -> (r: Result<String, String>)
    ensures
        match r {
            Ok(b) => trim_seq(body@).len() > 0 && b@ == trim_seq(body@),
            Err(e) => trim_seq(body@).len() == 0 && e@ == "Message body must not be empty"@,
        },
{
    if is_blank(body) {
        return Err("Message body must not be empty".to_owned());
    }
    Ok(trim(body))
}

} // verus!
