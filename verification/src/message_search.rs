//! Collecting the message hits of a global search, as decisions between
//! outside work: the homeserver's search for large accounts, then each room
//! in turn, with what is still missing of the limit; within a room, its
//! local index first, then its cached history, then at most two pages of
//! twenty older messages, at most five hits from the history.
use vstd::prelude::*;

use crate::discovery::{RoomThreadSummary, SpaceSummary};
use crate::search::{
    global_search_query, global_search_room_hits, global_search_space_hits, group_len, room_hit_of,
    room_matches, search_limit_per_group, space_hit_of, space_matches, GlobalSearchResponse,
    DEFAULT_SEARCH_LIMIT_PER_GROUP, hits_distinct_and_seen, lemma_pushed_hits_bounded, lemma_pushed_hits_distinct, message_result_id,
    message_search_hit, message_search_plan, push_message_hits, pushed_hits, scan_items_for_query, scanned,
    GlobalSearchMessageHit, MessageSearchPlan, MESSAGE_SEARCH_HITS_PER_ROOM, SERVER_BACKED_SEARCH_ROOM_THRESHOLD,
};
use crate::text::{seq_contains, strings_view, trim_seq, unicode_lowercase};
use crate::timeline::RoomTimelineItem;

verus! {

broadcast use vstd::seq_lib::group_seq_properties;

/// How many older messages one page of a room's history holds.
pub const MESSAGE_SEARCH_SCAN_LIMIT: u16 = 20;

/// How many pages of a room's history a search reads at most.
pub const MESSAGE_SEARCH_MAX_PAGES: usize = 2;

// ---------------------------------------------------------------------------
// Over all rooms
// ---------------------------------------------------------------------------

/// What to do next for the message hits of a global search.
#[derive(Clone, Copy, Debug, PartialEq, Eq, Structural)]
pub enum MessageSearchAction {
    /// Ask the homeserver for up to `limit` hits in its unencrypted rooms.
    SearchServer { limit: usize },
    /// Search the room at this position for up to `limit` hits.
    SearchRoom { room: usize, limit: usize },
    /// The hits are complete.
    Finished,
}

/// Where the collection stands.
#[derive(Clone, Copy, Debug, PartialEq, Eq, Structural)]
pub enum MessageSearchPhase {
    Server,
    Local { next: usize },
    Fallback { next: usize },
    Finished,
}

/// The collection of message hits: the plan over the rooms, the limit, the
/// phase, whether an action's result is awaited, and the hits so far with
/// their result ids.
#[derive(Debug)]
pub struct MessageSearch {
    pub plan: MessageSearchPlan,
    pub limit: usize,
    pub phase: MessageSearchPhase,
    pub awaiting: bool,
    pub messages: Vec<GlobalSearchMessageHit>,
    pub seen_message_ids: Vec<String>,
}

/// The most hits a collection holds: the limit, but one where the limit is
/// zero (the homeserver's first hit is still taken).
pub open spec fn message_cap(limit: usize) -> int {
    if limit == 0 {
        1
    } else {
        limit as int
    }
}

pub open spec fn phase_rank_spec(phase: MessageSearchPhase) -> nat {
    match phase {
        MessageSearchPhase::Server => 3,
        MessageSearchPhase::Local { .. } => 2,
        MessageSearchPhase::Fallback { .. } => 1,
        MessageSearchPhase::Finished => 0,
    }
}

/// The next action and phase: the homeserver first where the plan says so;
/// then the planned rooms in order while hits are missing; for a large
/// account whose encrypted rooms left hits missing, its unencrypted rooms in
/// order; each room asked for what is still missing.
pub open spec fn message_search_step(
    server_backed: bool,
    local_rooms: Seq<usize>,
    fallback_rooms: Seq<usize>,
    limit: usize,
    count: nat,
    phase: MessageSearchPhase,
) -> (MessageSearchAction, MessageSearchPhase)
    decreases phase_rank_spec(phase),
{
    match phase {
        MessageSearchPhase::Server => (MessageSearchAction::SearchServer { limit }, MessageSearchPhase::Local { next: 0 }),
        MessageSearchPhase::Local { next } => if count < limit && next < local_rooms.len() {
            (
                MessageSearchAction::SearchRoom { room: local_rooms[next as int], limit: (limit - count) as usize },
                MessageSearchPhase::Local { next: (next + 1) as usize },
            )
        } else if !server_backed || count >= limit {
            (MessageSearchAction::Finished, MessageSearchPhase::Finished)
        } else {
            message_search_step(
                server_backed,
                local_rooms,
                fallback_rooms,
                limit,
                count,
                MessageSearchPhase::Fallback { next: 0 },
            )
        },
        MessageSearchPhase::Fallback { next } => if count < limit && next < fallback_rooms.len() {
            (
                MessageSearchAction::SearchRoom { room: fallback_rooms[next as int], limit: (limit - count) as usize },
                MessageSearchPhase::Fallback { next: (next + 1) as usize },
            )
        } else {
            (MessageSearchAction::Finished, MessageSearchPhase::Finished)
        },
        MessageSearchPhase::Finished => (MessageSearchAction::Finished, MessageSearchPhase::Finished),
    }
}

impl MessageSearch {
    /// What a collection keeps to: at most `message_cap` hits, with distinct
    /// result ids, all recorded as seen; a result is awaited only while hits
    /// are missing, or before the first (the homeserver's) one.
    pub open spec fn wf(&self) -> bool {
        &&& self.messages@.len() <= message_cap(self.limit)
        &&& hits_distinct_and_seen(self.messages@, strings_view(self.seen_message_ids@).to_set())
        &&& self.awaiting ==> self.messages@.len() < self.limit || self.messages@.len() == 0
        &&& self.phase is Server ==> self.messages@.len() == 0 && !self.awaiting
        &&& self.phase is Local ==> self.phase->Local_next <= self.plan.local_rooms@.len()
        &&& self.phase is Fallback ==> self.phase->Fallback_next <= self.plan.fallback_rooms@.len()
    }

    /// Starts collecting hits for rooms with these encryption flags: the
    /// homeserver is asked first from `SERVER_BACKED_SEARCH_ROOM_THRESHOLD`
    /// rooms on.
    pub fn start(room_is_encrypted: &[bool], limit: usize) -> (r: Self)
        ensures
            r.wf(),
            r.limit == limit,
            r.plan.server_backed == (room_is_encrypted@.len() >= SERVER_BACKED_SEARCH_ROOM_THRESHOLD),
            r.phase == if r.plan.server_backed {
                MessageSearchPhase::Server
            } else {
                MessageSearchPhase::Local { next: 0 }
            },
            !r.awaiting,
            r.messages@.len() == 0,
            r.seen_message_ids@.len() == 0,
    {
        let plan = message_search_plan(room_is_encrypted);
        let phase = if plan.server_backed {
            MessageSearchPhase::Server
        } else {
            MessageSearchPhase::Local { next: 0 }
        };
        let r = MessageSearch {
            plan,
            limit,
            phase,
            awaiting: false,
            messages: Vec::new(),
            seen_message_ids: Vec::new(),
        };
        assert(strings_view(r.seen_message_ids@).to_set() =~= Set::<Seq<char>>::empty());
        r
    }

    /// Decides the next action, as `message_search_step` says.
    pub fn next_action(&mut self) -> (a: MessageSearchAction)
        requires
            old(self).wf(),
            !old(self).awaiting,
        ensures
            final(self).wf(),
            (a, final(self).phase) == message_search_step(
                old(self).plan.server_backed,
                old(self).plan.local_rooms@,
                old(self).plan.fallback_rooms@,
                old(self).limit,
                old(self).messages@.len(),
                old(self).phase,
            ),
            final(self).awaiting == !(a is Finished),
            final(self).plan == old(self).plan,
            final(self).limit == old(self).limit,
            final(self).messages == old(self).messages,
            final(self).seen_message_ids == old(self).seen_message_ids,
        decreases phase_rank_spec(old(self).phase),
    {
        let count = self.messages.len();
        match self.phase {
            MessageSearchPhase::Server => {
                self.phase = MessageSearchPhase::Local { next: 0 };
                self.awaiting = true;
                MessageSearchAction::SearchServer { limit: self.limit }
            },
            MessageSearchPhase::Local { next } => {
                if count < self.limit && next < self.plan.local_rooms.len() {
                    let room = self.plan.local_rooms[next];
                    self.phase = MessageSearchPhase::Local { next: next + 1 };
                    self.awaiting = true;
                    MessageSearchAction::SearchRoom { room, limit: self.limit - count }
                } else if !self.plan.server_backed || count >= self.limit {
                    self.phase = MessageSearchPhase::Finished;
                    MessageSearchAction::Finished
                } else {
                    self.phase = MessageSearchPhase::Fallback { next: 0 };
                    self.next_action()
                }
            },
            MessageSearchPhase::Fallback { next } => {
                if count < self.limit && next < self.plan.fallback_rooms.len() {
                    let room = self.plan.fallback_rooms[next];
                    self.phase = MessageSearchPhase::Fallback { next: next + 1 };
                    self.awaiting = true;
                    MessageSearchAction::SearchRoom { room, limit: self.limit - count }
                } else {
                    self.phase = MessageSearchPhase::Finished;
                    MessageSearchAction::Finished
                }
            },
            MessageSearchPhase::Finished => MessageSearchAction::Finished,
        }
    }

    /// Takes the hits of the awaited action: each whose result id is new,
    /// until the limit is reached.
    pub fn record_hits(&mut self, hits: Vec<GlobalSearchMessageHit>)
        requires
            old(self).wf(),
            old(self).awaiting,
        ensures
            final(self).wf(),
            !final(self).awaiting,
            (final(self).messages@, strings_view(final(self).seen_message_ids@).to_set()) == pushed_hits(
                old(self).messages@,
                strings_view(old(self).seen_message_ids@).to_set(),
                hits@,
                old(self).limit,
            ),
            final(self).plan == old(self).plan,
            final(self).limit == old(self).limit,
            final(self).phase == old(self).phase,
    {
        proof {
            let t = self.messages@;
            let s = strings_view(self.seen_message_ids@).to_set();
            lemma_pushed_hits_distinct(t, s, hits@, self.limit);
            if t.len() < self.limit {
                lemma_pushed_hits_bounded(t, s, hits@, self.limit);
            } else {
                assert(t =~= Seq::<GlobalSearchMessageHit>::empty());
                lemma_pushed_hits_from_empty_at_zero(s, hits@);
            }
        }
        let limit = self.limit;
        push_message_hits(&mut self.messages, &mut self.seen_message_ids, hits, limit);
        self.awaiting = false;
    }
}

/// With a limit of zero, at most the first new hit is taken.
proof fn lemma_pushed_hits_from_empty_at_zero(seen: Set<Seq<char>>, hits: Seq<GlobalSearchMessageHit>)
    ensures
        pushed_hits(Seq::empty(), seen, hits, 0).0.len() <= 1,
{
    if hits.len() > 0 {
        let h = hits[0];
        if seen.contains(h.result_id@) {
        } else {
        }
    }
}

// ---------------------------------------------------------------------------
// Within one room
// ---------------------------------------------------------------------------

/// What to do next within a room.
#[derive(Debug)]
pub enum RoomSearchAction {
    /// Ask the room's local index for up to `limit` matching events, and
    /// hand back those that load as timeline items, in the index's order.
    SearchIndex { limit: usize },
    /// Hand back the room's cached history.
    LoadCachedItems,
    /// Fetch `limit` older messages from the token `before`.
    FetchPage { limit: u16, before: Option<String> },
    /// The room's hits are complete.
    Finished,
}

/// Where a room's search stands.
#[derive(Clone, Copy, Debug, PartialEq, Eq, Structural)]
pub enum RoomSearchPhase {
    Index,
    Cached,
    Page { fetched: usize },
    Finished,
}

/// The search of one room: its id and title, the lower-cased query, how
/// many hits it may give, the phase, the index's hits, the history's hits
/// with their event ids, and where the next page starts.
#[derive(Debug)]
pub struct RoomMessageSearch {
    pub room_id: String,
    pub room_title: String,
    pub query: String,
    pub limit: usize,
    pub phase: RoomSearchPhase,
    pub index_items: Vec<RoomTimelineItem>,
    pub scan_items: Vec<RoomTimelineItem>,
    pub scan_seen: Vec<String>,
    pub before: Option<String>,
}

/// An item matches when its body, lower-cased, holds the query.
pub open spec fn item_matches(item: RoomTimelineItem, query: Seq<char>) -> bool {
    seq_contains(unicode_lowercase(item.body@), query)
}

/// Every item matches the query.
pub open spec fn all_match(items: Seq<RoomTimelineItem>, query: Seq<char>) -> bool {
    forall|i: int| 0 <= i < items.len() ==> item_matches(#[trigger] items[i], query)
}

/// How many hits a room's history may give: what the index left missing of
/// the limit, at most `MESSAGE_SEARCH_HITS_PER_ROOM`.
pub open spec fn history_cap(limit: usize, index_hits: nat) -> usize {
    let missing = (limit - index_hits) as usize;
    if missing < MESSAGE_SEARCH_HITS_PER_ROOM {
        missing
    } else {
        MESSAGE_SEARCH_HITS_PER_ROOM
    }
}

/// Scanning keeps the hits it had, adds only matching items, and from
/// below the cap ends at most at the cap.
proof fn lemma_scanned_props(
    hits: Seq<RoomTimelineItem>,
    seen: Set<Seq<char>>,
    items: Seq<RoomTimelineItem>,
    query: Seq<char>,
    cap: usize,
)
    requires
        all_match(hits, query),
    ensures
        all_match(scanned(hits, seen, items, query, cap).0, query),
        hits.len() < cap ==> scanned(hits, seen, items, query, cap).0.len() <= cap,
        scanned(hits, seen, items, query, cap).0.len() >= hits.len(),
    decreases items.len(),
{
    if items.len() > 0 {
        let item = items[0];
        if !item_matches(item, query) {
            lemma_scanned_props(hits, seen, items.drop_first(), query, cap);
        } else {
            let (h, s) = if seen.contains(item.event_id@) {
                (hits, seen)
            } else {
                (hits.push(item), seen.insert(item.event_id@))
            };
            assert(all_match(h, query)) by {
                assert forall|i: int| 0 <= i < h.len() implies item_matches(#[trigger] h[i], query) by {
                    if i < hits.len() {
                        assert(h[i] == hits[i]);
                    }
                }
            }
            if h.len() < cap {
                lemma_scanned_props(h, s, items.drop_first(), query, cap);
            }
        }
    }
}

impl RoomMessageSearch {
    /// What a room's search keeps to: every hit matches the query; the index
    /// gave at most the limit, and past the index phase fewer than it; the
    /// history gave at most its cap, and while pages are read, fewer.
    pub open spec fn wf(&self) -> bool {
        &&& all_match(self.index_items@, self.query@)
        &&& all_match(self.scan_items@, self.query@)
        &&& self.limit >= 1
        &&& self.index_items@.len() <= self.limit
        &&& (self.index_items@.len() >= self.limit ==> self.scan_items@.len() == 0)
        &&& (self.phase is Index ==> self.index_items@.len() == 0 && self.scan_items@.len() == 0 && self.scan_seen@.len()
            == 0)
        &&& (self.phase is Cached ==> self.index_items@.len() < self.limit && self.scan_items@.len() == 0
            && self.scan_seen@.len() == 0)
        &&& (self.phase is Page ==> self.index_items@.len() < self.limit && self.scan_items@.len() < history_cap(
            self.limit,
            self.index_items@.len(),
        ) && self.phase->Page_fetched < MESSAGE_SEARCH_MAX_PAGES)
        &&& (self.phase is Finished && self.index_items@.len() < self.limit ==> self.scan_items@.len()
            <= history_cap(self.limit, self.index_items@.len()))
    }

    /// Starts searching a room for up to `limit` hits (at least one).
    pub fn new(room_id: String, room_title: String, query: String, limit: usize) -> (r: Self)
        requires
            limit >= 1,
        ensures
            r.wf(),
            r.room_id == room_id,
            r.room_title == room_title,
            r.query == query,
            r.limit == limit,
            r.phase == RoomSearchPhase::Index,
            r.before is None,
    {
        RoomMessageSearch {
            room_id,
            room_title,
            query,
            limit,
            phase: RoomSearchPhase::Index,
            index_items: Vec::new(),
            scan_items: Vec::new(),
            scan_seen: Vec::new(),
            before: None,
        }
    }

    /// The next action: the index, then the cached history, then a page of
    /// `MESSAGE_SEARCH_SCAN_LIMIT` older messages from the last token.
    pub fn next_action(&self) -> (a: RoomSearchAction)
        ensures
            match self.phase {
                RoomSearchPhase::Index => a matches RoomSearchAction::SearchIndex { limit } && limit == self.limit,
                RoomSearchPhase::Cached => a is LoadCachedItems,
                RoomSearchPhase::Page { .. } => a matches RoomSearchAction::FetchPage { limit, before } && limit
                    == MESSAGE_SEARCH_SCAN_LIMIT && before == self.before,
                RoomSearchPhase::Finished => a is Finished,
            },
    {
        match self.phase {
            RoomSearchPhase::Index => RoomSearchAction::SearchIndex { limit: self.limit },
            RoomSearchPhase::Cached => RoomSearchAction::LoadCachedItems,
            RoomSearchPhase::Page { .. } => RoomSearchAction::FetchPage {
                limit: MESSAGE_SEARCH_SCAN_LIMIT,
                before: crate::timeline::clone_opt_string(&self.before),
            },
            RoomSearchPhase::Finished => RoomSearchAction::Finished,
        }
    }

    /// Takes the items the index found: those that match, each event once,
    /// until the limit; the room is done when the limit is reached.
    pub fn record_index_items(&mut self, items: Vec<RoomTimelineItem>)
        requires
            old(self).wf(),
            old(self).phase == RoomSearchPhase::Index,
        ensures
            final(self).wf(),
            final(self).index_items@ == scanned(Seq::empty(), Set::empty(), items@, old(self).query@, old(self).limit).0,
            final(self).phase == if final(self).index_items@.len() >= old(self).limit {
                RoomSearchPhase::Finished
            } else {
                RoomSearchPhase::Cached
            },
            final(self).room_id == old(self).room_id,
            final(self).room_title == old(self).room_title,
            final(self).query == old(self).query,
            final(self).limit == old(self).limit,
            final(self).scan_items == old(self).scan_items,
            final(self).before == old(self).before,
    {
        let mut seen: Vec<String> = Vec::new();
        proof {
            assert(strings_view(seen@).to_set() =~= Set::<Seq<char>>::empty());
            lemma_scanned_props(self.index_items@, Set::empty(), items@, self.query@, self.limit);
        }
        let limit = self.limit;
        scan_items_for_query(&mut self.index_items, &mut seen, items, self.query.as_str(), limit);
        if self.index_items.len() >= limit {
            self.phase = RoomSearchPhase::Finished;
        } else {
            self.phase = RoomSearchPhase::Cached;
        }
    }

    /// The most hits the room's history may give now.
    fn current_history_cap(&self) -> (r: usize)
        requires
            self.index_items@.len() < self.limit,
        ensures
            r == history_cap(self.limit, self.index_items@.len()),
            r >= 1,
    {
        let missing = self.limit - self.index_items.len();
        if missing < MESSAGE_SEARCH_HITS_PER_ROOM {
            missing
        } else {
            MESSAGE_SEARCH_HITS_PER_ROOM
        }
    }

    /// Takes the room's cached history: the items that match, each event
    /// once, until the history's cap; the room is done at the cap, and
    /// otherwise pages are read next.
    pub fn record_cached_items(&mut self, items: Vec<RoomTimelineItem>)
        requires
            old(self).wf(),
            old(self).phase == RoomSearchPhase::Cached,
        ensures
            final(self).wf(),
            (final(self).scan_items@, strings_view(final(self).scan_seen@).to_set()) == scanned(
                Seq::empty(),
                Set::empty(),
                items@,
                old(self).query@,
                history_cap(old(self).limit, old(self).index_items@.len()),
            ),
            final(self).phase == if final(self).scan_items@.len() >= history_cap(
                old(self).limit,
                old(self).index_items@.len(),
            ) {
                RoomSearchPhase::Finished
            } else {
                RoomSearchPhase::Page { fetched: 0 }
            },
            final(self).room_id == old(self).room_id,
            final(self).room_title == old(self).room_title,
            final(self).query == old(self).query,
            final(self).limit == old(self).limit,
            final(self).index_items == old(self).index_items,
            final(self).before == old(self).before,
    {
        let cap = self.current_history_cap();
        proof {
            assert(strings_view(self.scan_seen@).to_set() =~= Set::<Seq<char>>::empty());
            assert(self.scan_items@ =~= Seq::<RoomTimelineItem>::empty());
            lemma_scanned_props(self.scan_items@, Set::empty(), items@, self.query@, cap);
        }
        scan_items_for_query(&mut self.scan_items, &mut self.scan_seen, items, self.query.as_str(), cap);
        if self.scan_items.len() >= cap {
            self.phase = RoomSearchPhase::Finished;
        } else {
            self.phase = RoomSearchPhase::Page { fetched: 0 };
        }
    }

    /// Takes a page of older messages and the token before it: the items
    /// that match, each event once, until the history's cap; the room is
    /// done at the cap, at the start of the room, or after
    /// `MESSAGE_SEARCH_MAX_PAGES` pages.
    pub fn record_page(&mut self, items: Vec<RoomTimelineItem>, next_before: Option<String>)
        requires
            old(self).wf(),
            old(self).phase is Page,
        ensures
            final(self).wf(),
            (final(self).scan_items@, strings_view(final(self).scan_seen@).to_set()) == scanned(
                old(self).scan_items@,
                strings_view(old(self).scan_seen@).to_set(),
                items@,
                old(self).query@,
                history_cap(old(self).limit, old(self).index_items@.len()),
            ),
            final(self).before == next_before,
            final(self).phase == if final(self).scan_items@.len() >= history_cap(
                old(self).limit,
                old(self).index_items@.len(),
            ) || next_before is None || old(self).phase->Page_fetched + 1 >= MESSAGE_SEARCH_MAX_PAGES {
                RoomSearchPhase::Finished
            } else {
                RoomSearchPhase::Page { fetched: (old(self).phase->Page_fetched + 1) as usize }
            },
            final(self).room_id == old(self).room_id,
            final(self).room_title == old(self).room_title,
            final(self).query == old(self).query,
            final(self).limit == old(self).limit,
            final(self).index_items == old(self).index_items,
    {
        let fetched = match self.phase {
            RoomSearchPhase::Page { fetched } => fetched,
            _ => 0,
        };
        let cap = self.current_history_cap();
        proof {
            lemma_scanned_props(self.scan_items@, strings_view(self.scan_seen@).to_set(), items@, self.query@, cap);
        }
        scan_items_for_query(&mut self.scan_items, &mut self.scan_seen, items, self.query.as_str(), cap);
        let done = self.scan_items.len() >= cap || next_before.is_none() || fetched + 1 >= MESSAGE_SEARCH_MAX_PAGES;
        self.before = next_before;
        if done {
            self.phase = RoomSearchPhase::Finished;
        } else {
            self.phase = RoomSearchPhase::Page { fetched: fetched + 1 };
        }
    }

    /// The room's hits: the index's, then the history's, each as a hit of
    /// this room; every one matches the query, and there are at most the
    /// limit.
    pub fn hits(self) -> (r: Vec<GlobalSearchMessageHit>)
        requires
            self.wf(),
            self.phase == RoomSearchPhase::Finished,
        ensures
            r@.len() == self.index_items@.len() + self.scan_items@.len(),
            r@.len() <= self.limit,
            forall|i: int|
                0 <= i < r@.len() ==> {
                    let item = if i < self.index_items@.len() {
                        self.index_items@[i]
                    } else {
                        self.scan_items@[i - self.index_items@.len()]
                    };
                    &&& (#[trigger] r@[i]).result_id@ == message_result_id(self.room_id@, item.event_id@)
                    &&& r@[i].room_id@ == self.room_id@
                    &&& r@[i].title@ == "Recent message in "@ + self.room_title@
                    &&& r@[i].description == item.body
                    &&& seq_contains(unicode_lowercase(r@[i].description@), self.query@)
                },
    {
        let ghost index = self.index_items@;
        let ghost scan = self.scan_items@;
        let ghost q = self.query@;
        let room_id = self.room_id;
        let room_title = self.room_title;
        let mut out: Vec<GlobalSearchMessageHit> = Vec::new();
        let mut all = self.index_items;
        let mut rest = self.scan_items;
        all.append(&mut rest);
        let ghost items = all@;
        assert(items == index + scan);
        let mut i: usize = 0;
        assert(items.len() <= usize::MAX);
        while all.len() > 0
            invariant
                i <= items.len(),
                items.len() <= usize::MAX,
                all@.len() == items.len() - i,
                all@ == items.skip(i as int),
                out@.len() == i,
                items == index + scan,
                all_match(index, q),
                all_match(scan, q),
                forall|j: int|
                    0 <= j < i ==> {
                        let item = items[j];
                        &&& (#[trigger] out@[j]).result_id@ == message_result_id(room_id@, item.event_id@)
                        &&& out@[j].room_id@ == room_id@
                        &&& out@[j].title@ == "Recent message in "@ + room_title@
                        &&& out@[j].description == item.body
                        &&& seq_contains(unicode_lowercase(out@[j].description@), q)
                    },
            decreases items.len() - i,
        {
            let ghost before = all@;
            let item = all.remove(0);
            assert(item == items[i as int]);
            assert(all@ =~= items.skip(i + 1));
            assert(item_matches(items[i as int], q)) by {
                if i < index.len() {
                    assert(items[i as int] == index[i as int]);
                } else {
                    assert(items[i as int] == scan[i - index.len()]);
                }
            }
            out.push(message_search_hit(room_id.as_str(), room_title.as_str(), item));
            i = i + 1;
        }
        proof {
            assert forall|j: int| 0 <= j < out@.len() implies ({
                let item = if j < index.len() {
                    index[j]
                } else {
                    scan[j - index.len()]
                };
                &&& (#[trigger] out@[j]).result_id@ == message_result_id(room_id@, item.event_id@)
                &&& out@[j].room_id@ == room_id@
                &&& out@[j].title@ == "Recent message in "@ + room_title@
                &&& out@[j].description == item.body
                &&& seq_contains(unicode_lowercase(out@[j].description@), q)
            }) by {
                if j < index.len() {
                    assert(items[j] == index[j]);
                } else {
                    assert(items[j] == scan[j - index.len()]);
                }
            }
        }
        out
    }
}

// ---------------------------------------------------------------------------
// The response
// ---------------------------------------------------------------------------

/// The response of a global search, as the spec of `global_search_response`
/// has it for a query that is not blank.
pub open spec fn search_groups_of(
    r: GlobalSearchResponse,
    q: Seq<char>,
    limit: usize,
    spaces: Seq<SpaceSummary>,
    rooms: Seq<RoomThreadSummary>,
    messages: Seq<GlobalSearchMessageHit>,
) -> bool {
    let ms = spaces.filter(|s: SpaceSummary| space_matches(s, q));
    let mr = rooms.filter(|s: RoomThreadSummary| room_matches(s, q));
    &&& r.spaces@.len() == group_len(ms.len(), limit)
    &&& forall|i: int| 0 <= i < r.spaces@.len() ==> r.spaces@[i] == space_hit_of(#[trigger] ms[i])
    &&& r.rooms@.len() == group_len(mr.len(), limit)
    &&& forall|i: int| 0 <= i < r.rooms@.len() ==> r.rooms@[i] == room_hit_of(#[trigger] mr[i])
    &&& r.messages@ == messages
}

/// Puts a global search's response together: nothing for a blank query or
/// without an active account; otherwise the spaces and rooms that match the
/// trimmed, lower-cased query, at most `limit_per_group` of each (five
/// unless given), and the message hits collected for it, which are at most
/// the limit and have distinct result ids.
pub fn global_search_response(
    query: &str,
    has_active_account: bool,
    limit_per_group: Option<usize>,
    spaces: Vec<SpaceSummary>,
    rooms: &[RoomThreadSummary],
    messages: MessageSearch,
) -> (r: GlobalSearchResponse)
    requires
        messages.wf(),
        messages.limit == match limit_per_group {
            Some(l) => l,
            None => DEFAULT_SEARCH_LIMIT_PER_GROUP,
        },
    ensures
        ({
            let q = unicode_lowercase(trim_seq(query@));
            if q.len() == 0 || !has_active_account {
                r.rooms@.len() == 0 && r.spaces@.len() == 0 && r.messages@.len() == 0
            } else {
                search_groups_of(
                    r,
                    q,
                    match limit_per_group {
                        Some(l) => l,
                        None => DEFAULT_SEARCH_LIMIT_PER_GROUP,
                    },
                    spaces@,
                    rooms@,
                    messages.messages@,
                )
            }
        }),
        r.messages@.len() <= message_cap(messages.limit),
        forall|i: int, j: int|
            0 <= i < j < r.messages@.len() ==> (#[trigger] r.messages@[i]).result_id@ != (
            #[trigger] r.messages@[j]).result_id@,
{
    let q = match global_search_query(query) {
        Some(q) => q,
        None => {
            return GlobalSearchResponse { rooms: Vec::new(), spaces: Vec::new(), messages: Vec::new() };
        },
    };
    if !has_active_account {
        return GlobalSearchResponse { rooms: Vec::new(), spaces: Vec::new(), messages: Vec::new() };
    }
    let limit = search_limit_per_group(limit_per_group);
    let space_hits = global_search_space_hits(spaces, q.as_str(), limit);
    let room_hits = global_search_room_hits(rooms, q.as_str(), limit);
    GlobalSearchResponse { rooms: room_hits, spaces: space_hits, messages: messages.messages }
}

} // verus!
