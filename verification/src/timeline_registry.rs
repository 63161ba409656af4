//! The timelines the shell keeps open: one live timeline per account and
//! room, one focused timeline per account, room and anchor event; the guard
//! that lets one view per account publish; and the windows of items that
//! they show.
use vstd::prelude::*;

use crate::cache_state::{room_cache_key, room_cache_key_spec};
use crate::discovery::holds_id;
use crate::keyed::{has_key, KeyedCache};
use crate::paging::RoomTimelineIdentity;
use crate::projection::{identity_view, ActivePublications};
use crate::text::{concat2, starts_with, str_eq};
use crate::timeline::{copy_items, RoomTimelineItem};

verus! {

broadcast use vstd::seq_lib::group_seq_properties;

/// How many back-pagination passes restoring a live window may take: the
/// SDK may reveal cached events in small chunks.
pub const TIMELINE_RESTORE_PAGINATION_ATTEMPTS: usize = 8;

/// The key of a focused timeline: account, room and anchor event.
pub open spec fn focused_cache_key_spec(account_key: Seq<char>, room_id: Seq<char>, event_id: Seq<char>) -> Seq<
    char,
> {
    account_key + "::"@ + room_id + "::"@ + event_id
}

/// The key of a focused timeline.
pub fn focused_cache_key(account_key: &str, room_id: &str, event_id: &str) -> (r: String)
    ensures
        r@ == focused_cache_key_spec(account_key@, room_id@, event_id@),
{
    let room_key = room_cache_key(account_key, room_id);
    let with_separator = concat2(room_key.as_str(), "::");
    concat2(with_separator.as_str(), event_id)
}

/// The timelines kept open, by key, and the publication guard.
#[derive(Debug)]
pub struct ShellTimelineRegistry<T> {
    live_timelines: KeyedCache<T>,
    focused_timelines: KeyedCache<T>,
    active_publications: ActivePublications,
    lifecycle_revision: u64,
}

/// The revision after one more teardown; it wraps around.
pub open spec fn next_revision(revision: u64) -> u64 {
    if revision == u64::MAX {
        0
    } else {
        (revision + 1) as u64
    }
}

impl<T> ShellTimelineRegistry<T> {
    /// The live timelines, by account and room key.
    pub closed spec fn live(&self) -> Map<Seq<char>, T> {
        self.live_timelines@
    }

    /// The focused timelines, by account, room and event key.
    pub closed spec fn focused(&self) -> Map<Seq<char>, T> {
        self.focused_timelines@
    }

    /// Which view of each account may publish.
    pub closed spec fn publications(&self) -> Map<
        Seq<char>,
        (u64, Option<(Seq<char>, Seq<char>, Seq<char>, Option<Seq<char>>)>),
    > {
        self.active_publications@
    }

    /// The generation reserved last.
    pub closed spec fn generation(&self) -> u64 {
        self.active_publications.generation()
    }

    /// How many teardowns happened: a timeline built across one is not
    /// kept.
    pub closed spec fn revision(&self) -> u64 {
        self.lifecycle_revision
    }

    /// Both caches hold each key once.
    pub closed spec fn wf(&self) -> bool {
        self.live_timelines.wf() && self.focused_timelines.wf()
    }

    /// Nothing open, nothing published, no teardown yet.
    pub fn new() -> (r: Self)
        ensures
            r.wf(),
            r.live() == Map::<Seq<char>, T>::empty(),
            r.focused() == Map::<Seq<char>, T>::empty(),
            r.publications() == Map::<
                Seq<char>,
                (u64, Option<(Seq<char>, Seq<char>, Seq<char>, Option<Seq<char>>)>),
            >::empty(),
            r.generation() == 0,
            r.revision() == 0,
    {
        ShellTimelineRegistry {
            live_timelines: KeyedCache::new(),
            focused_timelines: KeyedCache::new(),
            active_publications: ActivePublications::new(),
            lifecycle_revision: 0,
        }
    }

    /// The teardown revision, read before building a timeline.
    pub fn lifecycle_revision(&self) -> (r: u64)
        ensures
            r == self.revision(),
    {
        self.lifecycle_revision
    }

    /// The key of a room's live timeline.
    pub fn cache_key(account_key: &str, room_id: &str) -> (r: String)
        ensures
            r@ == room_cache_key_spec(account_key@, room_id@),
    {
        room_cache_key(account_key, room_id)
    }

    /// The live timeline kept for the room, if any.
    pub fn cached_live_timeline(&self, account_key: &str, room_id: &str) -> (r: Option<&T>)
        requires
            self.wf(),
        ensures
            match r {
                Some(t) => self.live().contains_key(room_cache_key_spec(account_key@, room_id@)) && self.live()[room_cache_key_spec(
                    account_key@,
                    room_id@,
                )] == *t,
                None => !self.live().contains_key(room_cache_key_spec(account_key@, room_id@)),
            },
    {
        let key = room_cache_key(account_key, room_id);
        self.live_timelines.get(key.as_str())
    }

    /// Keeps a live timeline built for the room, unless a teardown happened
    /// since `revision_at_start` was read; a timeline kept for the room in
    /// the meantime stays.
    pub fn keep_live_timeline(&mut self, account_key: &str, room_id: &str, revision_at_start: u64, timeline: T) -> (r:
        Result<(), String>)
        requires
            old(self).wf(),
        ensures
            final(self).wf(),
            final(self).focused() == old(self).focused(),
            final(self).publications() == old(self).publications(),
            final(self).generation() == old(self).generation(),
            final(self).revision() == old(self).revision(),
            match r {
                Ok(()) => revision_at_start == old(self).revision() && final(self).live() == if old(
                    self,
                ).live().contains_key(room_cache_key_spec(account_key@, room_id@)) {
                    old(self).live()
                } else {
                    old(self).live().insert(room_cache_key_spec(account_key@, room_id@), timeline)
                },
                Err(e) => revision_at_start != old(self).revision() && final(self).live() == old(self).live()
                    && e@ == "Timeline creation was invalidated by account teardown"@,
            },
    {
        if revision_at_start != self.lifecycle_revision {
            return Err("Timeline creation was invalidated by account teardown".to_owned());
        }
        let key = room_cache_key(account_key, room_id);
        self.live_timelines.insert_if_absent(key, timeline);
        Ok(())
    }

    /// The focused timeline kept for the room and anchor event, if any.
    pub fn cached_focused_timeline(&self, account_key: &str, room_id: &str, event_id: &str) -> (r: Option<&T>)
        requires
            self.wf(),
        ensures
            match r {
                Some(t) => self.focused().contains_key(focused_cache_key_spec(account_key@, room_id@, event_id@))
                    && self.focused()[focused_cache_key_spec(account_key@, room_id@, event_id@)] == *t,
                None => !self.focused().contains_key(focused_cache_key_spec(account_key@, room_id@, event_id@)),
            },
    {
        let key = focused_cache_key(account_key, room_id, event_id);
        self.focused_timelines.get(key.as_str())
    }

    /// Keeps a focused timeline built for the room and anchor event, unless
    /// a teardown happened since `revision_at_start` was read; a timeline
    /// kept for them in the meantime stays.
    pub fn keep_focused_timeline(
        &mut self,
        account_key: &str,
        room_id: &str,
        event_id: &str,
        revision_at_start: u64,
        timeline: T,
    ) -> (r: Result<(), String>)
        requires
            old(self).wf(),
        ensures
            final(self).wf(),
            final(self).live() == old(self).live(),
            final(self).publications() == old(self).publications(),
            final(self).generation() == old(self).generation(),
            final(self).revision() == old(self).revision(),
            match r {
                Ok(()) => revision_at_start == old(self).revision() && final(self).focused() == if old(
                    self,
                ).focused().contains_key(focused_cache_key_spec(account_key@, room_id@, event_id@)) {
                    old(self).focused()
                } else {
                    old(self).focused().insert(focused_cache_key_spec(account_key@, room_id@, event_id@), timeline)
                },
                Err(e) => revision_at_start != old(self).revision() && final(self).focused() == old(self).focused()
                    && e@ == "Timeline creation was invalidated by account teardown"@,
            },
    {
        if revision_at_start != self.lifecycle_revision {
            return Err("Timeline creation was invalidated by account teardown".to_owned());
        }
        let key = focused_cache_key(account_key, room_id, event_id);
        self.focused_timelines.insert_if_absent(key, timeline);
        Ok(())
    }

    /// Reserves the generation of an account's next view, before it is
    /// built, so that a slower earlier open cannot take publishing back.
    pub fn reserve_view(&mut self, account_key: &str) -> (r: u64)
        requires
            old(self).wf(),
            old(self).generation() < u64::MAX,
        ensures
            final(self).wf(),
            r == old(self).generation() + 1,
            final(self).generation() == r,
            final(self).publications() == old(self).publications().insert(account_key@, (r, None)),
            final(self).live() == old(self).live(),
            final(self).focused() == old(self).focused(),
            final(self).revision() == old(self).revision(),
    {
        self.active_publications.reserve(account_key)
    }

    /// Lets an opened view publish when its generation is still the one its
    /// account reserved last; otherwise the view was replaced while it
    /// opened.
    pub fn activate_opened_view(&mut self, identity: &RoomTimelineIdentity, generation: u64) -> (r: Result<(), String>)
        requires
            old(self).wf(),
        ensures
            final(self).wf(),
            final(self).live() == old(self).live(),
            final(self).focused() == old(self).focused(),
            final(self).generation() == old(self).generation(),
            final(self).revision() == old(self).revision(),
            match r {
                Ok(()) => old(self).publications().contains_key(identity.account_key@) && old(
                    self,
                ).publications()[identity.account_key@].0 == generation && final(self).publications() == old(
                    self,
                ).publications().insert(identity.account_key@, (generation, Some(identity_view(*identity)))),
                Err(e) => !(old(self).publications().contains_key(identity.account_key@) && old(
                    self,
                ).publications()[identity.account_key@].0 == generation) && final(self).publications() == old(
                    self,
                ).publications() && e@ == "Timeline view was replaced while opening"@,
            },
    {
        if self.active_publications.activate(identity, generation) {
            Ok(())
        } else {
            Err("Timeline view was replaced while opening".to_owned())
        }
    }

    /// Whether the view may publish: it is the view activated last for its
    /// account.
    pub fn view_may_publish(&self, identity: &RoomTimelineIdentity) -> (r: bool)
        ensures
            r == crate::projection::guard_accepts(self.publications(), identity_view(*identity)),
    {
        self.active_publications.accepts(identity)
    }

    /// No view of the account may publish any more.
    pub fn close_account_view(&mut self, account_key: &str)
        requires
            old(self).wf(),
        ensures
            final(self).wf(),
            final(self).publications() == old(self).publications().remove(account_key@),
            final(self).live() == old(self).live(),
            final(self).focused() == old(self).focused(),
            final(self).generation() == old(self).generation(),
            final(self).revision() == old(self).revision(),
    {
        self.active_publications.close_account(account_key);
    }

    /// Tears down an account: counts a teardown, stops its views from
    /// publishing, and drops its live and focused timelines, which are
    /// handed out to be invalidated.
    pub fn clear_account(&mut self, account_key: &str) -> (r: Vec<(String, T)>)
        requires
            old(self).wf(),
        ensures
            final(self).wf(),
            final(self).revision() == next_revision(old(self).revision()),
            final(self).publications() == old(self).publications().remove(account_key@),
            final(self).generation() == old(self).generation(),
            forall|k: Seq<char>|
                #[trigger] final(self).live().contains_key(k) <==> old(self).live().contains_key(k) && !starts_with(
                    k,
                    account_key@ + "::"@,
                ),
            forall|k: Seq<char>| #[trigger] final(self).live().contains_key(k) ==> final(self).live()[k] == old(self).live()[k],
            forall|k: Seq<char>|
                #[trigger] final(self).focused().contains_key(k) <==> old(self).focused().contains_key(k)
                    && !starts_with(k, account_key@ + "::"@),
            forall|k: Seq<char>|
                #[trigger] final(self).focused().contains_key(k) ==> final(self).focused()[k] == old(
                    self,
                ).focused()[k],
            forall|k: Seq<char>|
                old(self).live().contains_key(k) && starts_with(k, account_key@ + "::"@) ==> #[trigger] has_key(r@, k),
            forall|k: Seq<char>|
                old(self).focused().contains_key(k) && starts_with(k, account_key@ + "::"@) ==> #[trigger] has_key(
                    r@,
                    k,
                ),
    {
        self.lifecycle_revision = self.lifecycle_revision.wrapping_add(1);
        self.close_account_view(account_key);
        let prefix = concat2(account_key, "::");
        let mut removed = self.live_timelines.remove_with_prefix(prefix.as_str());
        let ghost from_live = removed@;
        let mut focused = self.focused_timelines.remove_with_prefix(prefix.as_str());
        let ghost from_focused = focused@;
        removed.append(&mut focused);
        proof {
            assert forall|k: Seq<char>| has_key(from_live, k) implies #[trigger] has_key(removed@, k) by {
                let i = choose|i: int| 0 <= i < from_live.len() && (#[trigger] from_live[i]).0@ == k;
                assert(removed@[i] == from_live[i]);
            }
            assert forall|k: Seq<char>| has_key(from_focused, k) implies #[trigger] has_key(removed@, k) by {
                let i = choose|i: int| 0 <= i < from_focused.len() && (#[trigger] from_focused[i]).0@ == k;
                assert(removed@[from_live.len() + i] == from_focused[i]);
            }
        }
        removed
    }

    /// Tears down every account: stops every view from publishing, counts
    /// a teardown, and drops all timelines, which are handed out to be
    /// invalidated.
    pub fn clear_all(&mut self) -> (r: Vec<(String, T)>)
        requires
            old(self).wf(),
        ensures
            final(self).wf(),
            final(self).revision() == next_revision(old(self).revision()),
            final(self).publications() == Map::<
                Seq<char>,
                (u64, Option<(Seq<char>, Seq<char>, Seq<char>, Option<Seq<char>>)>),
            >::empty(),
            final(self).generation() == old(self).generation(),
            final(self).live() == Map::<Seq<char>, T>::empty(),
            final(self).focused() == Map::<Seq<char>, T>::empty(),
            forall|k: Seq<char>| old(self).live().contains_key(k) ==> #[trigger] has_key(r@, k),
            forall|k: Seq<char>| old(self).focused().contains_key(k) ==> #[trigger] has_key(r@, k),
    {
        self.active_publications.close_all();
        self.lifecycle_revision = self.lifecycle_revision.wrapping_add(1);
        let mut removed = self.live_timelines.clear();
        let ghost from_live = removed@;
        let mut focused = self.focused_timelines.clear();
        let ghost from_focused = focused@;
        removed.append(&mut focused);
        proof {
            assert forall|k: Seq<char>| has_key(from_live, k) implies #[trigger] has_key(removed@, k) by {
                let i = choose|i: int| 0 <= i < from_live.len() && (#[trigger] from_live[i]).0@ == k;
                assert(removed@[i] == from_live[i]);
            }
            assert forall|k: Seq<char>| has_key(from_focused, k) implies #[trigger] has_key(removed@, k) by {
                let i = choose|i: int| 0 <= i < from_focused.len() && (#[trigger] from_focused[i]).0@ == k;
                assert(removed@[from_live.len() + i] == from_focused[i]);
            }
        }
        removed
    }
}

/// A teardown always changes the revision, so a timeline whose build began
/// before a teardown of its account (or of all accounts) is never kept.
pub proof fn lemma_teardown_refuses_earlier_builds(revision: u64)
    ensures
        next_revision(revision) != revision,
{
}

// ---------------------------------------------------------------------------
// Windows of items
// ---------------------------------------------------------------------------

/// The newest `limit` items, oldest first.
pub fn latest_items(items: &[RoomTimelineItem], limit: u16) -> (r: Vec<RoomTimelineItem>)
    ensures
        r@ == items@.skip(if items@.len() > limit { items@.len() - limit } else { 0 }),
{
    let len: usize = items.len();
    let limit: usize = limit as usize;
    let start: usize = if len > limit {
        len - limit
    } else {
        0
    };
    let r = copy_items(items, start, len);
    assert(items@.subrange(start as int, len as int) == items@.skip(start as int));
    r
}

/// Whether an item was not there before: its event id is not among those
/// seen.
pub open spec fn is_unseen(item: RoomTimelineItem, seen_ids: Seq<String>) -> bool {
    !holds_id(seen_ids, item.event_id@)
}

/// The items that pagination revealed: those whose event id was not seen
/// before, in order.
pub fn unseen_items(items: Vec<RoomTimelineItem>, seen_ids: &[String]) -> (r: Vec<RoomTimelineItem>)
    ensures
        r@ == items@.filter(|item: RoomTimelineItem| is_unseen(item, seen_ids@)),
{
    let ghost all = items@;
    let ghost keep = |item: RoomTimelineItem| is_unseen(item, seen_ids@);
    let total: usize = items.len();
    let mut rest = items;
    let mut taken: usize = 0;
    let mut out: Vec<RoomTimelineItem> = Vec::new();
    assert(rest@ == all.skip(0));
    proof {
        reveal(Seq::filter);
        assert(all.take(0).filter(keep) =~= Seq::<RoomTimelineItem>::empty());
    }
    while rest.len() > 0
        invariant
            taken + rest@.len() == all.len(),
            all.len() == total,
            rest@ == all.skip(taken as int),
            keep == (|item: RoomTimelineItem| is_unseen(item, seen_ids@)),
            out@ == all.take(taken as int).filter(keep),
        decreases rest.len(),
    {
        let item = rest.remove(0);
        proof {
            crate::search::lemma_filter_take_next(all, keep, taken as int);
        }
        if !seen_contains(seen_ids, item.event_id.as_str()) {
            out.push(item);
        }
        taken = taken + 1;
        assert(rest@ == all.skip(taken as int));
    }
    assert(all.take(all.len() as int) == all);
    out
}

fn seen_contains(seen_ids: &[String], id: &str) -> (r: bool)
    ensures
        r == holds_id(seen_ids@, id@),
{
    let mut i: usize = 0;
    while i < seen_ids.len()
        invariant
            i <= seen_ids@.len(),
            forall|j: int| 0 <= j < i ==> (#[trigger] seen_ids@[j])@ != id@,
        decreases seen_ids.len() - i,
    {
        if str_eq(seen_ids[i].as_str(), id) {
            return true;
        }
        i = i + 1;
    }
    false
}

/// Whether restoring a live window pages back once more: while fewer items
/// show than asked for, the start was not reached, and passes are left.
pub fn restore_pagination_continues(shown: usize, visible_limit: u16, hit_timeline_start: bool, attempts: usize) -> (r:
    bool)
    ensures
        r == (shown < visible_limit && !hit_timeline_start && attempts < TIMELINE_RESTORE_PAGINATION_ATTEMPTS),
{
    shown < visible_limit as usize && !hit_timeline_start && attempts < TIMELINE_RESTORE_PAGINATION_ATTEMPTS
}

/// The live window shown after restoring: every item when the timeline
/// already held items, else the newest `visible_limit`; and whether the
/// window reaches the start of the room.
pub fn live_timeline_window(
    items: &[RoomTimelineItem],
    had_existing_items: bool,
    visible_limit: u16,
    hit_timeline_start: bool,
) -> (r: (Vec<RoomTimelineItem>, bool))
    ensures
        ({
            let start = if had_existing_items {
                0
            } else if items@.len() > visible_limit {
                items@.len() - visible_limit
            } else {
                0
            };
            &&& r.0@ == items@.skip(start)
            &&& r.1 == (hit_timeline_start && start == 0)
        }),
{
    let len: usize = items.len();
    let visible: usize = visible_limit as usize;
    let start: usize = if had_existing_items {
        0
    } else if len > visible {
        len - visible
    } else {
        0
    };
    let window = copy_items(items, start, len);
    assert(items@.subrange(start as int, len as int) == items@.skip(start as int));
    (window, hit_timeline_start && start == 0)
}

} // verus!
