//! Indexing the history of rooms for search, a little at a time: which
//! rooms get a backfill task, and how one pass over a room moves its
//! progress along, batch by batch, within a budget.
use vstd::prelude::*;

use crate::discovery::{most_recent_first, room_before};
use crate::keyed::{has_key, KeyedCache};
use crate::search::{new_backfill_progress, task_key, SearchBackfillState, SearchRoomBackfillProgress};
use crate::text::{concat2, starts_with};

verus! {

broadcast use vstd::seq_lib::group_seq_properties;

/// How many items one backfill request asks for.
pub const BACKFILL_PAGE_SIZE: u16 = 20;

/// How many rooms of an account are backfilled at once.
pub const BACKFILL_CONCURRENT_ROOM_LIMIT: usize = 1;

/// How many batches one pass over a room fetches at most.
pub const BACKFILL_MAX_ROOM_BATCHES_PER_TICK: usize = 2;

/// How many seconds a pass waits between batches.
pub const BACKFILL_REQUEST_COOLDOWN_SECS: u64 = 3;

/// How many events one pass indexes before it yields.
pub const BACKFILL_SESSION_EVENT_BUDGET: u64 = 1000;

// ---------------------------------------------------------------------------
// Tasks
// ---------------------------------------------------------------------------

/// The running backfill tasks, by account and room.
#[derive(Debug)]
pub struct SearchBackfillCoordinator<H> {
    handles: KeyedCache<H>,
}

impl<H> SearchBackfillCoordinator<H> {
    /// The running tasks, by task key.
    pub closed spec fn tasks(&self) -> Map<Seq<char>, H> {
        self.handles@
    }

    /// Each task key once.
    pub closed spec fn wf(&self) -> bool {
        self.handles.wf()
    }

    /// No task running.
    pub fn new() -> (r: Self)
        ensures
            r.wf(),
            r.tasks() == Map::<Seq<char>, H>::empty(),
    {
        SearchBackfillCoordinator { handles: KeyedCache::new() }
    }

    /// How many tasks of the account run.
    pub fn active_account_backfill_count(&self, account_key: &str) -> (r: usize)
        requires
            self.wf(),
        ensures
            r == self.tasks().dom().filter(|k: Seq<char>| starts_with(k, account_key@ + "::"@)).len(),
    {
        let prefix = concat2(account_key, "::");
        self.handles.count_with_prefix(prefix.as_str())
    }

    /// Whether a task runs for the room.
    pub fn is_scheduled(&self, account_key: &str, room_id: &str) -> (r: bool)
        requires
            self.wf(),
        ensures
            r == self.tasks().contains_key(account_key@ + "::"@ + room_id@),
    {
        let key = task_key(account_key, room_id);
        self.handles.get(key.as_str()).is_some()
    }

    /// Records the task started for the room, unless one runs for it.
    pub fn record_task(&mut self, account_key: &str, room_id: &str, handle: H)
        requires
            old(self).wf(),
        ensures
            final(self).wf(),
            final(self).tasks() == if old(self).tasks().contains_key(account_key@ + "::"@ + room_id@) {
                old(self).tasks()
            } else {
                old(self).tasks().insert(account_key@ + "::"@ + room_id@, handle)
            },
    {
        let key = task_key(account_key, room_id);
        self.handles.insert_if_absent(key, handle);
    }

    /// Forgets the task of the room once it ended.
    pub fn finish_task(&mut self, account_key: &str, room_id: &str) -> (r: Option<H>)
        requires
            old(self).wf(),
        ensures
            final(self).wf(),
            final(self).tasks() == old(self).tasks().remove(account_key@ + "::"@ + room_id@),
    {
        let key = task_key(account_key, room_id);
        self.handles.remove(key.as_str())
    }

    /// Stops tracking every task of the account; they are handed out to be
    /// aborted.
    pub fn stop_account(&mut self, account_key: &str) -> (r: Vec<(String, H)>)
        requires
            old(self).wf(),
        ensures
            final(self).wf(),
            forall|k: Seq<char>|
                #[trigger] final(self).tasks().contains_key(k) <==> old(self).tasks().contains_key(k) && !starts_with(
                    k,
                    account_key@ + "::"@,
                ),
            forall|k: Seq<char>|
                old(self).tasks().contains_key(k) && starts_with(k, account_key@ + "::"@) ==> #[trigger] has_key(
                    r@,
                    k,
                ),
            forall|i: int|
                0 <= i < r@.len() ==> old(self).tasks().contains_key((#[trigger] r@[i]).0@) && starts_with(
                    r@[i].0@,
                    account_key@ + "::"@,
                ),
    {
        let prefix = concat2(account_key, "::");
        self.handles.remove_with_prefix(prefix.as_str())
    }

    /// Stops tracking every task; they are handed out to be aborted.
    pub fn stop_all(&mut self) -> (r: Vec<(String, H)>)
        requires
            old(self).wf(),
        ensures
            final(self).wf(),
            final(self).tasks() == Map::<Seq<char>, H>::empty(),
            forall|k: Seq<char>| #[trigger] old(self).tasks().contains_key(k) ==> has_key(r@, k),
    {
        self.handles.clear()
    }
}

/// The rooms whose backfill starts now: none when the account already has
/// as many tasks as it may; otherwise the most recently active rooms, as
/// many as slots are free, most recent first, ties in their given order.
pub fn rooms_to_backfill(active_count: usize, room_candidates: &[(String, u64)]) -> (r: Vec<String>)
    ensures
        ({
            let free = if active_count < BACKFILL_CONCURRENT_ROOM_LIMIT {
                BACKFILL_CONCURRENT_ROOM_LIMIT - active_count
            } else {
                0
            };
            let acts = room_candidates@.map_values(|c: (String, u64)| c.1);
            &&& r@.len() == if room_candidates@.len() < free {
                room_candidates@.len()
            } else {
                free as nat
            }
            &&& exists|order: Seq<usize>|
                #![trigger order.len()]
                order.len() == r@.len() && (forall|i: int|
                    0 <= i < order.len() ==> #[trigger] order[i] < room_candidates@.len() && r@[i]
                        == room_candidates@[order[i] as int].0) && (forall|i: int, j: int|
                    0 <= i < j < order.len() ==> order[i] != order[j] && room_before(
                        acts,
                        #[trigger] order[i],
                        #[trigger] order[j],
                    )) && (forall|k: usize, i: int|
                    0 <= i < order.len() && k < acts.len() && !order.contains(k) ==> #[trigger] room_before(
                        acts,
                        order[i],
                        k,
                    ))
        }),
{
    let free: usize = if active_count < BACKFILL_CONCURRENT_ROOM_LIMIT {
        BACKFILL_CONCURRENT_ROOM_LIMIT - active_count
    } else {
        0
    };
    let mut activities: Vec<u64> = Vec::new();
    let mut i: usize = 0;
    while i < room_candidates.len()
        invariant
            i <= room_candidates@.len(),
            activities@.len() == i,
            forall|j: int| 0 <= j < i ==> activities@[j] == (#[trigger] room_candidates@[j]).1,
        decreases room_candidates.len() - i,
    {
        activities.push(room_candidates[i].1);
        i = i + 1;
    }
    let ghost acts = room_candidates@.map_values(|c: (String, u64)| c.1);
    assert(activities@ =~= acts);
    let order = most_recent_first(&activities, free);
    let mut out: Vec<String> = Vec::new();
    let mut j: usize = 0;
    while j < order.len()
        invariant
            j <= order@.len(),
            out@.len() == j,
            forall|m: int| 0 <= m < order@.len() ==> #[trigger] order@[m] < room_candidates@.len(),
            forall|m: int| 0 <= m < j ==> out@[m] == room_candidates@[(#[trigger] order@[m]) as int].0,
        decreases order.len() - j,
    {
        out.push(room_candidates[order[j]].0.clone());
        j = j + 1;
    }
    assert(order@.len() == out@.len());
    out
}

// ---------------------------------------------------------------------------
// One pass over a room
// ---------------------------------------------------------------------------

/// Where one backfill pass over a room stands: the room's progress, how
/// many events this pass indexed, and how many batches it fetched.
#[derive(Debug)]
pub struct RoomBackfillPass {
    pub progress: SearchRoomBackfillProgress,
    pub indexed_this_tick: u64,
    pub batches: usize,
}

/// What a pass does next.
#[derive(Debug)]
pub enum RoomBackfillAction {
    /// Fetch the next batch, from this token.
    FetchBatch { token: Option<String> },
    /// Stop, and save the progress.
    SaveProgress,
}

/// Starts a pass over a room from its stored progress, or from fresh
/// progress when none is stored: none when the room is already complete;
/// otherwise the progress marks the room as indexing, with no error, as
/// indexed now.
pub fn start_room_backfill_pass(
    stored: Option<SearchRoomBackfillProgress>,
    account_key: &str,
    room_id: &str,
    now_unix_ms: u64,
) -> (r: Option<RoomBackfillPass>)
    ensures
        match stored {
            Some(p) => if p.backfill_state == SearchBackfillState::Complete {
                r is None
            } else {
                r matches Some(pass) && pass.progress == (SearchRoomBackfillProgress {
                    backfill_state: SearchBackfillState::Indexing,
                    last_error: None,
                    last_indexed_at_unix_ms: Some(now_unix_ms),
                    ..p
                }) && pass.indexed_this_tick == 0 && pass.batches == 0
            },
            None => r matches Some(pass) && pass.progress.account_key@ == account_key@ && pass.progress.room_id@
                == room_id@ && pass.progress.room_kind@ == "conversation"@ && pass.progress.backfill_token is None
                && pass.progress.backfill_state == SearchBackfillState::Indexing && pass.progress.indexed_event_count
                == 0 && pass.progress.last_indexed_at_unix_ms == Some(now_unix_ms) && pass.progress.last_error is None
                && pass.indexed_this_tick == 0 && pass.batches == 0,
        },
{
    let mut progress = match stored {
        Some(p) => p,
        None => new_backfill_progress(account_key, room_id),
    };
    if progress.backfill_state == SearchBackfillState::Complete {
        return None;
    }
    progress.backfill_state = SearchBackfillState::Indexing;
    progress.last_error = None;
    progress.last_indexed_at_unix_ms = Some(now_unix_ms);
    Some(RoomBackfillPass { progress, indexed_this_tick: 0, batches: 0 })
}

/// The next step of a pass: stop once the room is complete; stop after the
/// last batch a pass may fetch, queueing a room still being indexed; stop
/// and queue the room once the pass used its budget; otherwise fetch from
/// the room's token.
pub fn next_backfill_action(pass: &mut RoomBackfillPass) -> (r: RoomBackfillAction)
    ensures
        final(pass).indexed_this_tick == old(pass).indexed_this_tick,
        final(pass).batches == old(pass).batches,
        r is FetchBatch ==> old(pass).batches < BACKFILL_MAX_ROOM_BATCHES_PER_TICK,
        r is SaveProgress ==> final(pass).progress.backfill_state != SearchBackfillState::Indexing,
        if old(pass).progress.backfill_state == SearchBackfillState::Complete {
            r is SaveProgress && final(pass).progress == old(pass).progress
        } else if old(pass).batches >= BACKFILL_MAX_ROOM_BATCHES_PER_TICK {
            r is SaveProgress && final(pass).progress == (SearchRoomBackfillProgress {
                backfill_state: if old(pass).progress.backfill_state == SearchBackfillState::Indexing {
                    SearchBackfillState::Queued
                } else {
                    old(pass).progress.backfill_state
                },
                ..old(pass).progress
            })
        } else if old(pass).indexed_this_tick >= BACKFILL_SESSION_EVENT_BUDGET {
            r is SaveProgress && final(pass).progress == (SearchRoomBackfillProgress {
                backfill_state: SearchBackfillState::Queued,
                ..old(pass).progress
            })
        } else {
            r == RoomBackfillAction::FetchBatch { token: old(pass).progress.backfill_token }
                && final(pass).progress == old(pass).progress
        },
{
    if pass.progress.backfill_state == SearchBackfillState::Complete {
        return RoomBackfillAction::SaveProgress;
    }
    if pass.batches >= BACKFILL_MAX_ROOM_BATCHES_PER_TICK {
        if pass.progress.backfill_state == SearchBackfillState::Indexing {
            pass.progress.backfill_state = SearchBackfillState::Queued;
        }
        return RoomBackfillAction::SaveProgress;
    }
    if pass.indexed_this_tick >= BACKFILL_SESSION_EVENT_BUDGET {
        pass.progress.backfill_state = SearchBackfillState::Queued;
        return RoomBackfillAction::SaveProgress;
    }
    let token = crate::timeline::clone_opt_string(&pass.progress.backfill_token);
    RoomBackfillAction::FetchBatch { token }
}

/// Whether a fetched batch shows the end of the room's history: no items,
/// no redactions, and no token to go on from.
pub fn backfill_batch_is_empty(item_count: usize, redacted_count: usize, next_token: &Option<String>) -> (r: bool)
    ensures
        r == (item_count == 0 && redacted_count == 0 && next_token is None),
{
    item_count == 0 && redacted_count == 0 && next_token.is_none()
}

/// Marks the room complete when its history ended: no token left.
pub fn complete_empty_backfill(pass: &mut RoomBackfillPass)
    ensures
        final(pass).progress == (SearchRoomBackfillProgress {
            backfill_state: SearchBackfillState::Complete,
            backfill_token: None,
            ..old(pass).progress
        }),
        final(pass).indexed_this_tick == old(pass).indexed_this_tick,
        final(pass).batches == old(pass).batches,
{
    pass.progress.backfill_state = SearchBackfillState::Complete;
    pass.progress.backfill_token = None;
}

/// The sum of two counts, held at `u64::MAX`.
pub open spec fn saturated_sum(a: u64, b: u64) -> u64 {
    if a + b > u64::MAX {
        u64::MAX
    } else {
        (a + b) as u64
    }
}

/// Records a batch whose items were indexed: the counts grow (saturating),
/// the room's token moves on, the time is now, and the room is complete
/// when no token is left. Says whether the pass cools down before going
/// on: when the room is not complete.
pub fn record_indexed_batch(
    pass: &mut RoomBackfillPass,
    item_count: usize,
    next_token: Option<String>,
    now_unix_ms: u64,
) -> (r: bool)
    requires
        old(pass).batches < usize::MAX,
    ensures
        final(pass).indexed_this_tick == saturated_sum(old(pass).indexed_this_tick, item_count as u64),
        final(pass).batches == old(pass).batches + 1,
        final(pass).progress == (SearchRoomBackfillProgress {
            indexed_event_count: saturated_sum(old(pass).progress.indexed_event_count, item_count as u64),
            backfill_token: next_token,
            last_indexed_at_unix_ms: Some(now_unix_ms),
            backfill_state: if next_token is None {
                SearchBackfillState::Complete
            } else {
                old(pass).progress.backfill_state
            },
            ..old(pass).progress
        }),
        r == (next_token is Some),
{
    let count = item_count as u64;
    pass.indexed_this_tick = pass.indexed_this_tick.saturating_add(count);
    pass.progress.indexed_event_count = pass.progress.indexed_event_count.saturating_add(count);
    let cool_down = next_token.is_some();
    pass.progress.backfill_token = next_token;
    pass.progress.last_indexed_at_unix_ms = Some(now_unix_ms);
    if !cool_down {
        pass.progress.backfill_state = SearchBackfillState::Complete;
    }
    pass.batches = pass.batches + 1;
    cool_down
}

} // verus!
