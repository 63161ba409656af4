//! The locally cached window of a room timeline: how far a reopened room is
//! restored, how a refresh from the server is merged into the cached items,
//! and how older pages are prepended to them.
use vstd::prelude::*;

use crate::discovery::{RoomThreadSummary, SpaceSummary};
use crate::text::{
    lemma_text_le_total, lemma_text_le_trans, opt_view, str_eq, strings_view, text_le, text_le_exec,
};
use crate::timeline::{clone_opt_string, RoomTimelineItem};

verus! {

broadcast use vstd::seq_lib::group_seq_properties;

// ---------------------------------------------------------------------------
// Restored window
// ---------------------------------------------------------------------------

/// The number of items restored for a room: the remembered number, capped
/// by the maximum, but at least the requested page; the requested page when
/// nothing is remembered; at most `u16::MAX`.
pub open spec fn restored_limit(requested_limit: u16, remembered_count: Option<usize>, maximum_restored_count: usize) -> u16 {
    match remembered_count {
        None => requested_limit,
        Some(c) => {
            let capped = if c < maximum_restored_count {
                c
            } else {
                maximum_restored_count
            };
            let n = if capped > requested_limit {
                capped
            } else {
                requested_limit as usize
            };
            if n > u16::MAX {
                u16::MAX
            } else {
                n as u16
            }
        },
    }
}

/// The number of items restored for a room.
pub fn restored_timeline_limit(requested_limit: u16, remembered_count: Option<usize>, maximum_restored_count: usize) -> (r:
    u16)
    ensures
        r == restored_limit(requested_limit, remembered_count, maximum_restored_count),
{
    let requested = requested_limit as usize;
    let remembered = match remembered_count {
        Some(c) => c,
        None => {
            return requested_limit;
        },
    };
    let capped = if remembered < maximum_restored_count {
        remembered
    } else {
        maximum_restored_count
    };
    let restored = if capped > requested {
        capped
    } else {
        requested
    };
    if restored > 65535 {
        65535
    } else {
        restored as u16
    }
}

// ---------------------------------------------------------------------------
// Cached items
// ---------------------------------------------------------------------------

/// A room's cached timeline items, oldest first, and the token that pages
/// further back from them.
#[derive(Debug)]
pub struct CachedRoomTimeline {
    pub items: Vec<RoomTimelineItem>,
    pub next_before: Option<String>,
}

/// The event ids of some items.
pub open spec fn ids_of(items: Seq<RoomTimelineItem>) -> Seq<Seq<char>> {
    Seq::new(items.len(), |i: int| items[i].event_id@)
}

/// The last item with the event id, if any.
pub open spec fn last_with_id(items: Seq<RoomTimelineItem>, id: Seq<char>) -> Option<RoomTimelineItem>
    decreases items.len(),
{
    if items.len() == 0 {
        None
    } else if items.last().event_id@ == id {
        Some(items.last())
    } else {
        last_with_id(items.drop_last(), id)
    }
}

/// The cached items that were not redacted, each replaced by the last
/// refreshed item with its event id where there is one.
pub open spec fn refreshed_cached(
    cached: Seq<RoomTimelineItem>,
    refreshed: Seq<RoomTimelineItem>,
    redacted: Seq<Seq<char>>,
) -> Seq<RoomTimelineItem>
    decreases cached.len(),
{
    if cached.len() == 0 {
        Seq::empty()
    } else {
        let rest = refreshed_cached(cached.drop_last(), refreshed, redacted);
        let c = cached.last();
        if redacted.contains(c.event_id@) {
            rest
        } else {
            rest.push(
                match last_with_id(refreshed, c.event_id@) {
                    Some(r) => r,
                    None => c,
                },
            )
        }
    }
}

/// The refreshed items whose event is neither cached nor redacted.
pub open spec fn new_refreshed(
    refreshed: Seq<RoomTimelineItem>,
    cached_ids: Seq<Seq<char>>,
    redacted: Seq<Seq<char>>,
) -> Seq<RoomTimelineItem>
    decreases refreshed.len(),
{
    if refreshed.len() == 0 {
        Seq::empty()
    } else {
        let rest = new_refreshed(refreshed.drop_last(), cached_ids, redacted);
        let r = refreshed.last();
        if cached_ids.contains(r.event_id@) || redacted.contains(r.event_id@) {
            rest
        } else {
            rest.push(r)
        }
    }
}

/// The older items to prepend: those whose event is neither cached nor
/// taken by an older item kept before them.
pub open spec fn fresh_older(older: Seq<RoomTimelineItem>, cached_ids: Seq<Seq<char>>) -> Seq<RoomTimelineItem>
    decreases older.len(),
{
    if older.len() == 0 {
        Seq::empty()
    } else {
        let rest = fresh_older(older.drop_last(), cached_ids);
        let o = older.last();
        if cached_ids.contains(o.event_id@) || ids_of(rest).contains(o.event_id@) {
            rest
        } else {
            rest.push(o)
        }
    }
}

fn contains_id(ids: &[String], id: &str) -> (r: bool)
    ensures
        r == strings_view(ids@).contains(id@),
{
    let mut i: usize = 0;
    while i < ids.len()
        invariant
            i <= ids@.len(),
            forall|j: int| 0 <= j < i ==> (#[trigger] ids@[j])@ != id@,
        decreases ids.len() - i,
    {
        if str_eq(ids[i].as_str(), id) {
            assert(strings_view(ids@)[i as int] == id@);
            return true;
        }
        i = i + 1;
    }
    proof {
        if strings_view(ids@).contains(id@) {
            let j = choose|j: int| 0 <= j < strings_view(ids@).len() && strings_view(ids@)[j] == id@;
            assert(ids@[j]@ == id@);
        }
    }
    false
}

fn event_ids(items: &[RoomTimelineItem]) -> (r: Vec<String>)
    ensures
        strings_view(r@) == ids_of(items@),
{
    let mut out: Vec<String> = Vec::new();
    let mut i: usize = 0;
    while i < items.len()
        invariant
            i <= items@.len(),
            strings_view(out@) == ids_of(items@.take(i as int)),
        decreases items.len() - i,
    {
        let ghost before = out@;
        out.push(items[i].event_id.clone());
        assert(strings_view(out@) == strings_view(before).push(items@[i as int].event_id@));
        assert(ids_of(items@.take(i + 1)) == ids_of(items@.take(i as int)).push(items@[i as int].event_id@));
        i = i + 1;
    }
    assert(items@.take(items@.len() as int) == items@);
    out
}

fn find_last_with_id(items: &[RoomTimelineItem], id: &str) -> (r: Option<usize>)
    ensures
        match r {
            Some(i) => i < items@.len() && last_with_id(items@, id@) == Some(items@[i as int]),
            None => last_with_id(items@, id@) is None,
        },
{
    let mut i = items.len();
    assert(items@.take(i as int) == items@);
    while i > 0
        invariant
            i <= items@.len(),
            last_with_id(items@, id@) == last_with_id(items@.take(i as int), id@),
        decreases i,
    {
        assert(items@.take(i as int).drop_last() == items@.take(i - 1));
        assert(items@.take(i as int).last() == items@[i - 1]);
        if str_eq(items[i - 1].event_id.as_str(), id) {
            return Some(i - 1);
        }
        i = i - 1;
    }
    None
}

/// The cached timeline after a refresh from the server. With nothing
/// cached, the refreshed items and their token. Otherwise the cached items
/// that were not redacted, each replaced by its refreshed version where
/// there is one, followed by the refreshed items that are neither cached
/// nor redacted; the cached token is kept.
pub fn merge_cached_room_timeline_refresh(
    cached: Option<CachedRoomTimeline>,
    refreshed_items: &[RoomTimelineItem],
    next_before: Option<&str>,
    redacted_event_ids: &[String],
) -> (r: CachedRoomTimeline)
    ensures
        match cached {
            None => r.items@ == refreshed_items@ && opt_view(r.next_before) == match next_before {
                Some(t) => Some(t@),
                None => None,
            },
            Some(c) => r.items@ == refreshed_cached(c.items@, refreshed_items@, strings_view(redacted_event_ids@))
                + new_refreshed(refreshed_items@, ids_of(c.items@), strings_view(redacted_event_ids@))
                && r.next_before == c.next_before,
        },
{
    let cached = match cached {
        None => {
            let mut items: Vec<RoomTimelineItem> = Vec::new();
            let mut i: usize = 0;
            while i < refreshed_items.len()
                invariant
                    i <= refreshed_items@.len(),
                    items@ == refreshed_items@.take(i as int),
                decreases refreshed_items.len() - i,
            {
                items.push(refreshed_items[i].duplicate());
                assert(refreshed_items@.take(i + 1) == refreshed_items@.take(i as int).push(refreshed_items@[i as int]));
                i = i + 1;
            }
            assert(refreshed_items@.take(refreshed_items@.len() as int) == refreshed_items@);
            let token = match next_before {
                Some(t) => Some(t.to_owned()),
                None => None,
            };
            return CachedRoomTimeline { items, next_before: token };
        },
        Some(c) => c,
    };
    let ghost redacted = strings_view(redacted_event_ids@);
    let ghost cached_items = cached.items@;
    let mut merged: Vec<RoomTimelineItem> = Vec::new();
    let mut i: usize = 0;
    while i < cached.items.len()
        invariant
            i <= cached.items@.len(),
            cached_items == cached.items@,
            redacted == strings_view(redacted_event_ids@),
            merged@ == refreshed_cached(cached.items@.take(i as int), refreshed_items@, redacted),
        decreases cached.items.len() - i,
    {
        let item = &cached.items[i];
        assert(cached.items@.take(i + 1).drop_last() == cached.items@.take(i as int));
        assert(cached.items@.take(i + 1).last() == cached.items@[i as int]);
        if !contains_id(redacted_event_ids, item.event_id.as_str()) {
            match find_last_with_id(refreshed_items, item.event_id.as_str()) {
                Some(k) => merged.push(refreshed_items[k].duplicate()),
                None => merged.push(item.duplicate()),
            }
        }
        i = i + 1;
    }
    assert(cached.items@.take(cached.items@.len() as int) == cached.items@);
    let cached_ids = event_ids(&cached.items);
    let ghost head = merged@;
    let mut j: usize = 0;
    while j < refreshed_items.len()
        invariant
            j <= refreshed_items@.len(),
            redacted == strings_view(redacted_event_ids@),
            strings_view(cached_ids@) == ids_of(cached_items),
            merged@ == head + new_refreshed(refreshed_items@.take(j as int), ids_of(cached_items), redacted),
        decreases refreshed_items.len() - j,
    {
        let item = &refreshed_items[j];
        assert(refreshed_items@.take(j + 1).drop_last() == refreshed_items@.take(j as int));
        assert(refreshed_items@.take(j + 1).last() == refreshed_items@[j as int]);
        if !contains_id(&cached_ids, item.event_id.as_str()) && !contains_id(redacted_event_ids, item.event_id.as_str()) {
            merged.push(item.duplicate());
        }
        j = j + 1;
    }
    assert(refreshed_items@.take(refreshed_items@.len() as int) == refreshed_items@);
    CachedRoomTimeline { items: merged, next_before: cached.next_before }
}

/// The cached timeline after an older page: with nothing cached, the page
/// and its token; otherwise the page's items whose event is not cached yet
/// (the first of each event only), followed by the cached items, under the
/// page's token.
pub fn prepend_cached_room_timeline_items(
    cached: Option<CachedRoomTimeline>,
    older_items: &[RoomTimelineItem],
    next_before: Option<&str>,
) -> (r: CachedRoomTimeline)
    ensures
        opt_view(r.next_before) == match next_before {
            Some(t) => Some(t@),
            None => None,
        },
        match cached {
            None => r.items@ == older_items@,
            Some(c) => r.items@ == fresh_older(older_items@, ids_of(c.items@)) + c.items@,
        },
{
    let token = match next_before {
        Some(t) => Some(t.to_owned()),
        None => None,
    };
    let cached = match cached {
        None => {
            let mut items: Vec<RoomTimelineItem> = Vec::new();
            let mut i: usize = 0;
            while i < older_items.len()
                invariant
                    i <= older_items@.len(),
                    items@ == older_items@.take(i as int),
                decreases older_items.len() - i,
            {
                items.push(older_items[i].duplicate());
                assert(older_items@.take(i + 1) == older_items@.take(i as int).push(older_items@[i as int]));
                i = i + 1;
            }
            assert(older_items@.take(older_items@.len() as int) == older_items@);
            return CachedRoomTimeline { items, next_before: token };
        },
        Some(c) => c,
    };
    let ghost cached_ids = ids_of(cached.items@);
    let cached_id_list = event_ids(&cached.items);
    let mut kept_ids: Vec<String> = Vec::new();
    let mut merged: Vec<RoomTimelineItem> = Vec::new();
    let mut i: usize = 0;
    while i < older_items.len()
        invariant
            i <= older_items@.len(),
            cached_ids == ids_of(cached.items@),
            strings_view(cached_id_list@) == cached_ids,
            merged@ == fresh_older(older_items@.take(i as int), cached_ids),
            strings_view(kept_ids@) == ids_of(merged@),
        decreases older_items.len() - i,
    {
        let item = &older_items[i];
        assert(older_items@.take(i + 1).drop_last() == older_items@.take(i as int));
        assert(older_items@.take(i + 1).last() == older_items@[i as int]);
        if !contains_id(&cached_id_list, item.event_id.as_str()) && !contains_id(&kept_ids, item.event_id.as_str()) {
            let ghost before_ids = kept_ids@;
            let ghost before = merged@;
            kept_ids.push(item.event_id.clone());
            merged.push(item.duplicate());
            assert(strings_view(kept_ids@) == strings_view(before_ids).push(item.event_id@));
            assert(ids_of(merged@) == ids_of(before).push(item.event_id@));
        }
        i = i + 1;
    }
    assert(older_items@.take(older_items@.len() as int) == older_items@);
    let mut rest = cached.items;
    let ghost head = merged@;
    let ghost tail = rest@;
    merged.append(&mut rest);
    assert(merged@ == head + tail);
    CachedRoomTimeline { items: merged, next_before: token }
}

// ---------------------------------------------------------------------------
// Laws of the cached window
// ---------------------------------------------------------------------------

/// No event id occurs twice.
pub open spec fn distinct_ids(ids: Seq<Seq<char>>) -> bool {
    forall|i: int, j: int| 0 <= i < j < ids.len() ==> ids[i] != ids[j]
}

/// The restored window is at least the requested page (when the remembered
/// number is known and fits) and never more than the larger of the page and
/// the maximum.
pub proof fn lemma_restored_limit_bounds(requested_limit: u16, remembered_count: Option<usize>, maximum_restored_count: usize)
    ensures
        restored_limit(requested_limit, remembered_count, maximum_restored_count) >= requested_limit,
        restored_limit(requested_limit, remembered_count, maximum_restored_count) <= requested_limit
            || restored_limit(requested_limit, remembered_count, maximum_restored_count) <= maximum_restored_count,
        remembered_count is None ==> restored_limit(requested_limit, remembered_count, maximum_restored_count)
            == requested_limit,
{
}

proof fn lemma_last_with_id(items: Seq<RoomTimelineItem>, id: Seq<char>)
    ensures
        last_with_id(items, id) matches Some(x) ==> x.event_id@ == id,
    decreases items.len(),
{
    if items.len() > 0 {
        lemma_last_with_id(items.drop_last(), id);
    }
}

proof fn lemma_refreshed_cached_not_redacted(
    cached: Seq<RoomTimelineItem>,
    refreshed: Seq<RoomTimelineItem>,
    redacted: Seq<Seq<char>>,
)
    ensures
        forall|i: int|
            0 <= i < refreshed_cached(cached, refreshed, redacted).len() ==> !redacted.contains(
                (#[trigger] refreshed_cached(cached, refreshed, redacted)[i]).event_id@,
            ),
    decreases cached.len(),
{
    if cached.len() > 0 {
        lemma_refreshed_cached_not_redacted(cached.drop_last(), refreshed, redacted);
        lemma_last_with_id(refreshed, cached.last().event_id@);
        let rest = refreshed_cached(cached.drop_last(), refreshed, redacted);
        let all = refreshed_cached(cached, refreshed, redacted);
        assert forall|i: int| 0 <= i < all.len() implies !redacted.contains((#[trigger] all[i]).event_id@) by {
            if i < rest.len() {
                assert(all[i] == rest[i]);
            }
        }
    }
}

proof fn lemma_new_refreshed_not_redacted(
    refreshed: Seq<RoomTimelineItem>,
    cached_ids: Seq<Seq<char>>,
    redacted: Seq<Seq<char>>,
)
    ensures
        forall|i: int|
            0 <= i < new_refreshed(refreshed, cached_ids, redacted).len() ==> !redacted.contains(
                (#[trigger] new_refreshed(refreshed, cached_ids, redacted)[i]).event_id@,
            ),
    decreases refreshed.len(),
{
    if refreshed.len() > 0 {
        lemma_new_refreshed_not_redacted(refreshed.drop_last(), cached_ids, redacted);
        let rest = new_refreshed(refreshed.drop_last(), cached_ids, redacted);
        let all = new_refreshed(refreshed, cached_ids, redacted);
        assert forall|i: int| 0 <= i < all.len() implies !redacted.contains((#[trigger] all[i]).event_id@) by {
            if i < rest.len() {
                assert(all[i] == rest[i]);
            }
        }
    }
}

/// A refresh merged into a cached timeline never keeps a redacted event.
pub proof fn lemma_merge_drops_redacted(
    cached: Seq<RoomTimelineItem>,
    refreshed: Seq<RoomTimelineItem>,
    redacted: Seq<Seq<char>>,
)
    ensures
        forall|i: int|
            0 <= i < (refreshed_cached(cached, refreshed, redacted) + new_refreshed(refreshed, ids_of(cached), redacted)).len()
                ==> !redacted.contains(
                (#[trigger] (refreshed_cached(cached, refreshed, redacted) + new_refreshed(
                    refreshed,
                    ids_of(cached),
                    redacted,
                ))[i]).event_id@,
            ),
{
    lemma_refreshed_cached_not_redacted(cached, refreshed, redacted);
    lemma_new_refreshed_not_redacted(refreshed, ids_of(cached), redacted);
    let a = refreshed_cached(cached, refreshed, redacted);
    let b = new_refreshed(refreshed, ids_of(cached), redacted);
    assert forall|i: int| 0 <= i < (a + b).len() implies !redacted.contains((#[trigger] (a + b)[i]).event_id@) by {
        if i < a.len() {
            assert((a + b)[i] == a[i]);
        } else {
            assert((a + b)[i] == b[i - a.len()]);
        }
    }
}

proof fn lemma_fresh_older_distinct(older: Seq<RoomTimelineItem>, cached_ids: Seq<Seq<char>>)
    ensures
        distinct_ids(ids_of(fresh_older(older, cached_ids))),
        forall|i: int|
            0 <= i < fresh_older(older, cached_ids).len() ==> !cached_ids.contains(
                (#[trigger] fresh_older(older, cached_ids)[i]).event_id@,
            ),
    decreases older.len(),
{
    if older.len() > 0 {
        lemma_fresh_older_distinct(older.drop_last(), cached_ids);
        let rest = fresh_older(older.drop_last(), cached_ids);
        let all = fresh_older(older, cached_ids);
        let o = older.last();
        if !(cached_ids.contains(o.event_id@) || ids_of(rest).contains(o.event_id@)) {
            assert(all == rest.push(o));
            assert forall|i: int, j: int| 0 <= i < j < ids_of(all).len() implies ids_of(all)[i] != ids_of(all)[j] by {
                if j == rest.len() {
                    assert(ids_of(all)[i] == ids_of(rest)[i]);
                } else {
                    assert(ids_of(all)[i] == ids_of(rest)[i]);
                    assert(ids_of(all)[j] == ids_of(rest)[j]);
                }
            }
            assert forall|i: int| 0 <= i < all.len() implies !cached_ids.contains((#[trigger] all[i]).event_id@) by {
                if i < rest.len() {
                    assert(all[i] == rest[i]);
                }
            }
        }
    }
}

/// Prepending an older page never puts an event twice into a cached
/// timeline whose events were distinct.
pub proof fn lemma_prepend_keeps_ids_distinct(older: Seq<RoomTimelineItem>, cached: Seq<RoomTimelineItem>)
    requires
        distinct_ids(ids_of(cached)),
    ensures
        distinct_ids(ids_of(fresh_older(older, ids_of(cached)) + cached)),
{
    lemma_fresh_older_distinct(older, ids_of(cached));
    let a = fresh_older(older, ids_of(cached));
    let all = a + cached;
    assert forall|i: int, j: int| 0 <= i < j < ids_of(all).len() implies ids_of(all)[i] != ids_of(all)[j] by {
        if j < a.len() {
            assert(ids_of(all)[i] == ids_of(a)[i]);
            assert(ids_of(all)[j] == ids_of(a)[j]);
        } else if i < a.len() {
            assert(ids_of(all)[i] == a[i].event_id@);
            assert(ids_of(all)[j] == ids_of(cached)[j - a.len()]);
            assert(!ids_of(cached).contains(a[i].event_id@));
        } else {
            assert(ids_of(all)[i] == ids_of(cached)[i - a.len()]);
            assert(ids_of(all)[j] == ids_of(cached)[j - a.len()]);
        }
    }
}


// ---------------------------------------------------------------------------
// What the timeline view store keeps
// ---------------------------------------------------------------------------

/// The number of items a room is remembered to show after remembering
/// `visible_item_count`: the remembered number never shrinks.
pub open spec fn remembered_count_spec(stored: Option<usize>, visible_item_count: usize) -> usize {
    match stored {
        Some(c) => if c >= visible_item_count {
            c
        } else {
            visible_item_count
        },
        None => visible_item_count,
    }
}

/// The number to store for a room that showed `visible_item_count` items,
/// given what was stored before: the larger of the two.
pub fn remembered_count_after(stored: Option<usize>, visible_item_count: usize) -> (r: usize)
    ensures
        r == remembered_count_spec(stored, visible_item_count),
        r >= visible_item_count,
        stored matches Some(c) ==> r >= c,
{
    match stored {
        Some(c) => if c >= visible_item_count {
            c
        } else {
            visible_item_count
        },
        None => visible_item_count,
    }
}

/// Room summaries with the most recent activity first.
pub open spec fn newest_first(s: Seq<RoomThreadSummary>) -> bool {
    forall|i: int, j: int|
        0 <= i < j < s.len() ==> (#[trigger] s[i]).last_activity_unix_ms >= (#[trigger] s[j]).last_activity_unix_ms
}

/// The cached room list as it is read back: the remembered summaries, each
/// as often as remembered, with the most recent activity first.
pub fn cached_threads_newest_first(summaries: Vec<RoomThreadSummary>) -> (r: Vec<RoomThreadSummary>)
    ensures
        r@.to_multiset() == summaries@.to_multiset(),
        newest_first(r@),
{
    broadcast use vstd::seq_lib::group_to_multiset_ensures;
    broadcast use vstd::multiset::group_multiset_axioms;

    let mut input = summaries;
    let mut out: Vec<RoomThreadSummary> = Vec::new();
    assert(out@.to_multiset() =~= vstd::multiset::Multiset::empty());
    while input.len() > 0
        invariant
            out@.to_multiset().add(input@.to_multiset()) == summaries@.to_multiset(),
            newest_first(out@),
        decreases input.len(),
    {
        let ghost before_input = input@;
        let x = input.remove(0);
        proof {
            vstd::seq_lib::to_multiset_remove(before_input, 0);
            assert(before_input.remove(0) == input@);
            assert(before_input[0] == x);
        }
        let mut k: usize = 0;
        while k < out.len() && out[k].last_activity_unix_ms >= x.last_activity_unix_ms
            invariant
                k <= out@.len(),
                forall|j: int| 0 <= j < k ==> (#[trigger] out@[j]).last_activity_unix_ms >= x.last_activity_unix_ms,
            decreases out.len() - k,
        {
            k = k + 1;
        }
        let ghost before = out@;
        out.insert(k, x);
        proof {
            vstd::seq_lib::to_multiset_insert(before, k as int, x);
            assert(out@ == before.insert(k as int, x));
            assert forall|i: int, j: int| 0 <= i < j < out@.len() implies (#[trigger] out@[i]).last_activity_unix_ms
                >= (#[trigger] out@[j]).last_activity_unix_ms by {
                if i < k && j == k {
                } else if i == k {
                    assert(out@[j] == before[j - 1]);
                    assert(before[k as int].last_activity_unix_ms < x.last_activity_unix_ms);
                } else if j < k {
                    assert(out@[i] == before[i] && out@[j] == before[j]);
                } else if i < k && j > k {
                    assert(out@[i] == before[i] && out@[j] == before[j - 1]);
                } else {
                    assert(out@[i] == before[i - 1] && out@[j] == before[j - 1]);
                }
            }
            assert(before_input.to_multiset() == input@.to_multiset().insert(x));
        }
    }
    assert(input@.to_multiset() =~= vstd::multiset::Multiset::empty());
    out
}

/// Space summaries in order of their names.
pub open spec fn by_name(s: Seq<SpaceSummary>) -> bool {
    forall|i: int, j: int| 0 <= i < j < s.len() ==> text_le((#[trigger] s[i]).name@, (#[trigger] s[j]).name@)
}

/// The cached space list as it is read back: the remembered summaries, each
/// as often as remembered, in order of their names.
pub fn cached_spaces_by_name(summaries: Vec<SpaceSummary>) -> (r: Vec<SpaceSummary>)
    ensures
        r@.to_multiset() == summaries@.to_multiset(),
        by_name(r@),
{
    broadcast use vstd::seq_lib::group_to_multiset_ensures;
    broadcast use vstd::multiset::group_multiset_axioms;

    let mut input = summaries;
    let mut out: Vec<SpaceSummary> = Vec::new();
    assert(out@.to_multiset() =~= vstd::multiset::Multiset::empty());
    while input.len() > 0
        invariant
            out@.to_multiset().add(input@.to_multiset()) == summaries@.to_multiset(),
            by_name(out@),
        decreases input.len(),
    {
        let ghost before_input = input@;
        let x = input.remove(0);
        proof {
            vstd::seq_lib::to_multiset_remove(before_input, 0);
            assert(before_input.remove(0) == input@);
            assert(before_input[0] == x);
        }
        let mut k: usize = 0;
        while k < out.len() && text_le_exec(out[k].name.as_str(), x.name.as_str())
            invariant
                k <= out@.len(),
                forall|j: int| 0 <= j < k ==> text_le((#[trigger] out@[j]).name@, x.name@),
            decreases out.len() - k,
        {
            k = k + 1;
        }
        let ghost before = out@;
        proof {
            assert forall|j: int| k <= j < before.len() implies text_le(x.name@, (#[trigger] before[j]).name@) by {
                lemma_text_le_total(before[k as int].name@, x.name@);
                if j > k {
                    assert(text_le(before[k as int].name@, before[j].name@));
                    lemma_text_le_trans(x.name@, before[k as int].name@, before[j].name@);
                }
            }
        }
        out.insert(k, x);
        proof {
            vstd::seq_lib::to_multiset_insert(before, k as int, x);
            assert(out@ == before.insert(k as int, x));
            assert forall|i: int, j: int| 0 <= i < j < out@.len() implies text_le(
                (#[trigger] out@[i]).name@,
                (#[trigger] out@[j]).name@,
            ) by {
                if i < k && j == k {
                } else if i == k {
                    assert(out@[j] == before[j - 1]);
                } else if j < k {
                    assert(out@[i] == before[i] && out@[j] == before[j]);
                } else if i < k && j > k {
                    assert(out@[i] == before[i] && out@[j] == before[j - 1]);
                } else {
                    assert(out@[i] == before[i - 1] && out@[j] == before[j - 1]);
                }
            }
            assert(before_input.to_multiset() == input@.to_multiset().insert(x));
        }
    }
    assert(input@.to_multiset() =~= vstd::multiset::Multiset::empty());
    out
}

/// The cached timeline of a room as it is read back: none without a stored
/// timeline state or without items; else the items, in their stored order,
/// and the stored back-pagination token.
pub fn cached_timeline_from_rows(state: Option<Option<String>>, items: Vec<RoomTimelineItem>) -> (r: Option<
    CachedRoomTimeline,
>)
    ensures
        match state {
            None => r is None,
            Some(next_before) => if items@.len() == 0 {
                r is None
            } else {
                r matches Some(c) && c.items@ == items@ && c.next_before == next_before
            },
        },
{
    match state {
        None => None,
        Some(next_before) => if items.len() == 0 {
            None
        } else {
            Some(CachedRoomTimeline { items, next_before })
        },
    }
}


/// A cached item as a refresh leaves it: the last refreshed item with its
/// event id, where there is one, else the item itself.
pub open spec fn refreshed_or_kept(refreshed: Seq<RoomTimelineItem>, x: RoomTimelineItem) -> RoomTimelineItem {
    match last_with_id(refreshed, x.event_id@) {
        Some(r) => r,
        None => x,
    }
}

/// The merge of a refresh into a cached timeline, written as filters: the
/// cached items whose ids were not redacted, each refreshed where the
/// refresh holds its id, then the refreshed items whose ids are neither
/// cached nor redacted, all in their order.
pub proof fn lemma_merge_as_filters(
    cached: Seq<RoomTimelineItem>,
    refreshed: Seq<RoomTimelineItem>,
    redacted: Seq<Seq<char>>,
)
    ensures
        refreshed_cached(cached, refreshed, redacted) == cached.filter(
            |x: RoomTimelineItem| !redacted.contains(x.event_id@),
        ).map_values(|x: RoomTimelineItem| refreshed_or_kept(refreshed, x)),
        new_refreshed(refreshed, ids_of(cached), redacted) == refreshed.filter(
            |y: RoomTimelineItem| !ids_of(cached).contains(y.event_id@) && !redacted.contains(y.event_id@),
        ),
{
    lemma_refreshed_cached_filter(cached, refreshed, redacted);
    lemma_new_refreshed_filter(refreshed, ids_of(cached), redacted);
}

proof fn lemma_refreshed_cached_filter(
    cached: Seq<RoomTimelineItem>,
    refreshed: Seq<RoomTimelineItem>,
    redacted: Seq<Seq<char>>,
)
    ensures
        refreshed_cached(cached, refreshed, redacted) == cached.filter(
            |x: RoomTimelineItem| !redacted.contains(x.event_id@),
        ).map_values(|x: RoomTimelineItem| refreshed_or_kept(refreshed, x)),
    decreases cached.len(),
{
    reveal(Seq::filter);
    let keep = |x: RoomTimelineItem| !redacted.contains(x.event_id@);
    let f = |x: RoomTimelineItem| refreshed_or_kept(refreshed, x);
    if cached.len() == 0 {
        assert(cached.filter(keep) =~= Seq::<RoomTimelineItem>::empty());
        assert(cached.filter(keep).map_values(f) =~= Seq::<RoomTimelineItem>::empty());
    } else {
        lemma_refreshed_cached_filter(cached.drop_last(), refreshed, redacted);
        let sub = cached.drop_last().filter(keep);
        assert(cached.filter(keep) == if keep(cached.last()) {
            sub.push(cached.last())
        } else {
            sub
        });
        if keep(cached.last()) {
            assert(sub.push(cached.last()).map_values(f) =~= sub.map_values(f).push(f(cached.last())));
        }
    }
}

proof fn lemma_new_refreshed_filter(
    refreshed: Seq<RoomTimelineItem>,
    cached_ids: Seq<Seq<char>>,
    redacted: Seq<Seq<char>>,
)
    ensures
        new_refreshed(refreshed, cached_ids, redacted) == refreshed.filter(
            |y: RoomTimelineItem| !cached_ids.contains(y.event_id@) && !redacted.contains(y.event_id@),
        ),
    decreases refreshed.len(),
{
    reveal(Seq::filter);
    let keep = |y: RoomTimelineItem| !cached_ids.contains(y.event_id@) && !redacted.contains(y.event_id@);
    if refreshed.len() == 0 {
        assert(refreshed.filter(keep) =~= Seq::<RoomTimelineItem>::empty());
    } else {
        lemma_new_refreshed_filter(refreshed.drop_last(), cached_ids, redacted);
    }
}

} // verus!
