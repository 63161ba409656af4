//! Timeline projections: the ordered items of a timeline view updated by
//! batches of diffs, each consumed batch advancing the view's revision; and
//! the publication guard, which lets only the latest view that each account
//! opened publish its updates.
use vstd::prelude::*;

use crate::paging::{opt_string_eq, RoomTimelineIdentity};
use crate::text::{opt_view, str_eq};
use crate::timeline::clone_opt_string;

verus! {

// ---------------------------------------------------------------------------
// Ordered projection
// ---------------------------------------------------------------------------

/// One change to an ordered list of items, as the SDK's timeline streams
/// them.
#[derive(Debug)]
pub enum TimelineDiff<T> {
    Append { values: Vec<T> },
    Clear,
    PushFront { value: T },
    PushBack { value: T },
    PopFront,
    PopBack,
    Insert { index: usize, value: T },
    Update { index: usize, value: T },
    Remove { index: usize },
    Truncate { length: usize },
    Reset { values: Vec<T> },
}

/// A diff can be applied to the items: an insertion at most at their end,
/// a replacement or removal at one of them.
pub open spec fn diff_applies<T>(items: Seq<T>, diff: TimelineDiff<T>) -> bool {
    match diff {
        TimelineDiff::Insert { index, .. } => index <= items.len(),
        TimelineDiff::Update { index, .. } => index < items.len(),
        TimelineDiff::Remove { index } => index < items.len(),
        _ => true,
    }
}

/// The items after one diff. Popping from no items and truncating to a
/// larger length change nothing.
pub open spec fn diff_applied<T>(items: Seq<T>, diff: TimelineDiff<T>) -> Seq<T> {
    match diff {
        TimelineDiff::Append { values } => items + values@,
        TimelineDiff::Clear => Seq::empty(),
        TimelineDiff::PushFront { value } => seq![value] + items,
        TimelineDiff::PushBack { value } => items.push(value),
        TimelineDiff::PopFront => if items.len() == 0 {
            items
        } else {
            items.drop_first()
        },
        TimelineDiff::PopBack => if items.len() == 0 {
            items
        } else {
            items.drop_last()
        },
        TimelineDiff::Insert { index, value } => items.insert(index as int, value),
        TimelineDiff::Update { index, value } => items.update(index as int, value),
        TimelineDiff::Remove { index } => items.remove(index as int),
        TimelineDiff::Truncate { length } => if length < items.len() {
            items.take(length as int)
        } else {
            items
        },
        TimelineDiff::Reset { values } => values@,
    }
}

/// Every diff of a batch applies to the items that the diffs before it
/// left.
pub open spec fn diffs_apply<T>(items: Seq<T>, diffs: Seq<TimelineDiff<T>>) -> bool
    decreases diffs.len(),
{
    diffs.len() == 0 || (diff_applies(items, diffs[0]) && diffs_apply(
        diff_applied(items, diffs[0]),
        diffs.drop_first(),
    ))
}

/// The items after a batch of diffs, applied in order.
pub open spec fn diffs_applied<T>(items: Seq<T>, diffs: Seq<TimelineDiff<T>>) -> Seq<T>
    decreases diffs.len(),
{
    if diffs.len() == 0 {
        items
    } else {
        diffs_applied(diff_applied(items, diffs[0]), diffs.drop_first())
    }
}

/// The ordered items of a timeline view and the revision of its last
/// consumed batch.
#[derive(Debug)]
pub struct OrderedProjection<T> {
    pub items: Vec<T>,
    pub revision: u64,
}

fn apply_diff<T>(items: &mut Vec<T>, diff: TimelineDiff<T>)
    requires
        diff_applies(old(items)@, diff),
    ensures
        final(items)@ == diff_applied(old(items)@, diff),
{
    match diff {
        TimelineDiff::Append { values } => {
            let mut values = values;
            items.append(&mut values);
        },
        TimelineDiff::Clear => {
            items.clear();
        },
        TimelineDiff::PushFront { value } => {
            items.insert(0, value);
            assert(items@ =~= seq![value] + old(items)@);
        },
        TimelineDiff::PushBack { value } => {
            items.push(value);
        },
        TimelineDiff::PopFront => {
            if items.len() > 0 {
                items.remove(0);
                assert(items@ =~= old(items)@.drop_first());
            }
        },
        TimelineDiff::PopBack => {
            if items.len() > 0 {
                items.pop();
                assert(items@ =~= old(items)@.drop_last());
            }
        },
        TimelineDiff::Insert { index, value } => {
            items.insert(index, value);
        },
        TimelineDiff::Update { index, value } => {
            items.set(index, value);
        },
        TimelineDiff::Remove { index } => {
            items.remove(index);
        },
        TimelineDiff::Truncate { length } => {
            items.truncate(length);
            assert(length < old(items)@.len() ==> items@ =~= old(items)@.take(length as int));
        },
        TimelineDiff::Reset { values } => {
            *items = values;
        },
    }
}

impl<T> OrderedProjection<T> {
    /// A projection of the initial items, at revision zero.
    pub fn new(items: Vec<T>) -> (r: Self)
        ensures
            r.items@ == items@,
            r.revision == 0,
    {
        OrderedProjection { items, revision: 0 }
    }

    /// Applies a batch of diffs in order; a non-empty batch advances the
    /// revision by one, an empty one changes nothing.
    pub fn apply(&mut self, diffs: Vec<TimelineDiff<T>>)
        requires
            diffs_apply(old(self).items@, diffs@),
            diffs@.len() > 0 ==> old(self).revision < u64::MAX,
        ensures
            final(self).items@ == diffs_applied(old(self).items@, diffs@),
            final(self).revision == if diffs@.len() == 0 {
                old(self).revision
            } else {
                (old(self).revision + 1) as u64
            },
    {
        if diffs.len() == 0 {
            return;
        }
        let ghost all = diffs@;
        let total: usize = diffs.len();
        let mut rest = diffs;
        let mut taken: usize = 0;
        assert(rest@ == all.skip(0));
        while rest.len() > 0
            invariant
                taken + rest@.len() == all.len(),
                all.len() == total,
                rest@ == all.skip(taken as int),
                diffs_apply(self.items@, rest@),
                diffs_applied(old(self).items@, all) == diffs_applied(self.items@, rest@),
                self.revision == old(self).revision,
            decreases rest.len(),
        {
            let ghost before = rest@;
            let diff = rest.remove(0);
            assert(before[0] == diff);
            assert(before.drop_first() == rest@);
            apply_diff(&mut self.items, diff);
            taken = taken + 1;
        }
        self.revision = self.revision + 1;
    }
}

// ---------------------------------------------------------------------------
// Publication guard
// ---------------------------------------------------------------------------

/// A timeline view's identity by its texts.
pub open spec fn identity_view(identity: RoomTimelineIdentity) -> (Seq<char>, Seq<char>, Seq<char>, Option<Seq<char>>) {
    (identity.account_key@, identity.room_id@, identity.instance_id@, opt_view(identity.focused_event_id))
}

/// The slot recorded last for `key` in `entries`, if any: the generation
/// reserved and the view activated under it.
pub open spec fn slot_of(
    entries: Seq<(String, u64, Option<RoomTimelineIdentity>)>,
    key: Seq<char>,
) -> Option<(u64, Option<(Seq<char>, Seq<char>, Seq<char>, Option<Seq<char>>)>)>
    decreases entries.len(),
{
    if entries.len() == 0 {
        None
    } else if entries.last().0@ == key {
        Some(
            (
                entries.last().1,
                match entries.last().2 {
                    Some(i) => Some(identity_view(i)),
                    None => None,
                },
            ),
        )
    } else {
        slot_of(entries.drop_last(), key)
    }
}

/// Whether the guard under `slots` lets the view publish: it is the view
/// activated last for its account.
pub open spec fn guard_accepts(
    slots: Map<Seq<char>, (u64, Option<(Seq<char>, Seq<char>, Seq<char>, Option<Seq<char>>)>)>,
    identity: (Seq<char>, Seq<char>, Seq<char>, Option<Seq<char>>),
) -> bool {
    slots.contains_key(identity.0) && slots[identity.0].1 == Some(identity)
}

/// Which timeline view of each account may publish: per account the
/// generation reserved last and the view activated under it.
#[derive(Debug)]
pub struct ActivePublications {
    entries: Vec<(String, u64, Option<RoomTimelineIdentity>)>,
    next_generation: u64,
}

pub(crate) fn duplicate_identity(identity: &RoomTimelineIdentity) -> (r: RoomTimelineIdentity)
    ensures
        r == *identity,
{
    RoomTimelineIdentity {
        account_key: identity.account_key.clone(),
        room_id: identity.room_id.clone(),
        instance_id: identity.instance_id.clone(),
        focused_event_id: clone_opt_string(&identity.focused_event_id),
    }
}

fn same_identity(a: &RoomTimelineIdentity, b: &RoomTimelineIdentity) -> (r: bool)
    ensures
        r == (identity_view(*a) == identity_view(*b)),
{
    str_eq(a.account_key.as_str(), b.account_key.as_str()) && str_eq(a.room_id.as_str(), b.room_id.as_str())
        && str_eq(a.instance_id.as_str(), b.instance_id.as_str()) && opt_string_eq(
        &a.focused_event_id,
        &b.focused_event_id,
    )
}

proof fn lemma_slot_update(
    entries: Seq<(String, u64, Option<RoomTimelineIdentity>)>,
    i: int,
    e: (String, u64, Option<RoomTimelineIdentity>),
    k: Seq<char>,
)
    requires
        0 <= i < entries.len(),
        entries[i].0@ == e.0@,
        forall|j: int| i < j < entries.len() ==> (#[trigger] entries[j]).0@ != e.0@,
    ensures
        slot_of(entries.update(i, e), k) == if k == e.0@ {
            slot_of(seq![e], k)
        } else {
            slot_of(entries, k)
        },
    decreases entries.len(),
{
    let u = entries.update(i, e);
    assert(seq![e].drop_last() =~= Seq::<(String, u64, Option<RoomTimelineIdentity>)>::empty());
    if i == entries.len() - 1 {
        assert(u.drop_last() == entries.drop_last());
    } else {
        assert(u.drop_last() == entries.drop_last().update(i, e));
        assert(entries.last() == entries[entries.len() - 1]);
        lemma_slot_update(entries.drop_last(), i, e, k);
    }
}

impl View for ActivePublications {
    type V = Map<Seq<char>, (u64, Option<(Seq<char>, Seq<char>, Seq<char>, Option<Seq<char>>)>)>;

    closed spec fn view(&self) -> Map<
        Seq<char>,
        (u64, Option<(Seq<char>, Seq<char>, Seq<char>, Option<Seq<char>>)>),
    > {
        Map::new(|k: Seq<char>| slot_of(self.entries@, k) is Some, |k: Seq<char>| slot_of(self.entries@, k).unwrap())
    }
}

impl ActivePublications {
    /// The generation reserved last, over all accounts.
    pub closed spec fn generation(&self) -> u64 {
        self.next_generation
    }

    /// No view may publish.
    pub fn new() -> (r: Self)
        ensures
            r@ == Map::<Seq<char>, (u64, Option<(Seq<char>, Seq<char>, Seq<char>, Option<Seq<char>>)>)>::empty(),
            r.generation() == 0,
    {
        let r = ActivePublications { entries: Vec::new(), next_generation: 0 };
        assert(r@ =~= Map::<Seq<char>, (u64, Option<(Seq<char>, Seq<char>, Seq<char>, Option<Seq<char>>)>)>::empty());
        r
    }

    fn position_of(&self, account_key: &str) -> (r: Option<usize>)
        ensures
            match r {
                Some(i) => i < self.entries@.len() && self.entries@[i as int].0@ == account_key@ && forall|j: int|
                    i < j < self.entries@.len() ==> (#[trigger] self.entries@[j]).0@ != account_key@,
                None => slot_of(self.entries@, account_key@) is None,
            },
            r matches Some(i) ==> slot_of(self.entries@, account_key@) == slot_of(seq![self.entries@[i as int]], account_key@),
    {
        let mut i = self.entries.len();
        assert(self.entries@.take(i as int) == self.entries@);
        while i > 0
            invariant
                i <= self.entries@.len(),
                forall|j: int| i <= j < self.entries@.len() ==> (#[trigger] self.entries@[j]).0@ != account_key@,
                slot_of(self.entries@, account_key@) == slot_of(self.entries@.take(i as int), account_key@),
            decreases i,
        {
            assert(self.entries@.take(i as int).drop_last() == self.entries@.take(i - 1));
            assert(self.entries@.take(i as int).last() == self.entries@[i - 1]);
            if str_eq(self.entries[i - 1].0.as_str(), account_key) {
                assert(seq![self.entries@[i - 1]].drop_last() =~= Seq::<(String, u64, Option<RoomTimelineIdentity>)>::empty());
                return Some(i - 1);
            }
            i = i - 1;
        }
        None
    }

    fn put(&mut self, e: (String, u64, Option<RoomTimelineIdentity>))
        ensures
            final(self)@ == old(self)@.insert(e.0@, slot_of(seq![e], e.0@).unwrap()),
            final(self).next_generation == old(self).next_generation,
    {
        let ghost key = e.0@;
        assert(seq![e].drop_last() =~= Seq::<(String, u64, Option<RoomTimelineIdentity>)>::empty());
        match self.position_of(e.0.as_str()) {
            Some(i) => {
                proof {
                    assert forall|k: Seq<char>| true implies slot_of(self.entries@.update(i as int, e), k)
                        == if k == key { slot_of(seq![e], k) } else { slot_of(self.entries@, k) } by {
                        lemma_slot_update(self.entries@, i as int, e, k);
                    }
                }
                self.entries.set(i, e);
            },
            None => {
                self.entries.push(e);
                assert(self.entries@.drop_last() == old(self).entries@);
            },
        }
        assert(self@ =~= old(self)@.insert(key, slot_of(seq![e], key).unwrap()));
    }

    /// Reserves the next generation for an account's next view; no view of
    /// the account may publish until one is activated under it.
    pub fn reserve(&mut self, account_key: &str) -> (r: u64)
        requires
            old(self).generation() < u64::MAX,
        ensures
            r == old(self).generation() + 1,
            final(self).generation() == r,
            final(self)@ == old(self)@.insert(account_key@, (r, None)),
    {
        self.next_generation = self.next_generation + 1;
        let generation = self.next_generation;
        self.put((account_key.to_owned(), generation, None));
        generation
    }

    /// Lets the view publish when `generation` is the one its account
    /// reserved last; says whether it did.
    pub fn activate(&mut self, identity: &RoomTimelineIdentity, generation: u64) -> (r: bool)
        ensures
            r == (old(self)@.contains_key(identity.account_key@) && old(self)@[identity.account_key@].0 == generation),
            r ==> final(self)@ == old(self)@.insert(identity.account_key@, (generation, Some(identity_view(*identity)))),
            !r ==> final(self)@ == old(self)@,
            final(self).generation() == old(self).generation(),
    {
        match self.position_of(identity.account_key.as_str()) {
            None => false,
            Some(i) => {
                if self.entries[i].1 != generation {
                    return false;
                }
                let e = (identity.account_key.clone(), generation, Some(duplicate_identity(identity)));
                self.put(e);
                true
            },
        }
    }

    /// Whether the view may publish: it is the view activated last for its
    /// account.
    pub fn accepts(&self, identity: &RoomTimelineIdentity) -> (r: bool)
        ensures
            r == guard_accepts(self@, identity_view(*identity)),
    {
        match self.position_of(identity.account_key.as_str()) {
            None => false,
            Some(i) => match &self.entries[i].2 {
                Some(current) => same_identity(current, identity),
                None => false,
            },
        }
    }

    /// No view of the account may publish any more.
    pub fn close_account(&mut self, account_key: &str)
        ensures
            final(self)@ == old(self)@.remove(account_key@),
            final(self).generation() == old(self).generation(),
    {
        let mut kept: Vec<(String, u64, Option<RoomTimelineIdentity>)> = Vec::new();
        let mut entries: Vec<(String, u64, Option<RoomTimelineIdentity>)> = Vec::new();
        std::mem::swap(&mut entries, &mut self.entries);
        let ghost all = entries@;
        let total: usize = entries.len();
        let mut consumed: usize = 0;
        while entries.len() > 0
            invariant
                consumed + entries@.len() == all.len(),
                all.len() == total,
                entries@ == all.skip(consumed as int),
                forall|k: Seq<char>|
                    #[trigger] slot_of(kept@, k) == if k == account_key@ {
                        None
                    } else {
                        slot_of(all.take(consumed as int), k)
                    },
            decreases entries.len(),
        {
            let e = entries.remove(0);
            assert(e == all[consumed as int]);
            assert(all.take(consumed + 1).drop_last() == all.take(consumed as int));
            assert(all.take(consumed + 1).last() == all[consumed as int]);
            let ghost prefix = all.take(consumed + 1);
            if !str_eq(e.0.as_str(), account_key) {
                let ghost before = kept@;
                kept.push(e);
                assert(kept@.drop_last() == before);
                assert forall|k: Seq<char>| #[trigger] slot_of(kept@, k) == if k == account_key@ {
                    None
                } else {
                    slot_of(prefix, k)
                } by {
                    assert(slot_of(before, k) == if k == account_key@ { None } else { slot_of(all.take(consumed as int), k) });
                }
            } else {
                assert forall|k: Seq<char>| #[trigger] slot_of(kept@, k) == if k == account_key@ {
                    None
                } else {
                    slot_of(prefix, k)
                } by {
                    assert(slot_of(kept@, k) == if k == account_key@ { None } else { slot_of(all.take(consumed as int), k) });
                }
            }
            consumed = consumed + 1;
            assert(entries@ == all.skip(consumed as int));
        }
        assert(all.take(all.len() as int) == all);
        self.entries = kept;
        assert(self@ =~= old(self)@.remove(account_key@));
    }

    /// No view may publish any more.
    pub fn close_all(&mut self)
        ensures
            final(self)@ == Map::<Seq<char>, (u64, Option<(Seq<char>, Seq<char>, Seq<char>, Option<Seq<char>>)>)>::empty(),
            final(self).generation() == old(self).generation(),
    {
        self.entries = Vec::new();
        assert(self@ =~= Map::<Seq<char>, (u64, Option<(Seq<char>, Seq<char>, Seq<char>, Option<Seq<char>>)>)>::empty());
    }
}

/// The publication guard's laws: a view activated under its account's latest
/// generation may publish, and is then the only view of its account that
/// may; a generation replaced by a later reservation cannot be activated;
/// reserving or closing an account stops all its views, and neither touches
/// the views of other accounts.
pub proof fn lemma_publication_guard(
    slots: Map<Seq<char>, (u64, Option<(Seq<char>, Seq<char>, Seq<char>, Option<Seq<char>>)>)>,
    identity: (Seq<char>, Seq<char>, Seq<char>, Option<Seq<char>>),
    other: (Seq<char>, Seq<char>, Seq<char>, Option<Seq<char>>),
    stale: u64,
    current: u64,
)
    requires
        stale != current,
    ensures
        guard_accepts(slots.insert(identity.0, (current, Some(identity))), identity),
        other != identity ==> (guard_accepts(slots.insert(identity.0, (current, Some(identity))), other)
            <==> (other.0 != identity.0 && guard_accepts(slots, other))),
        slots.insert(identity.0, (current, None))[identity.0].0 != stale,
        !guard_accepts(slots.insert(identity.0, (current, None)), identity),
        !guard_accepts(slots.remove(identity.0), identity),
        other.0 != identity.0 ==> (guard_accepts(slots.remove(identity.0), other) == guard_accepts(slots, other)),
        other.0 != identity.0 ==> (guard_accepts(slots.insert(identity.0, (current, None)), other) == guard_accepts(
            slots,
            other,
        )),
{
}

} // verus!
