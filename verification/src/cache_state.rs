//! Which cached views the shell has already served, per account and per
//! room, so that a cache is shown once and then refreshed from the server.
use vstd::prelude::*;

use crate::text::{concat2, concat3, starts_with, str_eq, str_starts_with, strings_view};

verus! {

broadcast use vstd::seq_lib::group_seq_properties;

/// A set of texts.
#[derive(Debug)]
pub struct ServedKeys {
    keys: Vec<String>,
}

impl View for ServedKeys {
    type V = Set<Seq<char>>;

    closed spec fn view(&self) -> Set<Seq<char>> {
        Set::new(|k: Seq<char>| strings_view(self.keys@).contains(k))
    }
}

impl ServedKeys {
    /// The empty set.
    pub fn new() -> (r: Self)
        ensures
            r@ == Set::<Seq<char>>::empty(),
    {
        let r = ServedKeys { keys: Vec::new() };
        assert(r@ =~= Set::<Seq<char>>::empty());
        r
    }

    /// Whether the set holds `key`.
    pub fn contains(&self, key: &str) -> (r: bool)
        ensures
            r == self@.contains(key@),
    {
        let mut i: usize = 0;
        while i < self.keys.len()
            invariant
                i <= self.keys@.len(),
                forall|j: int| 0 <= j < i ==> (#[trigger] self.keys@[j])@ != key@,
            decreases self.keys.len() - i,
        {
            if str_eq(self.keys[i].as_str(), key) {
                assert(strings_view(self.keys@)[i as int] == key@);
                return true;
            }
            i = i + 1;
        }
        proof {
            if strings_view(self.keys@).contains(key@) {
                let j = choose|j: int| 0 <= j < strings_view(self.keys@).len() && strings_view(self.keys@)[j] == key@;
                assert(self.keys@[j]@ == key@);
            }
        }
        false
    }

    /// Adds `key`.
    pub fn insert(&mut self, key: &str)
        ensures
            final(self)@ == old(self)@.insert(key@),
    {
        if !self.contains(key) {
            let ghost before = self.keys@;
            self.keys.push(key.to_owned());
            proof {
                assert(strings_view(self.keys@) == strings_view(before).push(key@));
            }
        }
        assert(self@ =~= old(self)@.insert(key@));
    }

    /// The keys that pass `keep`, in their order.
    fn kept(&self, key: &str, prefix: bool) -> (r: Vec<String>)
        ensures
            forall|k: Seq<char>|
                strings_view(r@).contains(k) <==> (strings_view(self.keys@).contains(k) && !(if prefix {
                    starts_with(k, key@)
                } else {
                    k == key@
                })),
    {
        let mut out: Vec<String> = Vec::new();
        let mut i: usize = 0;
        while i < self.keys.len()
            invariant
                i <= self.keys@.len(),
                forall|k: Seq<char>|
                    strings_view(out@).contains(k) <==> (strings_view(self.keys@.take(i as int)).contains(k)
                        && !(if prefix {
                        starts_with(k, key@)
                    } else {
                        k == key@
                    })),
            decreases self.keys.len() - i,
        {
            let drop = if prefix {
                str_starts_with(self.keys[i].as_str(), key)
            } else {
                str_eq(self.keys[i].as_str(), key)
            };
            let ghost before = out@;
            let ghost item = self.keys@[i as int]@;
            proof {
                assert(strings_view(self.keys@.take(i + 1)) == strings_view(self.keys@.take(i as int)).push(item));
            }
            if !drop {
                out.push(self.keys[i].clone());
                assert(strings_view(out@) == strings_view(before).push(item));
            }
            i = i + 1;
        }
        assert(self.keys@.take(self.keys@.len() as int) == self.keys@);
        out
    }

    /// Removes `key`.
    pub fn remove(&mut self, key: &str)
        ensures
            final(self)@ == old(self)@.remove(key@),
    {
        let kept = self.kept(key, false);
        self.keys = kept;
        assert(self@ =~= old(self)@.remove(key@));
    }

    /// Removes every key that starts with `prefix`.
    pub fn remove_with_prefix(&mut self, prefix: &str)
        ensures
            final(self)@ == old(self)@.filter(|k: Seq<char>| !starts_with(k, prefix@)),
    {
        let kept = self.kept(prefix, true);
        self.keys = kept;
        assert(self@ =~= old(self)@.filter(|k: Seq<char>| !starts_with(k, prefix@)));
    }

    /// Removes every key.
    pub fn clear(&mut self)
        ensures
            final(self)@ == Set::<Seq<char>>::empty(),
    {
        self.keys = Vec::new();
        assert(self@ =~= Set::<Seq<char>>::empty());
    }
}

/// The key of a room's timeline cache: the account key, `::`, the room id.
pub open spec fn room_cache_key_spec(account_key: Seq<char>, room_id: Seq<char>) -> Seq<char> {
    account_key + "::"@ + room_id
}

/// The key of a room's timeline cache.
pub fn room_cache_key(account_key: &str, room_id: &str) -> (r: String)
    ensures
        r@ == room_cache_key_spec(account_key@, room_id@),
{
    concat3(account_key, "::", room_id)
}

/// Which cached views were served: the room thread list and the space list
/// per account, and the timeline per account and room.
#[derive(Debug)]
pub struct ShellCacheState {
    pub room_thread_cache_served_accounts: ServedKeys,
    pub space_cache_served_accounts: ServedKeys,
    pub room_timeline_cache_served_keys: ServedKeys,
}

impl ShellCacheState {
    /// Nothing served yet.
    pub fn new() -> (r: Self)
        ensures
            r.room_thread_cache_served_accounts@ == Set::<Seq<char>>::empty(),
            r.space_cache_served_accounts@ == Set::<Seq<char>>::empty(),
            r.room_timeline_cache_served_keys@ == Set::<Seq<char>>::empty(),
    {
        ShellCacheState {
            room_thread_cache_served_accounts: ServedKeys::new(),
            space_cache_served_accounts: ServedKeys::new(),
            room_timeline_cache_served_keys: ServedKeys::new(),
        }
    }

    pub fn room_thread_cache_was_served(&self, account_key: &str) -> (r: bool)
        ensures
            r == self.room_thread_cache_served_accounts@.contains(account_key@),
    {
        self.room_thread_cache_served_accounts.contains(account_key)
    }

    pub fn mark_room_thread_cache_served(&mut self, account_key: &str)
        ensures
            final(self).room_thread_cache_served_accounts@ == old(self).room_thread_cache_served_accounts@.insert(
                account_key@,
            ),
            final(self).space_cache_served_accounts == old(self).space_cache_served_accounts,
            final(self).room_timeline_cache_served_keys == old(self).room_timeline_cache_served_keys,
    {
        self.room_thread_cache_served_accounts.insert(account_key);
    }

    pub fn clear_served_room_thread_cache(&mut self, account_key: &str)
        ensures
            final(self).room_thread_cache_served_accounts@ == old(self).room_thread_cache_served_accounts@.remove(
                account_key@,
            ),
            final(self).space_cache_served_accounts == old(self).space_cache_served_accounts,
            final(self).room_timeline_cache_served_keys == old(self).room_timeline_cache_served_keys,
    {
        self.room_thread_cache_served_accounts.remove(account_key);
    }

    pub fn clear_all_served_room_thread_caches(&mut self)
        ensures
            final(self).room_thread_cache_served_accounts@ == Set::<Seq<char>>::empty(),
            final(self).space_cache_served_accounts == old(self).space_cache_served_accounts,
            final(self).room_timeline_cache_served_keys == old(self).room_timeline_cache_served_keys,
    {
        self.room_thread_cache_served_accounts.clear();
    }

    pub fn space_cache_was_served(&self, account_key: &str) -> (r: bool)
        ensures
            r == self.space_cache_served_accounts@.contains(account_key@),
    {
        self.space_cache_served_accounts.contains(account_key)
    }

    pub fn mark_space_cache_served(&mut self, account_key: &str)
        ensures
            final(self).space_cache_served_accounts@ == old(self).space_cache_served_accounts@.insert(account_key@),
            final(self).room_thread_cache_served_accounts == old(self).room_thread_cache_served_accounts,
            final(self).room_timeline_cache_served_keys == old(self).room_timeline_cache_served_keys,
    {
        self.space_cache_served_accounts.insert(account_key);
    }

    pub fn clear_served_space_cache(&mut self, account_key: &str)
        ensures
            final(self).space_cache_served_accounts@ == old(self).space_cache_served_accounts@.remove(account_key@),
            final(self).room_thread_cache_served_accounts == old(self).room_thread_cache_served_accounts,
            final(self).room_timeline_cache_served_keys == old(self).room_timeline_cache_served_keys,
    {
        self.space_cache_served_accounts.remove(account_key);
    }

    pub fn clear_all_served_space_caches(&mut self)
        ensures
            final(self).space_cache_served_accounts@ == Set::<Seq<char>>::empty(),
            final(self).room_thread_cache_served_accounts == old(self).room_thread_cache_served_accounts,
            final(self).room_timeline_cache_served_keys == old(self).room_timeline_cache_served_keys,
    {
        self.space_cache_served_accounts.clear();
    }

    pub fn room_timeline_cache_was_served(&self, account_key: &str, room_id: &str) -> (r: bool)
        ensures
            r == self.room_timeline_cache_served_keys@.contains(room_cache_key_spec(account_key@, room_id@)),
    {
        let key = room_cache_key(account_key, room_id);
        self.room_timeline_cache_served_keys.contains(key.as_str())
    }

    pub fn mark_room_timeline_cache_served(&mut self, account_key: &str, room_id: &str)
        ensures
            final(self).room_timeline_cache_served_keys@ == old(self).room_timeline_cache_served_keys@.insert(
                room_cache_key_spec(account_key@, room_id@),
            ),
            final(self).room_thread_cache_served_accounts == old(self).room_thread_cache_served_accounts,
            final(self).space_cache_served_accounts == old(self).space_cache_served_accounts,
    {
        let key = room_cache_key(account_key, room_id);
        self.room_timeline_cache_served_keys.insert(key.as_str());
    }

    /// Forgets the served timelines of every room of the account: every key
    /// that starts with the account key and `::`.
    pub fn clear_served_room_timeline_caches(&mut self, account_key: &str)
        ensures
            final(self).room_timeline_cache_served_keys@ == old(self).room_timeline_cache_served_keys@.filter(
                |k: Seq<char>| !starts_with(k, account_key@ + "::"@),
            ),
            final(self).room_thread_cache_served_accounts == old(self).room_thread_cache_served_accounts,
            final(self).space_cache_served_accounts == old(self).space_cache_served_accounts,
    {
        let prefix = concat2(account_key, "::");
        self.room_timeline_cache_served_keys.remove_with_prefix(prefix.as_str());
    }

    pub fn clear_all_served_room_timeline_caches(&mut self)
        ensures
            final(self).room_timeline_cache_served_keys@ == Set::<Seq<char>>::empty(),
            final(self).room_thread_cache_served_accounts == old(self).room_thread_cache_served_accounts,
            final(self).space_cache_served_accounts == old(self).space_cache_served_accounts,
    {
        self.room_timeline_cache_served_keys.clear();
    }
}

/// After an account's timelines are forgotten, no room of that account
/// counts as served, while a key that does not start with the account key
/// and `::` stays as it was.
pub proof fn lemma_clear_account_timelines(
    served: Set<Seq<char>>,
    account_key: Seq<char>,
    room_id: Seq<char>,
    other_key: Seq<char>,
)
    requires
        !starts_with(other_key, account_key + "::"@),
    ensures
        !served.filter(|k: Seq<char>| !starts_with(k, account_key + "::"@)).contains(
            room_cache_key_spec(account_key, room_id),
        ),
        served.filter(|k: Seq<char>| !starts_with(k, account_key + "::"@)).contains(other_key)
            == served.contains(other_key),
{
    let key = room_cache_key_spec(account_key, room_id);
    assert(key.take((account_key + "::"@).len() as int) == account_key + "::"@);
}

/// The shell's state that outlives a single command.
#[derive(Debug)]
pub struct ShellManager {
    pub cache_state: ShellCacheState,
}

impl ShellManager {
    /// A shell with nothing served yet.
    pub fn new() -> (r: Self)
        ensures
            r.cache_state.room_thread_cache_served_accounts@ == Set::<Seq<char>>::empty(),
            r.cache_state.space_cache_served_accounts@ == Set::<Seq<char>>::empty(),
            r.cache_state.room_timeline_cache_served_keys@ == Set::<Seq<char>>::empty(),
    {
        ShellManager { cache_state: ShellCacheState::new() }
    }

    /// Forgets what was served for an account that stops: its room thread
    /// list, its space list and the timelines of its rooms.
    pub fn forget_served_account_caches(&mut self, account_key: &str)
        ensures
            final(self).cache_state.room_thread_cache_served_accounts@
                == old(self).cache_state.room_thread_cache_served_accounts@.remove(account_key@),
            final(self).cache_state.space_cache_served_accounts@
                == old(self).cache_state.space_cache_served_accounts@.remove(account_key@),
            final(self).cache_state.room_timeline_cache_served_keys@
                == old(self).cache_state.room_timeline_cache_served_keys@.filter(
                |k: Seq<char>| !starts_with(k, account_key@ + "::"@),
            ),
    {
        self.cache_state.clear_served_room_thread_cache(account_key);
        self.cache_state.clear_served_space_cache(account_key);
        self.cache_state.clear_served_room_timeline_caches(account_key);
    }

    /// Forgets everything served, when all accounts stop.
    pub fn forget_all_served_caches(&mut self)
        ensures
            final(self).cache_state.room_thread_cache_served_accounts@ == Set::<Seq<char>>::empty(),
            final(self).cache_state.space_cache_served_accounts@ == Set::<Seq<char>>::empty(),
            final(self).cache_state.room_timeline_cache_served_keys@ == Set::<Seq<char>>::empty(),
    {
        self.cache_state.clear_all_served_room_thread_caches();
        self.cache_state.clear_all_served_space_caches();
        self.cache_state.clear_all_served_room_timeline_caches();
    }
}


/// A call that can change which accounts' room lists count as served:
/// `mark_room_thread_cache_served`, `clear_served_room_thread_cache`,
/// `clear_all_served_room_thread_caches`, or any other call of the state
/// (the space and timeline ones), which leaves it as it was.
pub enum RoomThreadServedCall {
    Mark(Seq<char>),
    Clear(Seq<char>),
    ClearAll,
    Other,
}

/// The accounts served after the calls, each changing the set as the
/// `ensures` of its method says.
pub open spec fn served_after_calls(served: Set<Seq<char>>, calls: Seq<RoomThreadServedCall>) -> Set<Seq<char>>
    decreases calls.len(),
{
    if calls.len() == 0 {
        served
    } else {
        let before = served_after_calls(served, calls.drop_last());
        match calls.last() {
            RoomThreadServedCall::Mark(k) => before.insert(k),
            RoomThreadServedCall::Clear(k) => before.remove(k),
            RoomThreadServedCall::ClearAll => Set::empty(),
            RoomThreadServedCall::Other => before,
        }
    }
}

/// Some call marks `k` served, and no later call clears it.
pub open spec fn marked_since_last_clear(calls: Seq<RoomThreadServedCall>, k: Seq<char>) -> bool {
    exists|i: int|
        0 <= i < calls.len() && #[trigger] calls[i] == RoomThreadServedCall::Mark(k) && forall|j: int|
            i < j < calls.len() ==> #[trigger] calls[j] != RoomThreadServedCall::Clear(k) && calls[j]
                != RoomThreadServedCall::ClearAll
}

/// From a fresh state, an account's room list counts as served exactly when
/// it was marked served after the last clear of it and the last clear of
/// all; the space and timeline calls never change it.
pub proof fn lemma_room_thread_served_history(calls: Seq<RoomThreadServedCall>, k: Seq<char>)
    ensures
        served_after_calls(Set::empty(), calls).contains(k) <==> marked_since_last_clear(calls, k),
    decreases calls.len(),
{
    if calls.len() > 0 {
        let prev = calls.drop_last();
        let n = calls.len() - 1;
        lemma_room_thread_served_history(prev, k);
        if marked_since_last_clear(prev, k) {
            let i = choose|i: int|
                0 <= i < prev.len() && #[trigger] prev[i] == RoomThreadServedCall::Mark(k) && forall|j: int|
                    i < j < prev.len() ==> #[trigger] prev[j] != RoomThreadServedCall::Clear(k) && prev[j]
                        != RoomThreadServedCall::ClearAll;
            assert(calls[i] == prev[i]);
            if calls.last() != RoomThreadServedCall::Clear(k) && calls.last() != RoomThreadServedCall::ClearAll {
                assert forall|j: int| i < j < calls.len() implies #[trigger] calls[j] != RoomThreadServedCall::Clear(k)
                    && calls[j] != RoomThreadServedCall::ClearAll by {
                    if j < n {
                        assert(calls[j] == prev[j]);
                    }
                }
            }
        }
        if calls.last() == RoomThreadServedCall::Mark(k) {
            assert(calls[n] == RoomThreadServedCall::Mark(k));
        }
        if marked_since_last_clear(calls, k) {
            let i = choose|i: int|
                0 <= i < calls.len() && #[trigger] calls[i] == RoomThreadServedCall::Mark(k) && forall|j: int|
                    i < j < calls.len() ==> #[trigger] calls[j] != RoomThreadServedCall::Clear(k) && calls[j]
                        != RoomThreadServedCall::ClearAll;
            if i < n {
                assert(prev[i] == calls[i]);
                assert(calls[n] == calls.last());
                assert forall|j: int| i < j < prev.len() implies #[trigger] prev[j] != RoomThreadServedCall::Clear(k)
                    && prev[j] != RoomThreadServedCall::ClearAll by {
                    assert(calls[j] == prev[j]);
                }
            }
        }
    }
}

} // verus!
