//! Values kept under text keys, each key at most once.
use vstd::prelude::*;

use crate::text::{starts_with, str_eq, str_starts_with};

verus! {

broadcast use vstd::seq_lib::group_seq_properties;

/// No key occurs twice.
pub open spec fn distinct_keys<V>(entries: Seq<(String, V)>) -> bool {
    forall|i: int, j: int|
        0 <= i < entries.len() && 0 <= j < entries.len() && i != j ==> (#[trigger] entries[i]).0@ != (
        #[trigger] entries[j]).0@
}

/// Some entry has the key.
pub open spec fn has_key<V>(entries: Seq<(String, V)>, key: Seq<char>) -> bool {
    exists|i: int| 0 <= i < entries.len() && (#[trigger] entries[i]).0@ == key
}

/// Where the entry with the key stands.
pub open spec fn index_of_key<V>(entries: Seq<(String, V)>, key: Seq<char>) -> int {
    choose|i: int| 0 <= i < entries.len() && (#[trigger] entries[i]).0@ == key
}

/// The values by key.
pub open spec fn keyed_map<V>(entries: Seq<(String, V)>) -> Map<Seq<char>, V> {
    Map::new(|k: Seq<char>| has_key(entries, k), |k: Seq<char>| entries[index_of_key(entries, k)].1)
}

/// The entry at `i` is the one its key finds.
pub proof fn lemma_key_at<V>(entries: Seq<(String, V)>, i: int)
    requires
        distinct_keys(entries),
        0 <= i < entries.len(),
    ensures
        has_key(entries, entries[i].0@),
        index_of_key(entries, entries[i].0@) == i,
        keyed_map(entries).contains_key(entries[i].0@),
        keyed_map(entries)[entries[i].0@] == entries[i].1,
{
    assert(has_key(entries, entries[i].0@));
}

/// Where the entry with the key stands, if there is one.
pub fn position_of_key<V>(entries: &Vec<(String, V)>, key: &str) -> (r: Option<usize>)
    ensures
        match r {
            Some(i) => i < entries@.len() && entries@[i as int].0@ == key@,
            None => !has_key(entries@, key@),
        },
{
    let mut i: usize = 0;
    while i < entries.len()
        invariant
            i <= entries@.len(),
            forall|j: int| 0 <= j < i ==> (#[trigger] entries@[j]).0@ != key@,
        decreases entries.len() - i,
    {
        if str_eq(entries[i].0.as_str(), key) {
            return Some(i);
        }
        i = i + 1;
    }
    None
}

/// Values by text key.
#[derive(Debug)]
pub struct KeyedCache<V> {
    entries: Vec<(String, V)>,
}

impl<V> View for KeyedCache<V> {
    type V = Map<Seq<char>, V>;

    closed spec fn view(&self) -> Map<Seq<char>, V> {
        keyed_map(self.entries@)
    }
}

impl<V> KeyedCache<V> {
    /// No key twice.
    pub closed spec fn wf(&self) -> bool {
        distinct_keys(self.entries@)
    }

    /// Nothing kept.
    pub fn new() -> (r: Self)
        ensures
            r.wf(),
            r@ == Map::<Seq<char>, V>::empty(),
    {
        let r = KeyedCache { entries: Vec::new() };
        assert(r@ =~= Map::<Seq<char>, V>::empty());
        r
    }

    /// The value kept under the key.
    pub fn get(&self, key: &str) -> (r: Option<&V>)
        requires
            self.wf(),
        ensures
            match r {
                Some(v) => self@.contains_key(key@) && self@[key@] == *v,
                None => !self@.contains_key(key@),
            },
    {
        match position_of_key(&self.entries, key) {
            Some(i) => {
                proof {
                    lemma_key_at(self.entries@, i as int);
                }
                Some(&self.entries[i].1)
            },
            None => None,
        }
    }

    /// Keeps the value under the key unless a value is kept there already;
    /// the earlier value then stays.
    pub fn insert_if_absent(&mut self, key: String, value: V)
        requires
            old(self).wf(),
        ensures
            final(self).wf(),
            final(self)@ == if old(self)@.contains_key(key@) {
                old(self)@
            } else {
                old(self)@.insert(key@, value)
            },
    {
        match position_of_key(&self.entries, key.as_str()) {
            Some(i) => {
                proof {
                    lemma_key_at(self.entries@, i as int);
                }
            },
            None => {
                let ghost before = self.entries@;
                let ghost k = key@;
                self.entries.push((key, value));
                proof {
                    let after = self.entries@;
                    let last = before.len() as int;
                    assert(forall|j: int| 0 <= j < before.len() ==> #[trigger] after[j] == before[j]);
                    assert(distinct_keys(after)) by {
                        assert forall|i: int, j: int|
                            0 <= i < after.len() && 0 <= j < after.len() && i != j implies (#[trigger] after[i]).0@
                            != (#[trigger] after[j]).0@ by {
                            if i == last {
                                assert(!has_key(before, k));
                                assert(before[j].0@ != k);
                            } else if j == last {
                                assert(before[i].0@ != k);
                            }
                        }
                    }
                    lemma_key_at(after, last);
                    assert forall|kk: Seq<char>| kk != k implies has_key(after, kk) == has_key(before, kk) by {
                        if has_key(after, kk) {
                            let j = index_of_key(after, kk);
                            assert(j != last);
                            assert(after[j] == before[j]);
                        }
                        if has_key(before, kk) {
                            let j = index_of_key(before, kk);
                            assert(after[j] == before[j]);
                        }
                    }
                    assert forall|kk: Seq<char>| kk != k && has_key(before, kk) implies keyed_map(after)[kk]
                        == keyed_map(before)[kk] by {
                        let j = index_of_key(before, kk);
                        lemma_key_at(before, j);
                        assert(after[j] == before[j]);
                        lemma_key_at(after, j);
                    }
                    assert(keyed_map(after) =~= keyed_map(before).insert(k, value));
                }
            },
        }
    }

    /// Drops the entry of the key, and hands its value out.
    pub fn remove(&mut self, key: &str) -> (r: Option<V>)
        requires
            old(self).wf(),
        ensures
            final(self).wf(),
            final(self)@ == old(self)@.remove(key@),
            match r {
                Some(v) => old(self)@.contains_key(key@) && old(self)@[key@] == v,
                None => !old(self)@.contains_key(key@),
            },
    {
        match position_of_key(&self.entries, key) {
            None => {
                assert(self@ =~= old(self)@.remove(key@));
                None
            },
            Some(i) => {
                let ghost before = self.entries@;
                proof {
                    lemma_key_at(before, i as int);
                }
                let (_, value) = self.entries.remove(i);
                proof {
                    let after = self.entries@;
                    assert forall|j: int| 0 <= j < after.len() implies #[trigger] after[j] == if j < i {
                        before[j]
                    } else {
                        before[j + 1]
                    } by {}
                    assert(distinct_keys(after)) by {
                        assert forall|a: int, b: int|
                            0 <= a < after.len() && 0 <= b < after.len() && a != b implies (#[trigger] after[a]).0@
                            != (#[trigger] after[b]).0@ by {
                            let a0 = if a < i { a } else { a + 1 };
                            let b0 = if b < i { b } else { b + 1 };
                            assert(before[a0].0@ != before[b0].0@);
                        }
                    }
                    assert forall|k: Seq<char>| k != key@ implies has_key(after, k) == has_key(before, k) by {
                        if has_key(before, k) {
                            let j = index_of_key(before, k);
                            assert(j != i);
                            if j < i {
                                assert(after[j] == before[j]);
                            } else {
                                assert(after[j - 1] == before[j]);
                            }
                        }
                        if has_key(after, k) {
                            let j = index_of_key(after, k);
                            if j < i {
                                assert(after[j] == before[j]);
                            } else {
                                assert(after[j] == before[j + 1]);
                            }
                        }
                    }
                    assert(!has_key(after, key@)) by {
                        if has_key(after, key@) {
                            let j = index_of_key(after, key@);
                            if j < i {
                                assert(after[j] == before[j]);
                            } else {
                                assert(after[j] == before[j + 1]);
                            }
                        }
                    }
                    assert forall|k: Seq<char>| k != key@ && has_key(before, k) implies keyed_map(after)[k]
                        == keyed_map(before)[k] by {
                        let j = index_of_key(before, k);
                        lemma_key_at(before, j);
                        if j < i {
                            assert(after[j] == before[j]);
                            lemma_key_at(after, j);
                        } else {
                            assert(after[j - 1] == before[j]);
                            lemma_key_at(after, j - 1);
                        }
                    }
                    assert(keyed_map(after) =~= keyed_map(before).remove(key@));
                }
                Some(value)
            },
        }
    }

    /// How many keys start with `prefix`.
    pub fn count_with_prefix(&self, prefix: &str) -> (r: usize)
        requires
            self.wf(),
        ensures
            r == self@.dom().filter(|k: Seq<char>| starts_with(k, prefix@)).len(),
    {
        let ghost all = self.entries@;
        let ghost keep = |k: Seq<char>| starts_with(k, prefix@);
        let ghost keys = all.map_values(|e: (String, V)| e.0@);
        let mut count: usize = 0;
        let mut i: usize = 0;
        let ghost mut seen: Seq<Seq<char>> = Seq::empty();
        while i < self.entries.len()
            invariant
                i <= all.len(),
                all == self.entries@,
                keys == all.map_values(|e: (String, V)| e.0@),
                keep == (|k: Seq<char>| starts_with(k, prefix@)),
                seen == keys.take(i as int).filter(keep),
                count == seen.len(),
                count <= i,
            decreases self.entries.len() - i,
        {
            proof {
                crate::search::lemma_filter_take_next(keys, keep, i as int);
            }
            if str_starts_with(self.entries[i].0.as_str(), prefix) {
                count = count + 1;
            }
            proof {
                seen = keys.take(i + 1).filter(keep);
            }
            i = i + 1;
        }
        proof {
            assert(keys.take(all.len() as int) == keys);
            lemma_filtered_keys_set(all, keep);
        }
        count
    }

    /// Drops every entry whose key starts with `prefix`, and hands them out.
    pub fn remove_with_prefix(&mut self, prefix: &str) -> (r: Vec<(String, V)>)
        requires
            old(self).wf(),
        ensures
            final(self).wf(),
            forall|k: Seq<char>|
                #[trigger] final(self)@.contains_key(k) <==> old(self)@.contains_key(k) && !starts_with(k, prefix@),
            forall|k: Seq<char>| #[trigger] final(self)@.contains_key(k) ==> final(self)@[k] == old(self)@[k],
            forall|i: int|
                0 <= i < r@.len() ==> old(self)@.contains_key((#[trigger] r@[i]).0@) && starts_with(r@[i].0@, prefix@)
                    && old(self)@[r@[i].0@] == r@[i].1,
            forall|k: Seq<char>|
                #[trigger] old(self)@.contains_key(k) && starts_with(k, prefix@) ==> has_key(r@, k),
    {
        let ghost all = self.entries@;
        let mut rest: Vec<(String, V)> = Vec::new();
        std::mem::swap(&mut rest, &mut self.entries);
        let total: usize = rest.len();
        let mut kept: Vec<(String, V)> = Vec::new();
        let mut removed: Vec<(String, V)> = Vec::new();
        let ghost mut src: Seq<int> = Seq::empty();
        let ghost mut rsrc: Seq<int> = Seq::empty();
        let mut taken: usize = 0;
        assert(rest@ == all.skip(0));
        while rest.len() > 0
            invariant
                taken + rest@.len() == all.len(),
                all.len() == total,
                rest@ == all.skip(taken as int),
                src.len() == kept@.len(),
                forall|j: int|
                    0 <= j < src.len() ==> 0 <= #[trigger] src[j] < taken && kept@[j] == all[src[j]]
                        && !starts_with(all[src[j]].0@, prefix@),
                forall|j1: int, j2: int| 0 <= j1 < j2 < src.len() ==> #[trigger] src[j1] < #[trigger] src[j2],
                forall|i: int|
                    0 <= i < taken && !starts_with((#[trigger] all[i]).0@, prefix@) ==> exists|j: int|
                        0 <= j < src.len() && src[j] == i,
                rsrc.len() == removed@.len(),
                forall|j: int|
                    0 <= j < rsrc.len() ==> 0 <= #[trigger] rsrc[j] < taken && removed@[j] == all[rsrc[j]]
                        && starts_with(all[rsrc[j]].0@, prefix@),
                forall|i: int|
                    0 <= i < taken && starts_with((#[trigger] all[i]).0@, prefix@) ==> exists|j: int|
                        0 <= j < rsrc.len() && rsrc[j] == i,
            decreases rest.len(),
        {
            let entry = rest.remove(0);
            assert(entry == all[taken as int]);
            let ghost old_src = src;
            let ghost old_rsrc = rsrc;
            if str_starts_with(entry.0.as_str(), prefix) {
                removed.push(entry);
                proof {
                    rsrc = rsrc.push(taken as int);
                }
                assert forall|i: int|
                    0 <= i < taken + 1 && starts_with((#[trigger] all[i]).0@, prefix@) implies exists|j: int|
                    0 <= j < rsrc.len() && rsrc[j] == i by {
                    if i == taken {
                        assert(rsrc[rsrc.len() - 1] == i);
                    } else {
                        let j = choose|j: int| 0 <= j < old_rsrc.len() && old_rsrc[j] == i;
                        assert(rsrc[j] == i);
                    }
                }
                assert forall|i: int|
                    0 <= i < taken + 1 && !starts_with((#[trigger] all[i]).0@, prefix@) implies exists|j: int|
                    0 <= j < src.len() && src[j] == i by {
                    assert(i < taken);
                }
            } else {
                proof {
                    src = src.push(taken as int);
                }
                kept.push(entry);
                assert forall|i: int|
                    0 <= i < taken + 1 && !starts_with((#[trigger] all[i]).0@, prefix@) implies exists|j: int|
                    0 <= j < src.len() && src[j] == i by {
                    if i == taken {
                        assert(src[src.len() - 1] == i);
                    } else {
                        let j = choose|j: int| 0 <= j < old_src.len() && old_src[j] == i;
                        assert(src[j] == i);
                    }
                }
                assert forall|i: int|
                    0 <= i < taken + 1 && starts_with((#[trigger] all[i]).0@, prefix@) implies exists|j: int|
                    0 <= j < rsrc.len() && rsrc[j] == i by {
                    assert(i < taken);
                }
            }
            taken = taken + 1;
            assert(rest@ == all.skip(taken as int));
        }
        self.entries = kept;
        proof {
            let now = self.entries@;
            assert(distinct_keys(now)) by {
                assert forall|i: int, j: int|
                    0 <= i < now.len() && 0 <= j < now.len() && i != j implies (#[trigger] now[i]).0@ != (
                    #[trigger] now[j]).0@ by {
                    if i < j {
                        assert(src[i] < src[j]);
                    } else {
                        assert(src[j] < src[i]);
                    }
                    assert(all[src[i]].0@ != all[src[j]].0@);
                }
            }
            assert forall|k: Seq<char>| #[trigger] has_key(now, k) implies has_key(all, k) && !starts_with(k, prefix@)
                && keyed_map(now)[k] == keyed_map(all)[k] by {
                let j = index_of_key(now, k);
                lemma_key_at(now, j);
                lemma_key_at(all, src[j]);
            }
            assert forall|k: Seq<char>| has_key(all, k) && !starts_with(k, prefix@) implies #[trigger] has_key(
                now,
                k,
            ) by {
                let i = index_of_key(all, k);
                let j = choose|j: int| 0 <= j < src.len() && src[j] == i;
                assert(now[j].0@ == k);
            }
            assert(old(self)@ == keyed_map(all));
            assert forall|k: Seq<char>| #[trigger] keyed_map(all).contains_key(k) && starts_with(k, prefix@) implies has_key(
                removed@,
                k,
            ) by {
                let i = index_of_key(all, k);
                lemma_key_at(all, i);
                let j = choose|j: int| 0 <= j < rsrc.len() && rsrc[j] == i;
                assert(removed@[j].0@ == k);
            }
            assert forall|i: int| 0 <= i < removed@.len() implies keyed_map(all).contains_key((#[trigger] removed@[i]).0@)
                && starts_with(removed@[i].0@, prefix@) && keyed_map(all)[removed@[i].0@] == removed@[i].1 by {
                assert(removed@[i] == all[rsrc[i]]);
                lemma_key_at(all, rsrc[i]);
            }
        }
        removed
    }

    /// Drops every entry, and hands them out.
    pub fn clear(&mut self) -> (r: Vec<(String, V)>)
        requires
            old(self).wf(),
        ensures
            final(self).wf(),
            final(self)@ == Map::<Seq<char>, V>::empty(),
            forall|i: int|
                0 <= i < r@.len() ==> old(self)@.contains_key((#[trigger] r@[i]).0@) && old(self)@[r@[i].0@]
                    == r@[i].1,
            forall|k: Seq<char>| #[trigger] old(self)@.contains_key(k) ==> has_key(r@, k),
    {
        proof {
            reveal_strlit("");
            assert forall|k: Seq<char>| #[trigger] starts_with(k, ""@) by {
                assert(k.take(0) =~= ""@);
            }
        }
        let r = self.remove_with_prefix("");
        assert(self@ =~= Map::<Seq<char>, V>::empty());
        r
    }
}

/// The keys that pass a test, as a sequence without repeats, make up the
/// set of keys of the map that pass it.
proof fn lemma_filtered_keys_set<V>(entries: Seq<(String, V)>, keep: spec_fn(Seq<char>) -> bool)
    requires
        distinct_keys(entries),
    ensures
        entries.map_values(|e: (String, V)| e.0@).filter(keep).len() == keyed_map(entries).dom().filter(keep).len(),
{
    let keys = entries.map_values(|e: (String, V)| e.0@);
    let kept = keys.filter(keep);
    assert(keys.no_duplicates()) by {
        assert forall|i: int, j: int| 0 <= i < keys.len() && 0 <= j < keys.len() && i != j implies keys[i]
            != keys[j] by {
            assert(entries[i].0@ != entries[j].0@);
        }
    }
    lemma_filter_no_duplicates(keys, keep);
    assert(kept.to_set() =~= keyed_map(entries).dom().filter(keep)) by {
        assert forall|k: Seq<char>| kept.to_set().contains(k) implies keyed_map(entries).dom().filter(keep).contains(k) by {
            let i = choose|i: int| 0 <= i < kept.len() && kept[i] == k;
            lemma_filter_members(keys, keep, i);
            let j = choose|j: int| 0 <= j < keys.len() && keys[j] == k;
            assert(entries[j].0@ == k);
            assert(has_key(entries, k));
        }
        assert forall|k: Seq<char>| keyed_map(entries).dom().filter(keep).contains(k) implies kept.to_set().contains(k) by {
            let j = index_of_key(entries, k);
            assert(keys[j] == k);
            reveal(Seq::filter);
            #[allow(deprecated)]
            keys.filter_lemma(keep);
        }
    }
    kept.unique_seq_to_set();
}

/// What a filter keeps comes from the sequence and passes the test.
proof fn lemma_filter_members<A>(s: Seq<A>, keep: spec_fn(A) -> bool, i: int)
    requires
        0 <= i < s.filter(keep).len(),
    ensures
        keep(s.filter(keep)[i]),
        exists|j: int| 0 <= j < s.len() && s[j] == s.filter(keep)[i],
    decreases s.len(),
{
    reveal(Seq::filter);
    let prev = s.drop_last().filter(keep);
    if i < prev.len() {
        lemma_filter_members(s.drop_last(), keep, i);
        let j = choose|j: int| 0 <= j < s.drop_last().len() && s.drop_last()[j] == prev[i];
        assert(s[j] == s.filter(keep)[i]);
    } else {
        assert(s[s.len() - 1] == s.filter(keep)[i]);
    }
}

/// A filter keeps a sequence without repeats without repeats.
proof fn lemma_filter_no_duplicates<A>(s: Seq<A>, keep: spec_fn(A) -> bool)
    requires
        s.no_duplicates(),
    ensures
        s.filter(keep).no_duplicates(),
    decreases s.len(),
{
    reveal(Seq::filter);
    if s.len() > 0 {
        let rest = s.drop_last();
        assert(rest.no_duplicates());
        lemma_filter_no_duplicates(rest, keep);
        if keep(s.last()) {
            let f = rest.filter(keep);
            assert forall|i: int| 0 <= i < f.len() implies f[i] != s.last() by {
                lemma_filter_members(rest, keep, i);
                let j = choose|j: int| 0 <= j < rest.len() && rest[j] == f[i];
                assert(s[j] == f[i]);
            }
            assert forall|i: int, j: int| 0 <= i < f.push(s.last()).len() && 0 <= j < f.push(s.last()).len() && i != j implies f.push(s.last())[i] != f.push(s.last())[j] by {
                if i == f.len() {
                    assert(f[j] != s.last());
                } else if j == f.len() {
                    assert(f[i] != s.last());
                }
            }
        }
    }
}

} // verus!
