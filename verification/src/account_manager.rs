//! The signed-in accounts: one Matrix client per account, which of them the
//! interface treats as active, whether the accounts kept on disk were
//! restored, and the authorization mode of each.
use vstd::prelude::*;

use crate::account::{
    account_store_id, account_store_id_spec, actions_allowed, decode_homeserver_url_from_store_id,
    is_stale_crypto_store_error, replacement_account_store_id, store_id_homeserver, store_key_entry_id,
    AccountAuthorizationMode, AccountAuthorizationModes, AccountSummary,
    REPLACEMENT_STORE_ID_RANDOM_BYTES,
};
use crate::paging::base64_url_encode;
use crate::text::starts_with;
use crate::settings::EncryptionPreferences;
use crate::text::{
    concat2, concat3, lemma_text_le_total, lemma_text_le_trans, opt_view, seq_contains, str_eq,
    strings_view, text_le, text_le_exec,
};
use crate::store_paths::{names, StorePath};
use crate::timeline::clone_opt_string;

verus! {

broadcast use vstd::seq_lib::group_seq_properties;

/// A signed-in account: its client, its Matrix user, its homeserver and
/// the directory of its encrypted store.
#[derive(Debug)]
pub struct ManagedAccount<C> {
    pub client: C,
    pub user_id: String,
    pub homeserver_url: String,
    pub store_dir: StorePath,
}

/// A path as a value: its root and its names.
pub open spec fn path_view(p: StorePath) -> (Option<Seq<char>>, Seq<Seq<char>>) {
    (opt_view(p.root), names(p))
}

/// What the account list knows of an account: its user, its homeserver
/// and its store directory.
pub open spec fn account_view<C>(a: ManagedAccount<C>) -> (Seq<char>, Seq<char>, (Option<Seq<char>>, Seq<Seq<char>>)) {
    (a.user_id@, a.homeserver_url@, path_view(a.store_dir))
}

/// No account key occurs twice.
pub open spec fn distinct_keys<C>(entries: Seq<(String, ManagedAccount<C>)>) -> bool {
    forall|i: int, j: int|
        0 <= i < entries.len() && 0 <= j < entries.len() && i != j ==> (#[trigger] entries[i]).0@ != (
        #[trigger] entries[j]).0@
}

/// Some entry has the key.
pub open spec fn has_key<C>(entries: Seq<(String, ManagedAccount<C>)>, key: Seq<char>) -> bool {
    exists|i: int| 0 <= i < entries.len() && (#[trigger] entries[i]).0@ == key
}

/// Where the entry with the key stands.
pub open spec fn index_of_key<C>(entries: Seq<(String, ManagedAccount<C>)>, key: Seq<char>) -> int {
    choose|i: int| 0 <= i < entries.len() && (#[trigger] entries[i]).0@ == key
}

/// The accounts by key.
pub open spec fn accounts_map<C>(entries: Seq<(String, ManagedAccount<C>)>) -> Map<
    Seq<char>,
    (Seq<char>, Seq<char>, (Option<Seq<char>>, Seq<Seq<char>>)),
> {
    Map::new(
        |k: Seq<char>| has_key(entries, k),
        |k: Seq<char>| account_view(entries[index_of_key(entries, k)].1),
    )
}

proof fn lemma_key_at<C>(entries: Seq<(String, ManagedAccount<C>)>, i: int)
    requires
        distinct_keys(entries),
        0 <= i < entries.len(),
    ensures
        has_key(entries, entries[i].0@),
        index_of_key(entries, entries[i].0@) == i,
        accounts_map(entries).contains_key(entries[i].0@),
        accounts_map(entries)[entries[i].0@] == account_view(entries[i].1),
{
    assert(has_key(entries, entries[i].0@));
}

/// The signed-in accounts, the active one, whether the accounts kept on
/// disk were restored, and the authorization mode of each account.
#[derive(Debug)]
pub struct AccountManager<C> {
    accounts: Vec<(String, ManagedAccount<C>)>,
    active_account_key: Option<String>,
    restore_completed: bool,
    authorization_modes: AccountAuthorizationModes,
}

/// A copy of the active account's client and where it keeps its store.
#[derive(Debug)]
pub struct AccountClientSnapshot<C> {
    pub account_key: String,
    pub homeserver_url: String,
    pub client: C,
    pub store_dir: StorePath,
}

impl<C> AccountManager<C> {
    /// The signed-in accounts, by account key.
    pub closed spec fn accounts(&self) -> Map<Seq<char>, (Seq<char>, Seq<char>, (Option<Seq<char>>, Seq<Seq<char>>))> {
        accounts_map(self.accounts@)
    }

    /// The key of the active account.
    pub closed spec fn active_key(&self) -> Option<Seq<char>> {
        opt_view(self.active_account_key)
    }

    /// Whether the accounts kept on disk were restored.
    pub closed spec fn restored(&self) -> bool {
        self.restore_completed
    }

    /// The authorization modes recorded, by account key.
    pub closed spec fn modes(&self) -> Map<Seq<char>, AccountAuthorizationMode> {
        self.authorization_modes@
    }

    /// No key twice; an active account exactly when there are accounts, and
    /// then one of them.
    pub closed spec fn wf(&self) -> bool {
        &&& distinct_keys(self.accounts@)
        &&& (self.active_account_key is None <==> self.accounts@.len() == 0)
        &&& match self.active_account_key {
            Some(k) => has_key(self.accounts@, k@),
            None => true,
        }
    }

    /// The active account is one of the signed-in accounts, and there is an
    /// active account whenever any account is signed in.
    pub proof fn lemma_active_account_is_signed_in(&self)
        requires
            self.wf(),
        ensures
            self.active_key() is None <==> self.accounts() == Map::<
                Seq<char>,
                (Seq<char>, Seq<char>, (Option<Seq<char>>, Seq<Seq<char>>)),
            >::empty(),
            self.active_key() matches Some(k) ==> self.accounts().contains_key(k),
    {
        if self.accounts@.len() == 0 {
            assert(self.accounts() =~= Map::empty());
        } else {
            lemma_key_at(self.accounts@, 0);
            assert(self.accounts().contains_key(self.accounts@[0].0@));
        }
    }

    /// No account, none active, nothing restored yet.
    pub fn new() -> (r: Self)
        ensures
            r.wf(),
            r.accounts() == Map::<Seq<char>, (Seq<char>, Seq<char>, (Option<Seq<char>>, Seq<Seq<char>>))>::empty(),
            r.active_key() is None,
            !r.restored(),
            r.modes() == Map::<Seq<char>, AccountAuthorizationMode>::empty(),
    {
        let r = AccountManager {
            accounts: Vec::new(),
            active_account_key: None,
            restore_completed: false,
            authorization_modes: AccountAuthorizationModes::new(),
        };
        assert(r.accounts() =~= Map::empty());
        r
    }

    fn position_of(&self, account_key: &str) -> (r: Option<usize>)
        requires
            distinct_keys(self.accounts@),
        ensures
            match r {
                Some(i) => i < self.accounts@.len() && self.accounts@[i as int].0@ == account_key@,
                None => !has_key(self.accounts@, account_key@),
            },
    {
        position_of_key(&self.accounts, account_key)
    }

    fn summary_at(&self, i: usize) -> (r: AccountSummary)
        requires
            self.wf(),
            i < self.accounts@.len(),
        ensures
            r.account_key == self.accounts@[i as int].0,
            r.user_id == self.accounts@[i as int].1.user_id,
            r.homeserver_url == self.accounts@[i as int].1.homeserver_url,
            r.is_active == (self.active_key() == Some(self.accounts@[i as int].0@)),
    {
        let entry = &self.accounts[i];
        let is_active = match &self.active_account_key {
            Some(k) => str_eq(k.as_str(), entry.0.as_str()),
            None => false,
        };
        AccountSummary {
            account_key: entry.0.clone(),
            user_id: entry.1.user_id.clone(),
            homeserver_url: entry.1.homeserver_url.clone(),
            is_active,
        }
    }

    /// The signed-in accounts, each once, each marked active or not.
    pub fn list_accounts(&self) -> (r: Vec<AccountSummary>)
        requires
            self.wf(),
        ensures
            r@.len() == self.accounts().dom().len(),
            forall|i: int, j: int|
                0 <= i < r@.len() && 0 <= j < r@.len() && i != j ==> (#[trigger] r@[i]).account_key@ != (
                #[trigger] r@[j]).account_key@,
            forall|k: Seq<char>|
                self.accounts().contains_key(k) ==> exists|i: int|
                    0 <= i < r@.len() && (#[trigger] r@[i]).account_key@ == k,
            forall|i: int|
                0 <= i < r@.len() ==> {
                    let s = #[trigger] r@[i];
                    &&& self.accounts().contains_key(s.account_key@)
                    &&& self.accounts()[s.account_key@].0 == s.user_id@
                    &&& self.accounts()[s.account_key@].1 == s.homeserver_url@
                    &&& s.is_active == (self.active_key() == Some(s.account_key@))
                },
    {
        let mut out: Vec<AccountSummary> = Vec::new();
        let mut i: usize = 0;
        while i < self.accounts.len()
            invariant
                self.wf(),
                i <= self.accounts@.len(),
                out@.len() == i,
                forall|j: int|
                    0 <= j < i ==> {
                        let s = #[trigger] out@[j];
                        &&& s.account_key == self.accounts@[j].0
                        &&& s.user_id == self.accounts@[j].1.user_id
                        &&& s.homeserver_url == self.accounts@[j].1.homeserver_url
                        &&& s.is_active == (self.active_key() == Some(self.accounts@[j].0@))
                    },
            decreases self.accounts.len() - i,
        {
            let s = self.summary_at(i);
            out.push(s);
            i = i + 1;
        }
        proof {
            let entries = self.accounts@;
            assert forall|j: int| 0 <= j < out@.len() implies {
                let s = #[trigger] out@[j];
                &&& self.accounts().contains_key(s.account_key@)
                &&& self.accounts()[s.account_key@].0 == s.user_id@
                &&& self.accounts()[s.account_key@].1 == s.homeserver_url@
                &&& s.is_active == (self.active_key() == Some(s.account_key@))
            } by {
                lemma_key_at(entries, j);
            }
            assert forall|k: Seq<char>| self.accounts().contains_key(k) implies exists|i: int|
                0 <= i < out@.len() && (#[trigger] out@[i]).account_key@ == k by {
                let i = index_of_key(entries, k);
                assert(out@[i].account_key@ == k);
            }
            lemma_dom_len(entries);
        }
        out
    }
}

impl<C> AccountManager<C> {
    /// The active account, when there is one.
    pub fn active_account(&self) -> (r: Option<AccountSummary>)
        requires
            self.wf(),
        ensures
            match r {
                Some(s) => self.active_key() == Some(s.account_key@) && self.accounts().contains_key(
                    s.account_key@,
                ) && self.accounts()[s.account_key@].0 == s.user_id@ && self.accounts()[s.account_key@].1
                    == s.homeserver_url@ && s.is_active,
                None => self.active_key() is None,
            },
    {
        match &self.active_account_key {
            None => None,
            Some(key) => match self.position_of(key.as_str()) {
                Some(i) => {
                    proof {
                        lemma_key_at(self.accounts@, i as int);
                    }
                    Some(self.summary_at(i))
                },
                None => None,
            },
        }
    }

    /// The active account, checked again: the same as `active_account`.
    pub fn validate_active_account(&self) -> (r: Option<AccountSummary>)
        requires
            self.wf(),
        ensures
            match r {
                Some(s) => self.active_key() == Some(s.account_key@) && self.accounts().contains_key(
                    s.account_key@,
                ) && self.accounts()[s.account_key@].0 == s.user_id@ && self.accounts()[s.account_key@].1
                    == s.homeserver_url@ && s.is_active,
                None => self.active_key() is None,
            },
    {
        self.active_account()
    }

    /// Makes a signed-in account the active one; an unknown key is refused
    /// and changes nothing.
    pub fn switch_active_account(&mut self, account_key: &str) -> (r: Result<(), String>)
        requires
            old(self).wf(),
        ensures
            final(self).wf(),
            final(self).accounts() == old(self).accounts(),
            final(self).restored() == old(self).restored(),
            final(self).modes() == old(self).modes(),
            match r {
                Ok(()) => old(self).accounts().contains_key(account_key@) && final(self).active_key() == Some(
                    account_key@,
                ),
                Err(e) => !old(self).accounts().contains_key(account_key@) && final(self).active_key()
                    == old(self).active_key() && e@ == "Unknown account key: "@ + account_key@,
            },
    {
        match self.position_of(account_key) {
            None => Err(concat2("Unknown account key: ", account_key)),
            Some(i) => {
                proof {
                    lemma_key_at(self.accounts@, i as int);
                }
                self.active_account_key = Some(account_key.to_owned());
                Ok(())
            },
        }
    }

    /// Whether some account keeps its store in the directory.
    pub fn store_dir_is_managed(&self, store_dir: &StorePath) -> (r: bool)
        requires
            self.wf(),
        ensures
            r == exists|k: Seq<char>|
                #[trigger] self.accounts().contains_key(k) && self.accounts()[k].2 == path_view(*store_dir),
    {
        self.account_for_store_dir(store_dir).is_some()
    }

    /// An account that keeps its store in the directory, with its key; none
    /// when no account does.
    pub fn account_for_store_dir(&self, store_dir: &StorePath) -> (r: Option<(&String, &ManagedAccount<C>)>)
        requires
            self.wf(),
        ensures
            match r {
                Some((k, a)) => self.accounts().contains_key(k@) && self.accounts()[k@] == account_view(*a)
                    && path_view(a.store_dir) == path_view(*store_dir),
                None => !exists|k: Seq<char>|
                    #[trigger] self.accounts().contains_key(k) && self.accounts()[k].2 == path_view(*store_dir),
            },
    {
        let mut i: usize = 0;
        while i < self.accounts.len()
            invariant
                self.wf(),
                i <= self.accounts@.len(),
                forall|j: int|
                    0 <= j < i ==> path_view((#[trigger] self.accounts@[j]).1.store_dir) != path_view(*store_dir),
            decreases self.accounts.len() - i,
        {
            if same_path(&self.accounts[i].1.store_dir, store_dir) {
                proof {
                    lemma_key_at(self.accounts@, i as int);
                }
                return Some((&self.accounts[i].0, &self.accounts[i].1));
            }
            i = i + 1;
        }
        proof {
            assert forall|k: Seq<char>| #[trigger] self.accounts().contains_key(k) implies self.accounts()[k].2
                != path_view(*store_dir) by {
                let j = index_of_key(self.accounts@, k);
                assert(path_view(self.accounts@[j].1.store_dir) != path_view(*store_dir));
            }
        }
        None
    }

    /// Whether the accounts kept on disk were restored.
    pub fn restore_is_completed(&self) -> (r: bool)
        ensures
            r == self.restored(),
    {
        self.restore_completed
    }

    /// Whether the account may use the network: it may unless it was marked
    /// as needing to sign in again.
    pub fn network_actions_allowed(&self, account_key: &str) -> (r: bool)
        ensures
            r == actions_allowed(self.modes(), account_key@),
    {
        self.authorization_modes.network_actions_allowed(account_key)
    }

    /// Records the authorization mode of an account.
    pub fn set_authorization_mode(&mut self, account_key: &str, mode: AccountAuthorizationMode)
        requires
            old(self).wf(),
        ensures
            final(self).wf(),
            final(self).modes() == old(self).modes().insert(account_key@, mode),
            final(self).accounts() == old(self).accounts(),
            final(self).active_key() == old(self).active_key(),
            final(self).restored() == old(self).restored(),
    {
        self.authorization_modes.set_authorization_mode(account_key, mode);
    }

    /// Marks an account as needing to sign in again.
    pub fn mark_reauthentication_required(&mut self, account_key: &str)
        requires
            old(self).wf(),
        ensures
            final(self).wf(),
            final(self).modes() == old(self).modes().insert(
                account_key@,
                AccountAuthorizationMode::ReauthenticationRequired,
            ),
            final(self).accounts() == old(self).accounts(),
            final(self).active_key() == old(self).active_key(),
            final(self).restored() == old(self).restored(),
    {
        self.set_authorization_mode(account_key, AccountAuthorizationMode::ReauthenticationRequired);
    }
}

impl<C> AccountManager<C> {
    /// Keeps a signed-in account, replacing an earlier entry of the same
    /// key so that no stale client stays behind; it becomes the active
    /// account when none is.
    pub fn store_logged_in_account(
        &mut self,
        account_key: String,
        user_id: String,
        homeserver_url: String,
        store_dir: StorePath,
        client: C,
    ) -> (r: AccountSummary)
        requires
            old(self).wf(),
        ensures
            final(self).wf(),
            final(self).accounts() == old(self).accounts().insert(
                account_key@,
                (user_id@, homeserver_url@, path_view(store_dir)),
            ),
            final(self).active_key() == if old(self).active_key() is None {
                Some(account_key@)
            } else {
                old(self).active_key()
            },
            final(self).restored() == old(self).restored(),
            final(self).modes() == old(self).modes(),
            r.account_key == account_key,
            r.user_id == user_id,
            r.homeserver_url == homeserver_url,
            r.is_active == (final(self).active_key() == Some(account_key@)),
    {
        let account = ManagedAccount {
            client,
            user_id: user_id.clone(),
            homeserver_url: homeserver_url.clone(),
            store_dir,
        };
        let ghost before = self.accounts@;
        upsert_account(&mut self.accounts, account_key.clone(), account);
        proof {
            assert(accounts_map(self.accounts@).contains_key(account_key@));
            assert(has_key(self.accounts@, account_key@));
            let active = self.active_account_key;
            if active is Some {
                let a = active->0;
                lemma_key_at(before, index_of_key(before, a@));
                assert(accounts_map(self.accounts@).contains_key(a@));
                assert(has_key(self.accounts@, a@));
            }
        }
        if self.active_account_key.is_none() {
            self.active_account_key = Some(account_key.clone());
        }
        let is_active = match &self.active_account_key {
            Some(k) => str_eq(k.as_str(), account_key.as_str()),
            None => false,
        };
        AccountSummary { account_key, user_id, homeserver_url, is_active }
    }

    /// Drops every account that keeps its store in the directory. When the
    /// active account is among them, another remaining account becomes
    /// active, or none when none remains.
    pub fn release_accounts_for_store_dir(&mut self, store_dir: &StorePath)
        requires
            old(self).wf(),
        ensures
            final(self).wf(),
            forall|k: Seq<char>|
                #[trigger] final(self).accounts().contains_key(k) <==> old(self).accounts().contains_key(k)
                    && old(self).accounts()[k].2 != path_view(*store_dir),
            forall|k: Seq<char>|
                #[trigger] final(self).accounts().contains_key(k) ==> final(self).accounts()[k] == old(
                    self,
                ).accounts()[k],
            (old(self).active_key() matches Some(a) && old(self).accounts()[a].2 != path_view(*store_dir))
                ==> final(self).active_key() == old(self).active_key(),
            final(self).restored() == old(self).restored(),
            final(self).modes() == old(self).modes(),
    {
        let ghost all = self.accounts@;
        let ghost pv = path_view(*store_dir);
        let ghost active = self.active_account_key;
        let mut rest: Vec<(String, ManagedAccount<C>)> = Vec::new();
        std::mem::swap(&mut rest, &mut self.accounts);
        let total: usize = rest.len();
        let mut kept: Vec<(String, ManagedAccount<C>)> = Vec::new();
        let ghost mut src: Seq<int> = Seq::empty();
        let mut taken: usize = 0;
        let mut removed_active = false;
        assert(rest@ == all.skip(0));
        while rest.len() > 0
            invariant
                taken + rest@.len() == all.len(),
                all.len() == total,
                rest@ == all.skip(taken as int),
                self.active_account_key == active,
                pv == path_view(*store_dir),
                src.len() == kept@.len(),
                forall|j: int|
                    0 <= j < src.len() ==> 0 <= #[trigger] src[j] < taken && kept@[j] == all[src[j]] && path_view(
                        all[src[j]].1.store_dir,
                    ) != pv,
                forall|j1: int, j2: int| 0 <= j1 < j2 < src.len() ==> #[trigger] src[j1] < #[trigger] src[j2],
                forall|i: int|
                    0 <= i < taken && path_view((#[trigger] all[i]).1.store_dir) != pv ==> exists|j: int|
                        0 <= j < src.len() && src[j] == i,
                removed_active == (active matches Some(a) && exists|i: int|
                    0 <= i < taken && (#[trigger] all[i]).0@ == a@ && path_view(all[i].1.store_dir) == pv),
            decreases rest.len(),
        {
            let entry = rest.remove(0);
            assert(entry == all[taken as int]);
            let ghost old_src = src;
            if same_path(&entry.1.store_dir, store_dir) {
                assert(path_view(all[taken as int].1.store_dir) == pv);
                match &self.active_account_key {
                    Some(a) => {
                        if str_eq(a.as_str(), entry.0.as_str()) {
                            removed_active = true;
                        }
                    },
                    None => {},
                }
                assert forall|i: int|
                    0 <= i < taken + 1 && path_view((#[trigger] all[i]).1.store_dir) != pv implies exists|j: int|
                    0 <= j < src.len() && src[j] == i by {
                    assert(i < taken);
                }
            } else {
                proof {
                    src = src.push(taken as int);
                }
                kept.push(entry);
                assert forall|i: int|
                    0 <= i < taken + 1 && path_view((#[trigger] all[i]).1.store_dir) != pv implies exists|j: int|
                    0 <= j < src.len() && src[j] == i by {
                    if i == taken {
                        assert(src[src.len() - 1] == i);
                    } else {
                        let j = choose|j: int| 0 <= j < old_src.len() && old_src[j] == i;
                        assert(src[j] == i);
                    }
                }
            }
            taken = taken + 1;
            assert(rest@ == all.skip(taken as int));
        }
        self.accounts = kept;
        if removed_active {
            if self.accounts.len() > 0 {
                self.active_account_key = Some(self.accounts[0].0.clone());
            } else {
                self.active_account_key = None;
            }
        }
        proof {
            let now = self.accounts@;
            assert(taken == all.len());
            assert(distinct_keys(now)) by {
                assert forall|i: int, j: int|
                    0 <= i < now.len() && 0 <= j < now.len() && i != j implies (#[trigger] now[i]).0@ != (
                    #[trigger] now[j]).0@ by {
                    if i < j {
                        assert(src[i] < src[j]);
                    } else {
                        assert(src[j] < src[i]);
                    }
                    assert(all[src[i]].0@ != all[src[j]].0@);
                }
            }
            assert forall|k: Seq<char>| #[trigger] has_key(now, k) implies has_key(all, k) && path_view(
                all[index_of_key(all, k)].1.store_dir,
            ) != pv && accounts_map(now)[k] == accounts_map(all)[k] by {
                let j = index_of_key(now, k);
                lemma_key_at(now, j);
                lemma_key_at(all, src[j]);
            }
            assert forall|k: Seq<char>|
                has_key(all, k) && path_view(all[index_of_key(all, k)].1.store_dir) != pv implies #[trigger] has_key(
                now,
                k,
            ) by {
                let i = index_of_key(all, k);
                let j = choose|j: int| 0 <= j < src.len() && src[j] == i;
                assert(now[j].0@ == k);
            }
            match active {
                Some(a) => {
                    let i = index_of_key(all, a@);
                    lemma_key_at(all, i);
                    if path_view(all[i].1.store_dir) != pv {
                        if removed_active {
                            let i2 = choose|i2: int|
                                0 <= i2 < all.len() && (#[trigger] all[i2]).0@ == a@ && path_view(all[i2].1.store_dir)
                                    == pv;
                            lemma_key_at(all, i2);
                        }
                        assert(has_key(now, a@));
                    } else {
                        assert(all[i].0@ == a@);
                        assert(removed_active);
                    }
                    if !removed_active {
                        assert(has_key(now, a@));
                        let j = index_of_key(now, a@);
                        assert(now.len() > 0);
                    }
                },
                None => {
                    assert(all.len() == 0);
                    if now.len() > 0 {
                        assert(src[0] < taken);
                    }
                },
            }
            if removed_active {
                if now.len() > 0 {
                    assert(has_key(now, now[0].0@));
                }
            }
        }
    }
}

impl<C: Clone> AccountManager<C> {
    /// A copy of the active account's client, with its key, homeserver and
    /// store directory.
    pub fn active_account_client_loaded(&self) -> (r: Option<AccountClientSnapshot<C>>)
        requires
            self.wf(),
        ensures
            match r {
                Some(s) => self.active_key() == Some(s.account_key@) && self.accounts().contains_key(
                    s.account_key@,
                ) && self.accounts()[s.account_key@].1 == s.homeserver_url@ && self.accounts()[s.account_key@].2
                    == path_view(s.store_dir),
                None => self.active_key() is None,
            },
    {
        match &self.active_account_key {
            None => None,
            Some(key) => match self.position_of(key.as_str()) {
                Some(i) => {
                    proof {
                        lemma_key_at(self.accounts@, i as int);
                    }
                    let entry = &self.accounts[i];
                    Some(
                        AccountClientSnapshot {
                            account_key: entry.0.clone(),
                            homeserver_url: entry.1.homeserver_url.clone(),
                            client: entry.1.client.clone(),
                            store_dir: clone_path(&entry.1.store_dir),
                        },
                    )
                },
                None => None,
            },
        }
    }

    /// The active account's client, or the error that there is none.
    pub fn require_active_account(&self) -> (r: Result<AccountClientSnapshot<C>, String>)
        requires
            self.wf(),
        ensures
            match r {
                Ok(s) => self.active_key() == Some(s.account_key@) && self.accounts().contains_key(s.account_key@)
                    && self.accounts()[s.account_key@].1 == s.homeserver_url@ && self.accounts()[s.account_key@].2
                    == path_view(s.store_dir),
                Err(e) => self.active_key() is None && e@ == "No active account is available"@,
            },
    {
        match self.active_account_client_loaded() {
            Some(s) => Ok(s),
            None => Err("No active account is available".to_owned()),
        }
    }

    /// The active account's summary, a copy of its client, and its store
    /// directory.
    pub fn active_account_snapshot(&self) -> (r: Option<(AccountSummary, C, StorePath)>)
        requires
            self.wf(),
        ensures
            match r {
                Some((s, _, dir)) => self.active_key() == Some(s.account_key@) && self.accounts().contains_key(
                    s.account_key@,
                ) && self.accounts()[s.account_key@] == (s.user_id@, s.homeserver_url@, path_view(dir))
                    && s.is_active,
                None => self.active_key() is None,
            },
    {
        match &self.active_account_key {
            None => None,
            Some(key) => match self.position_of(key.as_str()) {
                Some(i) => {
                    proof {
                        lemma_key_at(self.accounts@, i as int);
                    }
                    let summary = self.summary_at(i);
                    let entry = &self.accounts[i];
                    Some((summary, entry.1.client.clone(), clone_path(&entry.1.store_dir)))
                },
                None => None,
            },
        }
    }
}

/// How restoring one account store found on disk ended.
#[derive(Debug)]
pub enum DiscoveredAccountRestore<C> {
    Restored { account_key: String, account: ManagedAccount<C>, is_active: bool },
    SkippedMissingKey,
    RetryNeeded,
}

/// What a restore found: whether some store must be tried again later,
/// and whether any account was restored.
#[derive(Debug, Clone, Copy, PartialEq, Eq, Structural)]
pub struct AccountRestoreState {
    pub retry_needed: bool,
    pub has_restored_accounts: bool,
}

/// The accounts that restoring gives, by key; a later store of the same
/// key replaces an earlier one.
pub open spec fn restored_map<C>(outcomes: Seq<DiscoveredAccountRestore<C>>) -> Map<
    Seq<char>,
    (Seq<char>, Seq<char>, (Option<Seq<char>>, Seq<Seq<char>>)),
>
    decreases outcomes.len(),
{
    if outcomes.len() == 0 {
        Map::empty()
    } else {
        let earlier = restored_map(outcomes.drop_last());
        match outcomes.last() {
            DiscoveredAccountRestore::Restored { account_key, account, .. } => earlier.insert(
                account_key@,
                account_view(account),
            ),
            _ => earlier,
        }
    }
}

/// The key of the first restored account that was active, if any.
pub open spec fn first_active<C>(outcomes: Seq<DiscoveredAccountRestore<C>>) -> Option<Seq<char>>
    decreases outcomes.len(),
{
    if outcomes.len() == 0 {
        None
    } else {
        let earlier = first_active(outcomes.drop_last());
        if earlier is Some {
            earlier
        } else {
            match outcomes.last() {
                DiscoveredAccountRestore::Restored { account_key, is_active, .. } => if is_active {
                    Some(account_key@)
                } else {
                    None
                },
                _ => None,
            }
        }
    }
}

/// Some store must be tried again later.
pub open spec fn any_retry<C>(outcomes: Seq<DiscoveredAccountRestore<C>>) -> bool {
    exists|i: int| 0 <= i < outcomes.len() && #[trigger] outcomes[i] is RetryNeeded
}

proof fn lemma_first_active_restored<C>(outcomes: Seq<DiscoveredAccountRestore<C>>)
    ensures
        first_active(outcomes) matches Some(k) ==> restored_map(outcomes).contains_key(k),
    decreases outcomes.len(),
{
    if outcomes.len() > 0 {
        lemma_first_active_restored(outcomes.drop_last());
    }
}

impl<C> AccountManager<C> {
    /// Takes the accounts restored from the stores found on disk, in place
    /// of those held: the first restored account that was active stays
    /// active, else some restored account, else none. Says whether some
    /// store must be tried again and whether any account was restored.
    pub fn restore_accounts_state(&mut self, outcomes: Vec<DiscoveredAccountRestore<C>>) -> (r: AccountRestoreState)
        ensures
            final(self).wf(),
            final(self).accounts() == restored_map(outcomes@),
            first_active(outcomes@) is Some ==> final(self).active_key() == first_active(outcomes@),
            r.retry_needed == any_retry(outcomes@),
            r.has_restored_accounts == (restored_map(outcomes@) != Map::<
                Seq<char>,
                (Seq<char>, Seq<char>, (Option<Seq<char>>, Seq<Seq<char>>)),
            >::empty()),
            final(self).restored() == old(self).restored(),
            final(self).modes() == old(self).modes(),
    {
        let ghost all = outcomes@;
        let total: usize = outcomes.len();
        let mut rest = outcomes;
        let mut taken: usize = 0;
        let mut entries: Vec<(String, ManagedAccount<C>)> = Vec::new();
        let mut active: Option<String> = None;
        let mut retry_needed = false;
        assert(rest@ == all.skip(0));
        assert(accounts_map(entries@) =~= restored_map(all.take(0)));
        while rest.len() > 0
            invariant
                taken + rest@.len() == all.len(),
                all.len() == total,
                rest@ == all.skip(taken as int),
                distinct_keys(entries@),
                accounts_map(entries@) == restored_map(all.take(taken as int)),
                opt_view(active) == first_active(all.take(taken as int)),
                retry_needed == exists|i: int| 0 <= i < taken && #[trigger] all[i] is RetryNeeded,
            decreases rest.len(),
        {
            let outcome = rest.remove(0);
            assert(all.take(taken + 1).drop_last() == all.take(taken as int));
            assert(all.take(taken + 1).last() == outcome);
            match outcome {
                DiscoveredAccountRestore::Restored { account_key, account, is_active } => {
                    if is_active && active.is_none() {
                        active = Some(account_key.clone());
                    }
                    upsert_account(&mut entries, account_key, account);
                },
                DiscoveredAccountRestore::SkippedMissingKey => {},
                DiscoveredAccountRestore::RetryNeeded => {
                    retry_needed = true;
                },
            }
            taken = taken + 1;
            assert(rest@ == all.skip(taken as int));
        }
        assert(all.take(all.len() as int) == all);
        proof {
            lemma_first_active_restored(all);
        }
        if active.is_none() && entries.len() > 0 {
            active = Some(entries[0].0.clone());
            proof {
                lemma_key_at(entries@, 0);
            }
        }
        let has_restored_accounts = entries.len() > 0;
        proof {
            if entries@.len() > 0 {
                lemma_key_at(entries@, 0);
            } else {
                assert(accounts_map(entries@) =~= Map::empty());
            }
            if active is Some {
                let k = active->0;
                assert(accounts_map(entries@).contains_key(k@));
                assert(has_key(entries@, k@));
            }
        }
        self.accounts = entries;
        self.active_account_key = active;
        AccountRestoreState { retry_needed, has_restored_accounts }
    }

    /// Records that restoring ended: complete unless some store must be
    /// tried again.
    pub fn complete_restore(&mut self, state: AccountRestoreState)
        requires
            old(self).wf(),
        ensures
            final(self).wf(),
            final(self).restored() == !state.retry_needed,
            final(self).accounts() == old(self).accounts(),
            final(self).active_key() == old(self).active_key(),
            final(self).modes() == old(self).modes(),
    {
        self.restore_completed = !state.retry_needed;
    }
}

fn position_of_key<C>(entries: &Vec<(String, ManagedAccount<C>)>, account_key: &str) -> (r: Option<usize>)
    ensures
        match r {
            Some(i) => i < entries@.len() && entries@[i as int].0@ == account_key@,
            None => !has_key(entries@, account_key@),
        },
{
    let mut i: usize = 0;
    while i < entries.len()
        invariant
            i <= entries@.len(),
            forall|j: int| 0 <= j < i ==> (#[trigger] entries@[j]).0@ != account_key@,
        decreases entries.len() - i,
    {
        if str_eq(entries[i].0.as_str(), account_key) {
            return Some(i);
        }
        i = i + 1;
    }
    None
}

/// Keeps an account under its key, replacing the entry of that key if
/// there is one.
fn upsert_account<C>(entries: &mut Vec<(String, ManagedAccount<C>)>, account_key: String, account: ManagedAccount<C>)
    requires
        distinct_keys(old(entries)@),
    ensures
        distinct_keys(final(entries)@),
        accounts_map(final(entries)@) == accounts_map(old(entries)@).insert(account_key@, account_view(account)),
{
    let ghost before = entries@;
    let ghost view = account_view(account);
    let ghost key = account_key@;
    let ghost at: int;
    match position_of_key(entries, account_key.as_str()) {
        Some(i) => {
            entries.set(i, (account_key, account));
            proof {
                at = i as int;
            }
        },
        None => {
            entries.push((account_key, account));
            proof {
                at = before.len() as int;
            }
        },
    }
    proof {
        let after = entries@;
        assert(after[at].0@ == key);
        assert(account_view(after[at].1) == view);
        assert forall|j: int| 0 <= j < after.len() && j != at implies #[trigger] after[j] == before[j]
            && after[j].0@ != key by {
            if j < before.len() && before[j].0@ == key {
                assert(has_key(before, key));
            }
        }
        assert(distinct_keys(after)) by {
            assert forall|i: int, j: int|
                0 <= i < after.len() && 0 <= j < after.len() && i != j implies (#[trigger] after[i]).0@ != (
                #[trigger] after[j]).0@ by {
                if i != at && j != at {
                    assert(before[i].0@ != before[j].0@);
                }
            }
        }
        lemma_key_at(after, at);
        assert forall|k: Seq<char>| k != key implies has_key(after, k) == has_key(before, k) by {
            if has_key(before, k) {
                let j = index_of_key(before, k);
                assert(after[j] == before[j]);
            }
            if has_key(after, k) {
                let j = index_of_key(after, k);
                assert(after[j] == before[j]);
            }
        }
        assert forall|k: Seq<char>| k != key && has_key(before, k) implies accounts_map(after)[k] == accounts_map(
            before,
        )[k] by {
            let j = index_of_key(before, k);
            lemma_key_at(before, j);
            assert(after[j] == before[j]);
            lemma_key_at(after, j);
        }
        assert(accounts_map(after) =~= accounts_map(before).insert(key, view));
    }
}

fn clone_path(p: &StorePath) -> (r: StorePath)
    ensures
        r.root == p.root,
        r.components@ == p.components@,
        path_view(r) == path_view(*p),
{
    let mut components: Vec<String> = Vec::new();
    let mut i: usize = 0;
    while i < p.components.len()
        invariant
            i <= p.components@.len(),
            components@ == p.components@.take(i as int),
        decreases p.components.len() - i,
    {
        components.push(p.components[i].clone());
        i = i + 1;
    }
    assert(p.components@.take(p.components@.len() as int) == p.components@);
    StorePath { root: clone_opt_string(&p.root), components }
}

/// Whether two paths are the same: the same root and the same names.
pub fn same_path(a: &StorePath, b: &StorePath) -> (r: bool)
    ensures
        r == (path_view(*a) == path_view(*b)),
{
    let roots_match = match (&a.root, &b.root) {
        (Some(x), Some(y)) => str_eq(x.as_str(), y.as_str()),
        (None, None) => true,
        _ => false,
    };
    if !roots_match {
        return false;
    }
    if a.components.len() != b.components.len() {
        assert(names(*a).len() != names(*b).len());
        return false;
    }
    let mut i: usize = 0;
    while i < a.components.len()
        invariant
            i <= a.components@.len(),
            a.components@.len() == b.components@.len(),
            forall|j: int| 0 <= j < i ==> (#[trigger] a.components@[j])@ == b.components@[j]@,
        decreases a.components.len() - i,
    {
        if !str_eq(a.components[i].as_str(), b.components[i].as_str()) {
            assert(names(*a)[i as int] != names(*b)[i as int]);
            return false;
        }
        i = i + 1;
    }
    assert(names(*a) =~= names(*b));
    true
}

proof fn lemma_dom_len<C>(entries: Seq<(String, ManagedAccount<C>)>)
    requires
        distinct_keys(entries),
    ensures
        accounts_map(entries).dom().finite(),
        accounts_map(entries).dom().len() == entries.len(),
{
    let keys = entries.map_values(|e: (String, ManagedAccount<C>)| e.0@);
    assert(keys.no_duplicates()) by {
        assert forall|i: int, j: int| 0 <= i < keys.len() && 0 <= j < keys.len() && i != j implies keys[i]
            != keys[j] by {
            assert(entries[i].0@ != entries[j].0@);
        }
    }
    assert(accounts_map(entries).dom() =~= keys.to_set()) by {
        assert forall|k: Seq<char>| accounts_map(entries).dom().contains(k) implies keys.to_set().contains(k) by {
            let i = index_of_key(entries, k);
            assert(keys[i] == k);
        }
        assert forall|k: Seq<char>| keys.to_set().contains(k) implies accounts_map(entries).dom().contains(k) by {
            let i = choose|i: int| 0 <= i < keys.len() && keys[i] == k;
            assert(entries[i].0@ == k);
        }
    }
    keys.unique_seq_to_set();
}

// ---------------------------------------------------------------------------
// Store directories on disk
// ---------------------------------------------------------------------------

/// Why the store id of a store directory cannot be found.
#[derive(Debug, Clone, Copy, PartialEq, Eq, Structural)]
pub enum StoreIdProblem {
    NoParent,
    NoStoreId,
}

/// The directory that holds an account's store, and the store id it is
/// named by: the last name of that directory, when it is a plain name.
pub fn store_root_and_id(store_dir: &StorePath) -> (r: Result<(StorePath, String), StoreIdProblem>)
    ensures
        match r {
            Ok((root, id)) => store_dir.components@.len() > 1 && path_view(root) == (
                opt_view(store_dir.root),
                names(*store_dir).drop_last(),
            ) && id@ == names(root).last() && id@.len() > 0 && id@ != ".."@,
            Err(StoreIdProblem::NoParent) => store_dir.components@.len() == 0,
            Err(StoreIdProblem::NoStoreId) => store_dir.components@.len() > 0 && (store_dir.components@.len() == 1
                || names(*store_dir).drop_last().last().len() == 0 || names(*store_dir).drop_last().last()
                == ".."@),
        },
{
    let root = match store_dir.parent() {
        Some(root) => root,
        None => {
            return Err(StoreIdProblem::NoParent);
        },
    };
    let n: usize = root.components.len();
    if n == 0 {
        return Err(StoreIdProblem::NoStoreId);
    }
    assert(names(root).len() == n);
    let last = root.components[n - 1].as_str();
    if last.unicode_len() == 0 || str_eq(last, "..") {
        return Err(StoreIdProblem::NoStoreId);
    }
    let id = last.to_owned();
    Ok((root, id))
}

/// The store id of the active account's store, or why there is none.
pub fn active_account_store_id(store_dir: &StorePath) -> (r: Result<(StorePath, String), String>)
    ensures
        match (r, store_root_and_id_spec(*store_dir)) {
            (Ok((root, id)), Ok(expected)) => path_view(root) == expected.0 && id@ == expected.1,
            (Err(e), Err(StoreIdProblem::NoParent)) => e@ == "Active account store path has no parent directory"@,
            (Err(e), Err(StoreIdProblem::NoStoreId)) => e@ == "Active account store directory has no valid store id"@,
            _ => false,
        },
{
    match store_root_and_id(store_dir) {
        Ok(found) => Ok(found),
        Err(StoreIdProblem::NoParent) => Err("Active account store path has no parent directory".to_owned()),
        Err(StoreIdProblem::NoStoreId) => Err("Active account store directory has no valid store id".to_owned()),
    }
}

/// The directory above a store and its store id, as values, or why they
/// cannot be found.
pub open spec fn store_root_and_id_spec(store_dir: StorePath) -> Result<
    ((Option<Seq<char>>, Seq<Seq<char>>), Seq<char>),
    StoreIdProblem,
> {
    let all = names(store_dir);
    if all.len() == 0 {
        Err(StoreIdProblem::NoParent)
    } else if all.len() == 1 || all.drop_last().last().len() == 0 || all.drop_last().last() == ".."@ {
        Err(StoreIdProblem::NoStoreId)
    } else {
        Ok(((opt_view(store_dir.root), all.drop_last()), all.drop_last().last()))
    }
}

/// How many times removing a store directory is tried.
pub const RESET_RETRY_ATTEMPTS: usize = 50;

/// How one try to remove a directory went.
#[derive(Debug)]
pub enum RemoveDirAttempt {
    /// The directory is not there.
    Missing,
    Removed,
    /// Removing failed, with the operating system's error code if any and
    /// the error's text.
    Failed { os_error: Option<i32>, message: String },
}

/// What to do after a try to remove a directory.
#[derive(Debug)]
pub enum RemoveDirStep {
    Done,
    /// Wait a moment and try again: the directory is still in use.
    RetryAfterDelay,
    Fail(String),
}

/// The step after try number `attempt` (counted from zero): done when the
/// directory is gone; try again after a delay while another process still
/// holds it (the sharing violation, code 32) and tries are left; otherwise
/// fail with the context and the error.
pub fn remove_dir_step(attempt: usize, outcome: RemoveDirAttempt, failure_context: &str) -> (r: RemoveDirStep)
    requires
        attempt < RESET_RETRY_ATTEMPTS,
    ensures
        match outcome {
            RemoveDirAttempt::Missing | RemoveDirAttempt::Removed => r is Done,
            RemoveDirAttempt::Failed { os_error, message } => if os_error == Some(32i32) && attempt + 1
                < RESET_RETRY_ATTEMPTS {
                r is RetryAfterDelay
            } else {
                r matches RemoveDirStep::Fail(e) && e@ == failure_context@ + ": "@ + message@
            },
        },
{
    match outcome {
        RemoveDirAttempt::Missing => RemoveDirStep::Done,
        RemoveDirAttempt::Removed => RemoveDirStep::Done,
        RemoveDirAttempt::Failed { os_error, message } => {
            let sharing_violation = match os_error {
                Some(code) => code == 32,
                None => false,
            };
            if sharing_violation && attempt + 1 < RESET_RETRY_ATTEMPTS {
                RemoveDirStep::RetryAfterDelay
            } else {
                RemoveDirStep::Fail(concat3(failure_context, ": ", message.as_str()))
            }
        },
    }
}

/// The error when every try to remove a directory was used up.
pub fn remove_dir_retries_exhausted(failure_context: &str) -> (r: String)
    ensures
        r@ == failure_context@ + " after repeated retries"@,
{
    concat2(failure_context, " after repeated retries")
}

// ---------------------------------------------------------------------------
// Signing in
// ---------------------------------------------------------------------------

/// Whether a failed sign-in is retried once on a fresh store: only when no
/// device id is kept for the store and the failure says the store holds
/// another account's crypto state.
pub fn should_retry_login_on_clean_store(retained_device_id: Option<&str>, error_message: &str) -> (r: bool)
    ensures
        r == (retained_device_id is None && seq_contains(
            error_message@,
            "account in the store doesn't match the account in the constructor"@,
        )),
{
    retained_device_id.is_none() && is_stale_crypto_store_error(error_message)
}

/// The error of a sign-in that failed again on the fresh store.
pub fn clean_store_login_error(retry_error: &str) -> (r: String)
    ensures
        r@ == "Login failed after resetting the stale local crypto store: "@ + retry_error@,
{
    concat2("Login failed after resetting the stale local crypto store: ", retry_error)
}

/// Whether a restored client already has the encryption settings it
/// needs: true when neither verified-devices-only nor history sharing on
/// invite is set, so it need not be built again.
pub fn client_uses_default_preferences(preferences: &EncryptionPreferences) -> (r: bool)
    ensures
        r == (!preferences.verified_devices_only && !preferences.share_encrypted_history_on_invite),
{
    !preferences.verified_devices_only && !preferences.share_encrypted_history_on_invite
}


// ---------------------------------------------------------------------------
// Stores kept on disk
// ---------------------------------------------------------------------------

/// A directory entry found under the accounts root: its name, whether it is
/// a directory, and whether it holds a `store` directory.
#[derive(Debug)]
pub struct StoreDirEntry {
    pub name: String,
    pub is_dir: bool,
    pub has_store_dir: bool,
}

/// Where an account's files are kept: its store id, its store and cache
/// directories, and the homeserver its store id names.
#[derive(Debug)]
pub struct AccountStorageLocation {
    pub store_id: String,
    pub store_dir: StorePath,
    pub cache_dir: StorePath,
    pub homeserver_url: String,
}

/// An entry is an account store when it is a directory whose name is a
/// store id naming a homeserver, and it holds a store directory.
pub open spec fn is_account_store(e: StoreDirEntry) -> bool {
    e.is_dir && e.has_store_dir && store_id_homeserver(e.name@) is Some
}

/// A location lies under the accounts root, in the directory named by its
/// store id, and names the homeserver its store id names.
pub open spec fn located_under(root: StorePath, l: AccountStorageLocation) -> bool {
    &&& l.store_dir.root == root.root
    &&& names(l.store_dir) == names(root).push(l.store_id@).push("store"@)
    &&& l.cache_dir.root == root.root
    &&& names(l.cache_dir) == names(root).push(l.store_id@).push("cache"@)
    &&& store_id_homeserver(l.store_id@) == Some(l.homeserver_url@)
}

/// The store ids of some locations.
pub open spec fn location_ids(s: Seq<AccountStorageLocation>) -> Seq<Seq<char>> {
    s.map_values(|l: AccountStorageLocation| l.store_id@)
}

/// The names of the entries that are account stores.
pub open spec fn account_store_names(entries: Seq<StoreDirEntry>) -> Seq<Seq<char>> {
    entries.filter(|e: StoreDirEntry| is_account_store(e)).map_values(|e: StoreDirEntry| e.name@)
}

/// Locations in order of their store ids.
pub open spec fn sorted_by_store_id(s: Seq<AccountStorageLocation>) -> bool {
    forall|i: int, j: int| 0 <= i < j < s.len() ==> text_le(#[trigger] s[i].store_id@, #[trigger] s[j].store_id@)
}

/// The account stores found under the accounts root, in order of their
/// store ids: each entry that is a directory, holds a store directory and
/// whose name is a store id naming a homeserver, and no other.
pub fn discovered_account_stores(accounts_root: &StorePath, entries: Vec<StoreDirEntry>) -> (r: Vec<
    AccountStorageLocation,
>)
    ensures
        sorted_by_store_id(r@),
        forall|i: int| 0 <= i < r@.len() ==> located_under(*accounts_root, #[trigger] r@[i]),
        location_ids(r@).to_multiset() == account_store_names(entries@).to_multiset(),
{
    broadcast use vstd::seq_lib::group_to_multiset_ensures;
    broadcast use vstd::multiset::group_multiset_axioms;

    let ghost all = entries@;
    let ghost keep = |e: StoreDirEntry| is_account_store(e);
    let ghost name_of = |e: StoreDirEntry| e.name@;
    let mut found: Vec<AccountStorageLocation> = Vec::new();
    let mut i: usize = 0;
    proof {
        reveal(Seq::filter);
        assert(all.take(0).filter(keep) =~= Seq::<StoreDirEntry>::empty());
        assert(location_ids(found@) =~= all.take(0).filter(keep).map_values(name_of));
    }
    while i < entries.len()
        invariant
            i <= all.len(),
            all == entries@,
            keep == (|e: StoreDirEntry| is_account_store(e)),
            name_of == (|e: StoreDirEntry| e.name@),
            location_ids(found@) == all.take(i as int).filter(keep).map_values(name_of),
            forall|k: int| 0 <= k < found@.len() ==> located_under(*accounts_root, #[trigger] found@[k]),
        decreases entries.len() - i,
    {
        proof {
            crate::search::lemma_filter_take_next(all, keep, i as int);
        }
        let entry = &entries[i];
        if entry.is_dir && entry.has_store_dir {
            match decode_homeserver_url_from_store_id(entry.name.as_str()) {
                Some(homeserver_url) => {
                    let ghost before = found@;
                    found.push(
                        account_storage_location(accounts_root, entry.name.clone(), homeserver_url.as_str()),
                    );
                    proof {
                        assert(location_ids(found@) =~= location_ids(before).push(entry.name@));
                        assert(all.take(i as int).filter(keep).push(all[i as int]).map_values(name_of)
                            =~= all.take(i as int).filter(keep).map_values(name_of).push(entry.name@));
                    }
                },
                None => {},
            }
        }
        i = i + 1;
    }
    proof {
        assert(all.take(all.len() as int) == all);
    }
    let ghost total = location_ids(found@).to_multiset();
    let mut input = found;
    let mut out: Vec<AccountStorageLocation> = Vec::new();
    assert(location_ids(out@).to_multiset() =~= vstd::multiset::Multiset::empty());
    while input.len() > 0
        invariant
            location_ids(out@).to_multiset().add(location_ids(input@).to_multiset()) == total,
            sorted_by_store_id(out@),
            forall|k: int| 0 <= k < out@.len() ==> located_under(*accounts_root, #[trigger] out@[k]),
            forall|k: int| 0 <= k < input@.len() ==> located_under(*accounts_root, #[trigger] input@[k]),
        decreases input.len(),
    {
        let ghost before_input = input@;
        let x = input.remove(0);
        proof {
            assert(location_ids(before_input) == location_ids(input@).insert(0, x.store_id@)) by {
                assert(location_ids(before_input) =~= location_ids(input@).insert(0, x.store_id@));
            }
            vstd::seq_lib::to_multiset_insert(location_ids(input@), 0, x.store_id@);
            assert(before_input[0] == x);
        }
        let mut k: usize = 0;
        while k < out.len() && text_le_exec(out[k].store_id.as_str(), x.store_id.as_str())
            invariant
                k <= out@.len(),
                forall|j: int| 0 <= j < k ==> text_le(#[trigger] out@[j].store_id@, x.store_id@),
            decreases out.len() - k,
        {
            k = k + 1;
        }
        let ghost before = out@;
        proof {
            assert forall|j: int| k <= j < before.len() implies text_le(
                x.store_id@,
                #[trigger] before[j].store_id@,
            ) by {
                lemma_text_le_total(before[k as int].store_id@, x.store_id@);
                if j > k {
                    assert(text_le(before[k as int].store_id@, before[j].store_id@));
                    lemma_text_le_trans(x.store_id@, before[k as int].store_id@, before[j].store_id@);
                }
            }
        }
        out.insert(k, x);
        proof {
            assert(location_ids(out@) =~= location_ids(before).insert(k as int, x.store_id@));
            vstd::seq_lib::to_multiset_insert(location_ids(before), k as int, x.store_id@);
            assert forall|a: int, b: int| 0 <= a < b < out@.len() implies text_le(
                #[trigger] out@[a].store_id@,
                #[trigger] out@[b].store_id@,
            ) by {
                if a < k && b == k {
                } else if a == k {
                    assert(out@[b] == before[b - 1]);
                } else if b < k {
                    assert(out@[a] == before[a] && out@[b] == before[b]);
                } else if a < k && b > k {
                    assert(out@[a] == before[a] && out@[b] == before[b - 1]);
                } else {
                    assert(out@[a] == before[a - 1] && out@[b] == before[b - 1]);
                }
            }
            assert forall|j: int| 0 <= j < out@.len() implies located_under(*accounts_root, #[trigger] out@[j]) by {
                if j < k {
                    assert(out@[j] == before[j]);
                } else if j > k {
                    assert(out@[j] == before[j - 1]);
                } else {
                    assert(located_under(*accounts_root, before_input[0]));
                }
            }
            assert forall|j: int| 0 <= j < input@.len() implies located_under(*accounts_root, #[trigger] input@[j]) by {
                assert(input@[j] == before_input[j + 1]);
            }
        }
    }
    assert(location_ids(input@).to_multiset() =~= vstd::multiset::Multiset::empty());
    out
}


/// What preparing a new account's storage decided: the secure-storage
/// entry of a stale store key to delete, if the store directory was taken
/// by a store no account keeps, and where the account's files go, or why no
/// place could be found.
#[derive(Debug)]
pub struct AccountStoragePlan {
    pub stale_key_entry: Option<String>,
    pub location: Result<AccountStorageLocation, String>,
}

/// The store directory of a store id under the accounts root, as a value.
pub open spec fn store_dir_under(root: StorePath, store_id: Seq<char>) -> (Option<Seq<char>>, Seq<Seq<char>>) {
    (opt_view(root.root), names(root).push(store_id).push("store"@))
}

/// The location of a store id under the accounts root, for a homeserver.
pub fn account_storage_location(accounts_root: &StorePath, store_id: String, homeserver_url: &str) -> (r:
    AccountStorageLocation)
    ensures
        r.store_id == store_id,
        r.homeserver_url@ == homeserver_url@,
        r.store_dir.root == accounts_root.root,
        names(r.store_dir) == names(*accounts_root).push(store_id@).push("store"@),
        r.cache_dir.root == accounts_root.root,
        names(r.cache_dir) == names(*accounts_root).push(store_id@).push("cache"@),
{
    let store_root = clone_path(accounts_root).join(store_id.as_str());
    let store_dir = clone_path(&store_root).join("store");
    let cache_dir = store_root.join("cache");
    AccountStorageLocation { store_id, store_dir, cache_dir, homeserver_url: homeserver_url.to_owned() }
}

impl<C> AccountManager<C> {
    /// Where a new account's files go. The store id comes from the
    /// homeserver and the account hint; when its directory exists and no
    /// account keeps its store there, its store key is dropped and a fresh
    /// store id with a random suffix is used instead.
    pub fn plan_account_storage(
        &self,
        accounts_root: &StorePath,
        homeserver_url: &str,
        account_hint: &str,
        store_root_exists: bool,
    ) -> (r: AccountStoragePlan)
        requires
            self.wf(),
        ensures
            ({
                let id = account_store_id_spec(homeserver_url@, account_hint@);
                let stale = store_root_exists && !exists|k: Seq<char>|
                    #[trigger] self.accounts().contains_key(k) && self.accounts()[k].2 == store_dir_under(
                        *accounts_root,
                        id,
                    );
                &&& opt_view(r.stale_key_entry) == if stale {
                    Some("matrix-store-key::"@ + id)
                } else {
                    None
                }
                &&& match r.location {
                    Ok(l) => {
                        &&& (if stale {
                            exists|random: Seq<u8>|
                                random.len() == REPLACEMENT_STORE_ID_RANDOM_BYTES && l.store_id@ == id
                                    + "__fresh_"@ + base64_url_encode(random)
                        } else {
                            l.store_id@ == id
                        })
                        &&& l.homeserver_url@ == homeserver_url@
                        &&& l.store_dir.root == accounts_root.root
                        &&& names(l.store_dir) == names(*accounts_root).push(l.store_id@).push("store"@)
                        &&& l.cache_dir.root == accounts_root.root
                        &&& names(l.cache_dir) == names(*accounts_root).push(l.store_id@).push("cache"@)
                    },
                    Err(e) => stale && starts_with(e@, "Failed to generate a replacement account store id: "@),
                }
            }),
    {
        let store_id = account_store_id(homeserver_url, account_hint);
        let candidate = clone_path(accounts_root).join(store_id.as_str()).join("store");
        let stale = store_root_exists && !self.store_dir_is_managed(&candidate);
        if stale {
            let stale_key_entry = Some(store_key_entry_id(store_id.as_str()));
            let location = match replacement_account_store_id(store_id.as_str()) {
                Ok(fresh) => Ok(account_storage_location(accounts_root, fresh, homeserver_url)),
                Err(e) => Err(e),
            };
            AccountStoragePlan { stale_key_entry, location }
        } else {
            AccountStoragePlan {
                stale_key_entry: None,
                location: Ok(account_storage_location(accounts_root, store_id, homeserver_url)),
            }
        }
    }
}

} // verus!
