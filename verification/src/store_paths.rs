//! Where an account keeps its own files: beside its Matrix store directory,
//! under the directory that holds that store.
use vstd::prelude::*;

use crate::text::{concat2, strings_view};
use crate::timeline::clone_opt_string;

verus! {

broadcast use vstd::seq_lib::group_seq_properties;

pub const ACCOUNT_SETTINGS_DIR_NAME: &'static str = "settings";

pub const ENCRYPTION_SETTINGS_FILE_NAME: &'static str = "encryption-settings.json";

pub const SESSION_SETTINGS_FILE_NAME: &'static str = "session-settings.json";

pub const SEARCH_DATABASE_DIR_NAME: &'static str = "hyperion-search";

pub const SEARCH_DATABASE_FILE_NAME: &'static str = "search.sqlite3";

pub const HYPERION_CACHE_DIR_NAME: &'static str = "hyperion-cache";

pub const TIMELINE_VIEW_STATE_DATABASE_NAME: &'static str = "timeline-view.sqlite3";

/// A file system path: its root (a drive prefix, a root directory or both,
/// as one text), if it has one, and the names below it.
#[derive(Debug)]
pub struct StorePath {
    pub root: Option<String>,
    pub components: Vec<String>,
}

/// The names of a path, below its root.
pub open spec fn names(p: StorePath) -> Seq<Seq<char>> {
    strings_view(p.components@)
}

fn clone_names(names: &Vec<String>) -> (r: Vec<String>)
    ensures
        r@ == names@,
{
    let mut out: Vec<String> = Vec::new();
    let mut i: usize = 0;
    while i < names.len()
        invariant
            i <= names@.len(),
            out@ == names@.take(i as int),
        decreases names.len() - i,
    {
        out.push(names[i].clone());
        i = i + 1;
    }
    assert(names@.take(names@.len() as int) == names@);
    out
}

impl StorePath {
    /// The path one level up; none for a bare root or an empty path.
    pub fn parent(&self) -> (r: Option<StorePath>)
        ensures
            match r {
                Some(q) => self.components@.len() > 0 && q.root == self.root && names(q) == names(
                    *self,
                ).drop_last(),
                None => self.components@.len() == 0,
            },
    {
        if self.components.len() == 0 {
            return None;
        }
        let mut components = clone_names(&self.components);
        components.pop();
        Some(StorePath { root: clone_opt_string(&self.root), components })
    }

    /// The path with one more name below it.
    pub fn join(self, name: &str) -> (r: StorePath)
        ensures
            r.root == self.root,
            names(r) == names(self).push(name@),
    {
        let mut components = self.components;
        components.push(name.to_owned());
        StorePath { root: self.root, components }
    }

    /// The path whose last name has `suffix` appended.
    pub fn with_suffix(&self, suffix: &str) -> (r: StorePath)
        requires
            self.components@.len() > 0,
        ensures
            r.root == self.root,
            names(r) == names(*self).drop_last().push(names(*self).last() + suffix@),
    {
        let mut components = clone_names(&self.components);
        let last = components.pop().unwrap();
        components.push(concat2(last.as_str(), suffix));
        StorePath { root: clone_opt_string(&self.root), components }
    }
}

/// The path to a file in a directory beside the store.
pub open spec fn beside_store(store_dir: StorePath, dir: Seq<char>, file: Seq<char>) -> Seq<Seq<char>> {
    names(store_dir).drop_last().push(dir).push(file)
}

/// The directory of an account's settings files, beside its store.
pub fn account_settings_dir(store_dir: &StorePath) -> (r: Result<StorePath, String>)
    ensures
        match r {
            Ok(d) => store_dir.components@.len() > 0 && d.root == store_dir.root && names(d) == names(
                *store_dir,
            ).drop_last().push(ACCOUNT_SETTINGS_DIR_NAME@),
            Err(e) => store_dir.components@.len() == 0 && e@ == "Account store directory has no parent"@,
        },
{
    match store_dir.parent() {
        Some(root) => Ok(root.join(ACCOUNT_SETTINGS_DIR_NAME)),
        None => Err("Account store directory has no parent".to_owned()),
    }
}

/// The file that holds an account's encryption settings.
pub fn encryption_settings_path(store_dir: &StorePath) -> (r: Result<StorePath, String>)
    ensures
        match r {
            Ok(p) => store_dir.components@.len() > 0 && p.root == store_dir.root && names(p) == beside_store(
                *store_dir,
                ACCOUNT_SETTINGS_DIR_NAME@,
                ENCRYPTION_SETTINGS_FILE_NAME@,
            ),
            Err(e) => store_dir.components@.len() == 0 && e@ == "Account store directory has no parent"@,
        },
{
    match account_settings_dir(store_dir) {
        Ok(d) => Ok(d.join(ENCRYPTION_SETTINGS_FILE_NAME)),
        Err(e) => Err(e),
    }
}

/// The file that holds an account's session settings.
pub fn session_settings_path(store_dir: &StorePath) -> (r: Result<StorePath, String>)
    ensures
        match r {
            Ok(p) => store_dir.components@.len() > 0 && p.root == store_dir.root && names(p) == beside_store(
                *store_dir,
                ACCOUNT_SETTINGS_DIR_NAME@,
                SESSION_SETTINGS_FILE_NAME@,
            ),
            Err(e) => store_dir.components@.len() == 0 && e@ == "Account store directory has no parent"@,
        },
{
    match account_settings_dir(store_dir) {
        Ok(d) => Ok(d.join(SESSION_SETTINGS_FILE_NAME)),
        Err(e) => Err(e),
    }
}

/// Where an account's local search index lives.
#[derive(Debug)]
pub struct SearchPaths {
    pub database_path: StorePath,
}

/// The search database of an account, beside its store.
pub fn search_paths_for_store(store_dir: &StorePath) -> (r: Result<SearchPaths, String>)
    ensures
        match r {
            Ok(paths) => store_dir.components@.len() > 0 && paths.database_path.root == store_dir.root
                && names(paths.database_path) == beside_store(
                *store_dir,
                SEARCH_DATABASE_DIR_NAME@,
                SEARCH_DATABASE_FILE_NAME@,
            ),
            Err(e) => store_dir.components@.len() == 0 && e@ == "account store path has no parent directory"@,
        },
{
    match store_dir.parent() {
        Some(root) => Ok(
            SearchPaths {
                database_path: root.join(SEARCH_DATABASE_DIR_NAME).join(SEARCH_DATABASE_FILE_NAME),
            },
        ),
        None => Err("account store path has no parent directory".to_owned()),
    }
}

/// The database of the timeline view state, beside the store.
pub fn timeline_view_state_database_path(store_dir: &StorePath) -> (r: Result<StorePath, String>)
    ensures
        match r {
            Ok(p) => store_dir.components@.len() > 0 && p.root == store_dir.root && names(p) == beside_store(
                *store_dir,
                HYPERION_CACHE_DIR_NAME@,
                TIMELINE_VIEW_STATE_DATABASE_NAME@,
            ),
            Err(e) => store_dir.components@.len() == 0 && e@ == "Account store directory has no parent"@,
        },
{
    match store_dir.parent() {
        Some(root) => Ok(root.join(HYPERION_CACHE_DIR_NAME).join(TIMELINE_VIEW_STATE_DATABASE_NAME)),
        None => Err("Account store directory has no parent".to_owned()),
    }
}

/// The files of the retired timeline view cache: its database and that
/// database's `-wal` and `-shm` journals; none when the store has no
/// parent.
pub fn legacy_timeline_view_cache_paths(store_dir: &StorePath) -> (r: Vec<StorePath>)
    ensures
        store_dir.components@.len() == 0 ==> r@.len() == 0,
        store_dir.components@.len() > 0 ==> {
            let db = beside_store(*store_dir, HYPERION_CACHE_DIR_NAME@, TIMELINE_VIEW_STATE_DATABASE_NAME@);
            let stem = db.drop_last();
            &&& r@.len() == 3
            &&& forall|i: int| 0 <= i < 3 ==> (#[trigger] r@[i]).root == store_dir.root
            &&& names(r@[0]) == db
            &&& names(r@[1]) == stem.push(TIMELINE_VIEW_STATE_DATABASE_NAME@ + "-wal"@)
            &&& names(r@[2]) == stem.push(TIMELINE_VIEW_STATE_DATABASE_NAME@ + "-shm"@)
        },
{
    let mut out: Vec<StorePath> = Vec::new();
    match timeline_view_state_database_path(store_dir) {
        Ok(database_path) => {
            assert(names(database_path).len() == database_path.components@.len());
            let wal = database_path.with_suffix("-wal");
            let shm = database_path.with_suffix("-shm");
            out.push(database_path);
            out.push(wal);
            out.push(shm);
        },
        Err(_) => {},
    }
    out
}

} // verus!
