//! The persistent path store.
//!
//! Discovered image paths are recorded in an embedded sled database, used
//! purely as a durable set of strings: each path is upserted with itself
//! as key and value, so re-inserting a path never grows the store, and
//! `size` reports the number of distinct paths inserted over all runs
//! against the same on-disk location.

use vstd::prelude::*;

verus! {

/// The sled database type, opaque to the verifier; its contents are
/// spoken of only through `stored_paths`.
#[verifier::external_type_specification]
#[verifier::external_body]
pub struct ExDb(sled::Db);

/// The sled error type, opaque to the verifier; it is only carried out of
/// the trusted calls and mapped to `StoreError`.
#[verifier::external_type_specification]
#[verifier::external_body]
pub struct ExSledError(sled::Error);

/// The set of path strings held by the database: the keys of its default
/// tree, each a UTF-8 string.
pub uninterp spec fn stored_paths(db: sled::Db) -> Set<Seq<char>>;

/// What can go wrong with the store: it failed to open, or a write to it
/// failed. Both are fatal to a run; the caller reports and stops.
#[derive(Clone, Copy, PartialEq, Eq, Debug)]
pub enum StoreError {
    OpenFailed,
    WriteFailed,
}

/// A handle on the on-disk path store.
pub struct PathStore {
    pub db: sled::Db,
}

/// Relies on sled::open: opens or creates a database at `name`. What the
/// database holds comes from disk, so nothing is claimed of its key set
/// beyond finiteness.
#[verifier::external_body]
fn open_raw(name: &str) -> (r: Result<PathStore, sled::Error>)
    ensures
        r matches Ok(s) ==> stored_paths(s.db).finite(),
{
    match sled::open(name) {
        Ok(db) => Ok(PathStore { db }),
        Err(e) => Err(e),
    }
}

/// Relies on sled::Tree::insert (through Db's default tree): upserts the
/// key, so on success the key set afterwards is the old key set plus
/// `path`. Whatever the outcome, the call touches only its own key and
/// never removes one, so the old keys remain and at most `path` is added.
#[verifier::external_body]
fn insert_raw(store: &mut PathStore, path: &str) -> (r: Result<(), sled::Error>)
    ensures
        r is Ok ==> stored_paths(final(store).db) == stored_paths(old(store).db).insert(path@),
        stored_paths(old(store).db) <= stored_paths(final(store).db),
        stored_paths(final(store).db) <= stored_paths(old(store).db).insert(path@),
{
    match store.db.insert(path, path) {
        Ok(_) => Ok(()),
        Err(e) => Err(e),
    }
}

/// `n` is the cardinality of `keys`, which in particular is finite.
pub open spec fn counts(n: usize, keys: Set<Seq<char>>) -> bool {
    keys.finite() && n == keys.len()
}

/// Relies on sled::Tree::len: the number of keys in the default tree,
/// which is the cardinality of the (finite) key set. sled counts by a
/// full scan; the exact count is claimed of stores this tool itself
/// created and maintains — every key a UTF-8 path string written by
/// `insert`, on a disk that scans cleanly.
#[verifier::external_body]
fn len_raw(store: &PathStore) -> (r: usize)
    ensures
        counts(r, stored_paths(store.db)),
{
    store.db.len()
}

impl PathStore {
    /// Opens or creates the persistent store at the location `name`,
    /// relative to the process's working directory.
    pub fn open(name: &str) -> (r: Result<PathStore, StoreError>)
        ensures
            r matches Ok(s) ==> stored_paths(s.db).finite(),
            r matches Err(e) ==> e == StoreError::OpenFailed,
    {
        match open_raw(name) {
            Ok(s) => Ok(s),
            Err(_) => Err(StoreError::OpenFailed),
        }
    }

    /// Upserts `path` into the store: on success the stored set is the old
    /// set plus `path`, so inserting a path already present changes
    /// nothing. Even on failure the old keys remain stored and at most
    /// `path` was added: a failed write never discards what earlier
    /// writes persisted.
    pub fn insert(&mut self, path: &str) -> (r: Result<(), StoreError>)
        ensures
            r is Ok ==> stored_paths(final(self).db) == stored_paths(old(self).db).insert(path@),
            r matches Err(e) ==> e == StoreError::WriteFailed,
            stored_paths(old(self).db) <= stored_paths(final(self).db),
            stored_paths(final(self).db) <= stored_paths(old(self).db).insert(path@),
    {
        match insert_raw(self, path) {
            Ok(()) => Ok(()),
            Err(_) => Err(StoreError::WriteFailed),
        }
    }

    /// The number of distinct paths in the store, over all runs that used
    /// the same location.
    pub fn size(&self) -> (n: usize)
        ensures
            counts(n, stored_paths(self.db)),
    {
        len_raw(self)
    }
}

/// The fixed name of the store's on-disk location, relative to the
/// process's working directory.
pub fn default_store_name() -> (r: &'static str)
    ensures
        r@ == "hetherington_db"@,
{
    "hetherington_db"
}

/// Law: inserting a path a second time is a no-op — the stored set, and
/// with it `size()`, is the same after the second insert as after the
/// first.
pub proof fn lemma_insert_idempotent(keys: Set<Seq<char>>, p: Seq<char>)
    ensures
        keys.insert(p).insert(p) == keys.insert(p),
{
    assert(keys.insert(p).insert(p) =~= keys.insert(p));
}

} // verus!
