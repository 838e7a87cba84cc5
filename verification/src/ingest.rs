//! The ingestion engine.
//!
//! A run walks a directory tree in two phases, both driven by the caller,
//! who owns the I/O of listing a directory. First the scan: directories
//! come off a work-list, parent before children; `scan_dir` classifies a
//! listing, queues the subdirectories, and stacks the level's image paths.
//! Then persistence: `next_level` hands the stacked levels back in reverse
//! scan order — every directory after all of its children — and
//! `persist_paths` records a level in the store and reports the new
//! total. So the count report for a directory comes after those of all
//! its children, and the root's report, last of all, equals the final
//! size, as with the original depth-first persistence.

use vstd::prelude::*;

use crate::classify::is_image;
use crate::classify::is_image_name;
use crate::store::PathStore;
use crate::store::StoreError;
use crate::store::counts;
use crate::store::stored_paths;

verus! {

/// One immediate child of a directory, as a listing reports it: its file
/// name (the last path component, what classification looks at), its full
/// path, and whether it is itself a directory.
///
/// The two judgements are independent, as they are for the underlying
/// listing: an entry whose name carries an image extension is recorded
/// even if it is a directory, and is then also visited.
pub struct Entry {
    pub name: String,
    pub path: String,
    pub is_dir: bool,
}

/// The image paths among `es`, in listing order.
pub open spec fn image_paths(es: Seq<Entry>) -> Seq<Seq<char>>
    decreases es.len(),
{
    if es.len() == 0 {
        Seq::empty()
    } else if is_image_name(es.last().name@) {
        image_paths(es.drop_last()).push(es.last().path@)
    } else {
        image_paths(es.drop_last())
    }
}

/// The set of image paths among `es`.
pub open spec fn image_set(es: Seq<Entry>) -> Set<Seq<char>>
    decreases es.len(),
{
    if es.len() == 0 {
        Set::empty()
    } else if is_image_name(es.last().name@) {
        image_set(es.drop_last()).insert(es.last().path@)
    } else {
        image_set(es.drop_last())
    }
}

/// The paths of the subdirectories among `es`, in listing order.
pub open spec fn dir_paths(es: Seq<Entry>) -> Seq<Seq<char>>
    decreases es.len(),
{
    if es.len() == 0 {
        Seq::empty()
    } else if es.last().is_dir {
        dir_paths(es.drop_last()).push(es.last().path@)
    } else {
        dir_paths(es.drop_last())
    }
}

/// The views of a sequence of strings.
pub open spec fn views(ss: Seq<String>) -> Seq<Seq<char>> {
    ss.map_values(|s: String| s@)
}

/// The set of the paths in a level.
pub open spec fn path_set(paths: Seq<Seq<char>>) -> Set<Seq<char>>
    decreases paths.len(),
{
    if paths.len() == 0 {
        Set::empty()
    } else {
        path_set(paths.drop_last()).insert(paths.last())
    }
}

/// The store's key set after one directory level with entries `es` has
/// been ingested into a store holding `keys`.
pub open spec fn keys_after_dir(keys: Set<Seq<char>>, es: Seq<Entry>) -> Set<Seq<char>> {
    keys.union(image_set(es))
}

/// The store's key set after a whole run, taken as the sequence of the
/// directory listings it processed, in order.
pub open spec fn keys_after_run(keys: Set<Seq<char>>, run: Seq<Seq<Entry>>) -> Set<Seq<char>>
    decreases run.len(),
{
    if run.len() == 0 {
        keys
    } else {
        keys_after_dir(keys_after_run(keys, run.drop_last()), run.last())
    }
}

/// All distinct image paths of a run's listings.
pub open spec fn run_images(run: Seq<Seq<Entry>>) -> Set<Seq<char>>
    decreases run.len(),
{
    if run.len() == 0 {
        Set::empty()
    } else {
        run_images(run.drop_last()).union(image_set(run.last()))
    }
}

/// The ingestion engine: the store, opened once for the run; the
/// work-list of directories still to scan; and the scanned levels of
/// image paths, stacked until they are persisted.
pub struct Ingestor {
    pub store: PathStore,
    pub pending: Vec<String>,
    pub levels: Vec<Vec<String>>,
}

impl Ingestor {
    /// Opens the store at `store_name` and starts a run whose work-list
    /// holds just the root directory and whose level stack is empty.
    pub fn open(store_name: &str, root: String) -> (r: Result<Ingestor, StoreError>)
        ensures
            r matches Ok(ing) ==> views(ing.pending@) == seq![root@] && ing.levels@.len() == 0
                && stored_paths(ing.store.db).finite(),
            r matches Err(e) ==> e == StoreError::OpenFailed,
    {
        match PathStore::open(store_name) {
            Ok(store) => {
                let mut pending: Vec<String> = Vec::new();
                pending.push(root);
                proof {
                    assert(views(pending@) =~= seq![root@]);
                }
                Ok(Ingestor { store, pending, levels: Vec::new() })
            },
            Err(e) => Err(e),
        }
    }

    /// Takes the next directory off the work-list, if any is left to scan.
    pub fn next_dir(&mut self) -> (r: Option<String>)
        ensures
            final(self).store == old(self).store,
            final(self).levels == old(self).levels,
            old(self).pending@.len() == 0 ==> r is None && final(self).pending@
                == old(self).pending@,
            old(self).pending@.len() > 0 ==> r == Some(old(self).pending@.last())
                && final(self).pending@ == old(self).pending@.drop_last(),
    {
        self.pending.pop()
    }

    /// Scans one directory level: classifies the entries, queues every
    /// subdirectory on the work-list, and stacks this level's image
    /// paths, in listing order, for later persistence. The store is not
    /// touched, so scanning cannot fail.
    pub fn scan_dir(&mut self, entries: &Vec<Entry>)
        ensures
            final(self).store == old(self).store,
            views(final(self).pending@) == views(old(self).pending@) + dir_paths(entries@),
            final(self).levels@.len() == old(self).levels@.len() + 1,
            final(self).levels@.drop_last() == old(self).levels@,
            views(final(self).levels@.last()@) == image_paths(entries@),
    {
        let mut images: Vec<String> = Vec::new();
        let mut i: usize = 0;
        proof {
            assert(entries@.take(0) =~= Seq::<Entry>::empty());
            assert(views(images@) =~= image_paths(entries@.take(0)));
        }
        while i < entries.len()
            invariant
                i <= entries@.len(),
                views(images@) == image_paths(entries@.take(i as int)),
                self.store == old(self).store,
                self.pending == old(self).pending,
                self.levels == old(self).levels,
            decreases entries@.len() - i,
        {
            proof {
                assert(entries@.take(i + 1).drop_last() =~= entries@.take(i as int));
                assert(entries@.take(i + 1).last() == entries@[i as int]);
            }
            let e = &entries[i];
            if is_image(e.name.as_str()) {
                images.push(e.path.clone());
                proof {
                    assert(views(images@) =~= image_paths(entries@.take(i + 1)));
                }
            }
            i += 1;
        }
        proof {
            assert(entries@.take(entries@.len() as int) =~= entries@);
        }
        let ghost pending0 = self.pending@;
        let mut j: usize = 0;
        proof {
            assert(entries@.take(0) =~= Seq::<Entry>::empty());
            assert(views(self.pending@) =~= views(pending0) + dir_paths(entries@.take(0)));
        }
        while j < entries.len()
            invariant
                j <= entries@.len(),
                views(images@) == image_paths(entries@),
                views(self.pending@) == views(pending0) + dir_paths(entries@.take(j as int)),
                pending0 == old(self).pending@,
                self.store == old(self).store,
                self.levels == old(self).levels,
            decreases entries@.len() - j,
        {
            proof {
                assert(entries@.take(j + 1).drop_last() =~= entries@.take(j as int));
                assert(entries@.take(j + 1).last() == entries@[j as int]);
            }
            let e = &entries[j];
            if e.is_dir {
                let ghost pend_prev = self.pending@;
                self.pending.push(e.path.clone());
                proof {
                    assert(dir_paths(entries@.take(j + 1)) == dir_paths(entries@.take(j as int)).push(
                        entries@[j as int].path@,
                    ));
                    assert(views(self.pending@) =~= views(pend_prev).push(entries@[j as int].path@));
                    assert(views(pend_prev).push(entries@[j as int].path@) =~= views(pending0)
                        + dir_paths(entries@.take(j + 1)));
                }
            } else {
                proof {
                    assert(views(self.pending@) =~= views(pending0) + dir_paths(
                        entries@.take(j + 1),
                    ));
                }
            }
            j += 1;
        }
        proof {
            assert(entries@.take(entries@.len() as int) =~= entries@);
        }
        let ghost levels0 = self.levels@;
        self.levels.push(images);
        proof {
            assert(self.levels@.drop_last() =~= levels0);
        }
    }

    /// Takes the most recently scanned unpersisted level off the stack,
    /// if any is left. Since scanning queues parents before children,
    /// this hands levels back child-first: a directory's level comes out
    /// only after those of all its subdirectories.
    pub fn next_level(&mut self) -> (r: Option<Vec<String>>)
        ensures
            final(self).store == old(self).store,
            final(self).pending == old(self).pending,
            old(self).levels@.len() == 0 ==> r is None && final(self).levels@
                == old(self).levels@,
            old(self).levels@.len() > 0 ==> r == Some(old(self).levels@.last())
                && final(self).levels@ == old(self).levels@.drop_last(),
    {
        self.levels.pop()
    }

    /// Persists one level: records every path of `paths` in the store and
    /// reports the store's new total. A level with no paths cannot fail.
    /// On a failed write the run ends, but what was stored stays: the
    /// keys afterwards hold at least the old ones and at most also this
    /// level's paths — levels persisted earlier remain durable.
    pub fn persist_paths(&mut self, paths: &Vec<String>) -> (r: Result<usize, StoreError>)
        ensures
            r matches Ok(n) ==> stored_paths(final(self).store.db) == stored_paths(
                old(self).store.db,
            ).union(path_set(views(paths@))) && counts(n, stored_paths(final(self).store.db)),
            r matches Err(e) ==> e == StoreError::WriteFailed,
            stored_paths(old(self).store.db) <= stored_paths(final(self).store.db),
            stored_paths(final(self).store.db) <= stored_paths(old(self).store.db).union(
                path_set(views(paths@)),
            ),
            final(self).pending == old(self).pending,
            final(self).levels == old(self).levels,
            paths@.len() == 0 ==> r is Ok,
    {
        let ghost keys0 = stored_paths(self.store.db);
        let ghost all = views(paths@);
        let mut i: usize = 0;
        proof {
            assert(all.take(0) =~= Seq::<Seq<char>>::empty());
            assert(keys0.union(path_set(all.take(0))) =~= keys0);
        }
        while i < paths.len()
            invariant
                i <= paths@.len(),
                all == views(paths@),
                all.len() == paths@.len(),
                stored_paths(self.store.db) == keys0.union(path_set(all.take(i as int))),
                keys0 == stored_paths(old(self).store.db),
                self.pending == old(self).pending,
                self.levels == old(self).levels,
            decreases paths@.len() - i,
        {
            proof {
                assert(all.take(i + 1).drop_last() =~= all.take(i as int));
                assert(all.take(i + 1).last() == all[i as int]);
                assert(all[i as int] == paths@[i as int]@);
            }
            match self.store.insert(paths[i].as_str()) {
                Ok(()) => {
                    proof {
                        assert(stored_paths(self.store.db) =~= keys0.union(
                            path_set(all.take(i + 1)),
                        ));
                    }
                },
                Err(err) => {
                    proof {
                        lemma_path_set_take_subset(all, i + 1);
                        assert(keys0.union(path_set(all.take(i as int))).insert(all[i as int])
                            =~= keys0.union(path_set(all.take(i + 1))));
                        assert(stored_paths(self.store.db) <= keys0.union(path_set(all)));
                        assert(keys0 <= stored_paths(self.store.db));
                    }
                    return Err(err);
                },
            }
            i += 1;
        }
        proof {
            assert(all.take(all.len() as int) =~= all);
        }
        let count = self.store.size();
        Ok(count)
    }
}

/// The paths of a level's prefix are among the whole level's paths.
proof fn lemma_path_set_take_subset(paths: Seq<Seq<char>>, k: int)
    requires
        0 <= k <= paths.len(),
    ensures
        path_set(paths.take(k)) <= path_set(paths),
    decreases paths.len() - k,
{
    if k == paths.len() {
        assert(paths.take(k) =~= paths);
    } else {
        lemma_path_set_take_subset(paths, k + 1);
        assert(paths.take(k + 1).drop_last() =~= paths.take(k));
        assert(path_set(paths.take(k + 1)) == path_set(paths.take(k)).insert(
            paths.take(k + 1).last(),
        ));
        assert(path_set(paths.take(k)) <= path_set(paths.take(k + 1)));
    }
}

/// Scanning and persisting compose to one directory level's ingestion:
/// the set of a listing's scanned image paths is its image set, so
/// persisting a scanned level turns keys into `keys_after_dir`.
pub proof fn lemma_scanned_level_set(es: Seq<Entry>)
    ensures
        path_set(image_paths(es)) == image_set(es),
    decreases es.len(),
{
    if es.len() == 0 {
        assert(path_set(image_paths(es)) =~= image_set(es));
    } else {
        lemma_scanned_level_set(es.drop_last());
        if is_image_name(es.last().name@) {
            let ip = image_paths(es.drop_last());
            assert(image_paths(es) == ip.push(es.last().path@));
            assert(ip.push(es.last().path@).drop_last() =~= ip);
            assert(path_set(image_paths(es)) == path_set(ip).insert(es.last().path@));
        }
    }
}

/// The keys after a run are the keys before plus all of the run's image
/// paths, whatever order the directories were visited in.
pub proof fn lemma_run_adds_images(keys: Set<Seq<char>>, run: Seq<Seq<Entry>>)
    ensures
        keys_after_run(keys, run) == keys.union(run_images(run)),
    decreases run.len(),
{
    if run.len() == 0 {
        assert(keys.union(run_images(run)) =~= keys);
    } else {
        lemma_run_adds_images(keys, run.drop_last());
        assert(keys.union(run_images(run.drop_last())).union(image_set(run.last())) =~= keys.union(
            run_images(run.drop_last()).union(image_set(run.last())),
        ));
    }
}

/// Law: running ingestion a second time over the same listings leaves the
/// store's key set — and so its size — unchanged: every path already
/// stands as a key.
pub proof fn lemma_reingest_unchanged(keys: Set<Seq<char>>, run: Seq<Seq<Entry>>)
    ensures
        keys_after_run(keys_after_run(keys, run), run) == keys_after_run(keys, run),
{
    lemma_run_adds_images(keys, run);
    lemma_run_adds_images(keys_after_run(keys, run), run);
    assert(keys.union(run_images(run)).union(run_images(run)) =~= keys.union(run_images(run)));
}

/// Law: a run against a store with no prior entries stores exactly the
/// distinct image paths of its listings, so the final size is their
/// number.
pub proof fn lemma_fresh_run_exact(run: Seq<Seq<Entry>>)
    ensures
        keys_after_run(Set::empty(), run) == run_images(run),
{
    lemma_run_adds_images(Set::empty(), run);
    assert(Set::empty().union(run_images(run)) =~= run_images(run));
}

/// Law: a directory with no entries adds nothing to the store.
pub proof fn lemma_empty_dir_unchanged(keys: Set<Seq<char>>, es: Seq<Entry>)
    requires
        es.len() == 0,
    ensures
        keys_after_dir(keys, es) == keys,
{
    assert(keys.union(image_set(es)) =~= keys);
}

} // verus!
