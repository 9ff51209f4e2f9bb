//! The partition registry: a lazily populated table mapping a partition
//! key (for example, a chat identifier) to the fingerprint index owning
//! that partition.
//!
//! Two partitions never share fingerprint state or storage, and an index
//! is constructed at most once per partition: a submission for an unseen
//! key constructs a fresh index (which fully rehydrates from the given
//! persistence port before anything else happens) and installs it, while a
//! failed construction installs nothing, so a half-built index is never
//! cached. Exclusive access is expressed by ownership: every submission
//! goes through `&mut self`, so resolve-and-create and the submission
//! itself can never interleave for one registry.

use vstd::prelude::*;

use crate::image::{Image, ImageVariant, Metadata};
use crate::imagedb::{entries_of, lemma_wf_entries, submit_outcome, ImageDb, ImageDbError};
use crate::storage::Storage;

verus! {

/// The table a sequence of (key, index) slots represents.
pub open spec fn slots_map<T: Metadata, D: Storage<T>>(
    s: Seq<(i64, ImageDb<T, D>)>,
) -> Map<i64, ImageDb<T, D>>
    decreases s.len(),
{
    if s.len() == 0 {
        Map::empty()
    } else {
        slots_map(s.drop_last()).insert(s.last().0, s.last().1)
    }
}

/// With pairwise distinct keys, the table maps exactly the slots' keys to
/// the slots' indexes.
pub proof fn lemma_slots_map_props<T: Metadata, D: Storage<T>>(s: Seq<(i64, ImageDb<T, D>)>)
    requires
        forall|i: int, j: int| 0 <= i < j < s.len() ==> (#[trigger] s[i]).0 != (#[trigger] s[j]).0,
    ensures
        forall|k: i64|
            #[trigger] slots_map(s).contains_key(k) ==> exists|i: int|
                0 <= i < s.len() && (#[trigger] s[i]).0 == k,
        forall|i: int|
            0 <= i < s.len() ==> slots_map(s).contains_key((#[trigger] s[i]).0) && slots_map(s)[
                s[i].0] == s[i].1,
    decreases s.len(),
{
    if s.len() > 0 {
        let dl = s.drop_last();
        lemma_slots_map_props(dl);
        assert forall|i: int| 0 <= i < s.len() implies slots_map(s).contains_key(
            (#[trigger] s[i]).0,
        ) && slots_map(s)[s[i].0] == s[i].1 by {
            if i < s.len() - 1 {
                assert(dl[i] == s[i]);
                assert(s[s.len() - 1].0 != s[i].0);
            } else {
                assert(s[i] == s.last());
            }
        }
        assert forall|k: i64| #[trigger] slots_map(s).contains_key(k) implies exists|i: int|
            0 <= i < s.len() && (#[trigger] s[i]).0 == k by {
            if k == s.last().0 {
                assert(s[s.len() - 1].0 == k);
            } else {
                assert(slots_map(dl).contains_key(k));
                let i = choose|i: int| 0 <= i < dl.len() && (#[trigger] dl[i]).0 == k;
                assert(s[i].0 == k);
            }
        }
    }
}

/// The partition registry.
pub struct Registry<T: Metadata, D: Storage<T>> {
    slots: Vec<(i64, ImageDb<T, D>)>,
}

impl<T: Metadata, D: Storage<T>> Registry<T, D> {
    /// The table: each known partition key and its fingerprint index.
    pub closed spec fn table(&self) -> Map<i64, ImageDb<T, D>> {
        slots_map(self.slots@)
    }

    /// Well-formedness: partition keys are pairwise distinct and every
    /// held index is well-formed.
    pub closed spec fn wf(&self) -> bool {
        &&& forall|i: int, j: int|
            0 <= i < j < self.slots@.len() ==> (#[trigger] self.slots@[i]).0 != (
            #[trigger] self.slots@[j]).0
        &&& forall|i: int| 0 <= i < self.slots@.len() ==> (#[trigger] self.slots@[i]).1.wf()
    }

    /// An empty registry, holding no partition.
    pub fn new() -> (r: Self)
        ensures
            r.wf(),
            r.table() == Map::<i64, ImageDb<T, D>>::empty(),
    {
        Registry { slots: Vec::new() }
    }

    /// The position of a partition's slot, if the partition is known.
    fn find_slot(&self, key: i64) -> (r: Option<usize>)
        requires
            self.wf(),
        ensures
            match r {
                Some(i) => i < self.slots@.len() && self.slots@[i as int].0 == key,
                None => forall|j: int|
                    0 <= j < self.slots@.len() ==> (#[trigger] self.slots@[j]).0 != key,
            },
    {
        let mut i: usize = 0;
        while i < self.slots.len()
            invariant
                i <= self.slots@.len(),
                forall|j: int| 0 <= j < i ==> (#[trigger] self.slots@[j]).0 != key,
            decreases self.slots@.len() - i,
        {
            if self.slots[i].0 == key {
                return Some(i);
            }
            i = i + 1;
        }
        None
    }

    /// How many entries a partition currently holds; `None` for a
    /// partition the registry has not seen.
    pub fn image_count(&self, key: i64) -> (r: Option<usize>)
        requires
            self.wf(),
        ensures
            match r {
                Some(n) => self.table().contains_key(key) && n == self.table()[key].entries().len(),
                None => !self.table().contains_key(key),
            },
    {
        proof {
            lemma_slots_map_props(self.slots@);
        }
        match self.find_slot(key) {
            Some(i) => Some(self.slots[i].1.image_count()),
            None => {
                proof {
                    if self.table().contains_key(key) {
                        let i = choose|i: int|
                            0 <= i < self.slots@.len() && (#[trigger] self.slots@[i]).0 == key;
                        assert(false);
                    }
                }
                None
            },
        }
    }

    /// Submits an image to the partition named by `key`, resolving or
    /// creating that partition's fingerprint index first. A known key
    /// submits to its existing index; an unseen key constructs a fresh
    /// index over the supplied persistence port (rehydrating it
    /// completely), installs it only if construction succeeds, and then
    /// submits. Partitions other than `key` are untouched.
    #[verifier::spinoff_prover]
    #[verifier::rlimit(100)]
    pub fn submit(&mut self, key: i64, storage_for_new: D, image: Image<T>) -> (r: Result<
        ImageVariant<T>,
        ImageDbError,
    >)
        requires
            old(self).wf(),
        ensures
            final (self).wf(),
            final (self).table().remove(key) == old(self).table().remove(key),
            old(self).table().contains_key(key) ==> final (self).table().contains_key(key)
                && submit_outcome(
                old(self).table()[key].entries(),
                old(self).table()[key].store(),
                final (self).table()[key].entries(),
                final (self).table()[key].store(),
                image@,
                r,
            ),
            !old(self).table().contains_key(key) ==> ((!final (self).table().contains_key(key)
                && final (self).table() == old(self).table() && (r matches Err(e) && (e is Storage
                || e == ImageDbError::Decode))) || (final (self).table().contains_key(key)
                && submit_outcome(
                entries_of(storage_for_new.contents()),
                storage_for_new.contents(),
                final (self).table()[key].entries(),
                final (self).table()[key].store(),
                image@,
                r,
            ))),
    {
        proof {
            lemma_slots_map_props(self.slots@);
        }
        match self.find_slot(key) {
            Some(i) => {
                let ghost pre = self.slots@;
                let mut slot = self.slots.remove(i);
                let r = slot.1.save_image_if_new(image);
                self.slots.push(slot);
                proof {
                    let post = self.slots@;
                    assert(post == pre.remove(i as int).push(slot));
                    assert(post.len() == pre.len());
                    assert forall|j: int| 0 <= j < post.len() - 1 implies #[trigger] post[j] == (
                    if j < i as int {
                        pre[j]
                    } else {
                        pre[j + 1]
                    }) by {
                        lemma_remove_push_index(pre, slot, i as int, j);
                    }
                    assert(post[post.len() - 1] == slot);
                    assert(slot.0 == key);
                    assert(pre[i as int].0 == key);
                    assert forall|j: int, l: int| 0 <= j < l < post.len() implies (
                    #[trigger] post[j]).0 != (#[trigger] post[l]).0 by {
                        if l == post.len() - 1 {
                            let j2: int = if j < i as int {
                                j
                            } else {
                                j + 1
                            };
                            assert(post[j] == pre[j2]);
                            assert(pre[j2].0 != pre[i as int].0);
                        }
                    }
                    assert forall|j: int| 0 <= j < post.len() implies (#[trigger] post[j]).1.wf()
                        by {}
                    lemma_slots_map_props(post);
                    assert(self.table().contains_key(key) && self.table()[key] == slot.1);
                    assert(old(self).table()[key] == pre[i as int].1);
                    assert forall|k: i64|
                        k != key implies (#[trigger] self.table().contains_key(k) == old(
                        self,
                    ).table().contains_key(k)) && (old(self).table().contains_key(k)
                        ==> self.table()[k] == old(self).table()[k]) by {
                        if old(self).table().contains_key(k) {
                            let j = choose|j: int|
                                0 <= j < pre.len() && (#[trigger] pre[j]).0 == k;
                            assert(pre[j].0 != pre[i as int].0);
                            let j2: int = if j < i as int {
                                j
                            } else {
                                j - 1
                            };
                            assert(0 <= j2 < post.len() - 1);
                            assert(post[j2] == pre[j]);
                            assert(slots_map(post).contains_key((post[j2]).0));
                            assert(self.table()[k] == post[j2].1);
                            assert(old(self).table()[k] == pre[j].1);
                        }
                        if self.table().contains_key(k) {
                            let j = choose|j: int|
                                0 <= j < post.len() && (#[trigger] post[j]).0 == k;
                            assert(j < post.len() - 1);
                            let j2: int = if j < i as int {
                                j
                            } else {
                                j + 1
                            };
                            assert(post[j] == pre[j2]);
                            assert(slots_map(pre).contains_key((pre[j2]).0));
                        }
                    }
                    assert(self.table().remove(key) =~= old(self).table().remove(key));
                }
                r
            },
            None => {
                let db = match ImageDb::new(storage_for_new) {
                    Err(e) => {
                        proof {
                            if self.table().contains_key(key) {
                                let j = choose|j: int|
                                    0 <= j < self.slots@.len() && (#[trigger] self.slots@[j]).0
                                        == key;
                                assert(false);
                            }
                        }
                        return Err(e);
                    },
                    Ok(db) => db,
                };
                let mut db = db;
                proof {
                    lemma_wf_entries(&db);
                }
                let r = db.save_image_if_new(image);
                let ghost pre = self.slots@;
                let ghost dbg = db;
                self.slots.push((key, db));
                proof {
                    if old(self).table().contains_key(key) {
                        let j = choose|j: int|
                            0 <= j < pre.len() && (#[trigger] pre[j]).0 == key;
                        assert(false);
                    }
                    let post = self.slots@;
                    assert forall|j: int, l: int| 0 <= j < l < post.len() implies (
                    #[trigger] post[j]).0 != (#[trigger] post[l]).0 by {
                        if l < post.len() - 1 {
                            assert(post[j] == pre[j]);
                            assert(post[l] == pre[l]);
                        } else {
                            assert(post[j] == pre[j]);
                        }
                    }
                    lemma_slots_map_props(post);
                    assert(post[post.len() - 1] == (key, dbg));
                    assert(self.table().contains_key(key) && self.table()[key] == dbg);
                    assert forall|k: i64|
                        k != key implies (#[trigger] self.table().contains_key(k) == old(
                        self,
                    ).table().contains_key(k)) && (old(self).table().contains_key(k)
                        ==> self.table()[k] == old(self).table()[k]) by {
                        if old(self).table().contains_key(k) {
                            let j = choose|j: int|
                                0 <= j < pre.len() && (#[trigger] pre[j]).0 == k;
                            assert(post[j] == pre[j]);
                            assert(slots_map(post).contains_key((post[j]).0));
                            assert(self.table()[k] == post[j].1);
                            assert(old(self).table()[k] == pre[j].1);
                        }
                        if self.table().contains_key(k) {
                            let j = choose|j: int|
                                0 <= j < post.len() && (#[trigger] post[j]).0 == k;
                            assert(j < post.len() - 1);
                            assert(post[j] == pre[j]);
                            assert(slots_map(pre).contains_key((pre[j]).0));
                        }
                    }
                    assert(self.table().remove(key) =~= old(self).table().remove(key));
                }
                r
            },
        }
    }
}

/// After removing position `i` and pushing one slot at the end, every
/// position but the last holds a slot of the original sequence.
proof fn lemma_remove_push_index<T: Metadata, D: Storage<T>>(
    pre: Seq<(i64, ImageDb<T, D>)>,
    e: (i64, ImageDb<T, D>),
    i: int,
    j: int,
)
    requires
        0 <= i < pre.len(),
        0 <= j < pre.len() - 1,
    ensures
        pre.remove(i).push(e)[j] == (if j < i {
            pre[j]
        } else {
            pre[j + 1]
        }),
{
}

} // verus!
