//! The fingerprint index: the core near-duplicate classifier for one
//! partition.
//!
//! The index owns an ordered collection of (fingerprint, metadata) entries
//! and a handle to its persistence port. On construction it rehydrates the
//! collection by loading every stored image and recomputing fingerprints; a
//! submission scans all entries in insertion order, tracks the first entry
//! achieving the minimum distance (a later entry with an equal distance does
//! not replace it, so the earliest-inserted nearest neighbor wins ties), and
//! classifies the image as a near-duplicate if that minimum distance is
//! below [`DUPLICATE_THRESHOLD`], persisting and appending it otherwise.
//!
//! Exclusive access is expressed by ownership: every submission goes through
//! `&mut self`, so two submissions to one partition can never interleave.

use vstd::prelude::*;

use crate::fingerprint::{
    compute_fingerprint, decodable, distance, distance_of, fingerprint_of, Fingerprint,
    DUPLICATE_THRESHOLD,
};
use crate::image::{Image, ImageVariant, Metadata};
use crate::storage::{Storage, StorageError};

verus! {

/// A failure of a submission or of index construction.
#[derive(Debug, Clone, Copy, PartialEq, Eq, Structural)]
pub enum ImageDbError {
    /// The image payload cannot be decoded; the submission is rejected and
    /// the index is unchanged.
    Decode,
    /// The persistence port failed; the image was not persisted and was not
    /// appended to the index.
    Storage(StorageError),
}

/// The index entry a stored image gives rise to: its fingerprint and its
/// metadata.
pub open spec fn entry_of<T: Metadata>(img: (Seq<u8>, T)) -> (Seq<int>, T) {
    (fingerprint_of(img.0), img.1)
}

/// The index entries a store's contents give rise to, in load order.
pub open spec fn entries_of<T: Metadata>(contents: Seq<(Seq<u8>, T)>) -> Seq<(Seq<int>, T)> {
    contents.map_values(|img: (Seq<u8>, T)| entry_of(img))
}

/// The tracked nearest neighbor among the first `n` entries: the first index
/// achieving the minimum distance to `q`. A later entry replaces the tracked
/// one only on a strictly smaller distance.
pub open spec fn best_upto<T: Metadata>(
    entries: Seq<(Seq<int>, T)>,
    q: Seq<int>,
    n: int,
) -> Option<int>
    decreases n,
{
    if n <= 0 {
        None
    } else {
        match best_upto(entries, q, n - 1) {
            None => Some(n - 1),
            Some(k) => if distance_of(entries[n - 1].0, q) < distance_of(entries[k].0, q) {
                Some(n - 1)
            } else {
                Some(k)
            },
        }
    }
}

/// The tracked nearest neighbor of `q` over all entries; `None` only for an
/// empty partition, whose minimum distance is treated as infinite.
pub open spec fn best_match<T: Metadata>(entries: Seq<(Seq<int>, T)>, q: Seq<int>) -> Option<
    int,
> {
    best_upto(entries, q, entries.len() as int)
}

/// The index of the tracked nearest neighbor (meaningful only when the
/// partition is not empty).
pub open spec fn best_index<T: Metadata>(entries: Seq<(Seq<int>, T)>, q: Seq<int>) -> int {
    match best_match(entries, q) {
        Some(k) => k,
        None => -1,
    }
}

/// Whether a query fingerprint hits a near-duplicate: some entry exists and
/// the minimum distance is strictly below the duplicate threshold.
pub open spec fn finds_duplicate<T: Metadata>(entries: Seq<(Seq<int>, T)>, q: Seq<int>) -> bool {
    match best_match(entries, q) {
        Some(k) => distance_of(entries[k].0, q) < DUPLICATE_THRESHOLD,
        None => false,
    }
}

/// The full outcome contract of one submission, relating the index state
/// before and after to the result: a decode failure changes nothing and
/// comes exactly on an undecodable payload; a near-duplicate hit changes
/// nothing and returns the nearest entry's metadata; otherwise either the
/// image is persisted and appended and the submission reports a first
/// sighting, or the persistence port's error surfaces with nothing
/// appended.
pub open spec fn submit_outcome<T: Metadata>(
    pre_entries: Seq<(Seq<int>, T)>,
    pre_store: Seq<(Seq<u8>, T)>,
    post_entries: Seq<(Seq<int>, T)>,
    post_store: Seq<(Seq<u8>, T)>,
    image: (Seq<u8>, T),
    r: Result<ImageVariant<T>, ImageDbError>,
) -> bool {
    &&& !decodable(image.0) ==> r == Err::<ImageVariant<T>, ImageDbError>(ImageDbError::Decode)
        && post_entries == pre_entries && post_store == pre_store
    &&& r == Err::<ImageVariant<T>, ImageDbError>(ImageDbError::Decode) ==> !decodable(image.0)
    &&& decodable(image.0) && finds_duplicate(pre_entries, fingerprint_of(image.0))
        ==> post_entries == pre_entries && post_store == pre_store && r == Ok::<
        ImageVariant<T>,
        ImageDbError,
    >(ImageVariant::AlreadyExists(pre_entries[best_index(pre_entries, fingerprint_of(image.0))].1))
    &&& decodable(image.0) && !finds_duplicate(pre_entries, fingerprint_of(image.0)) ==> match r {
        Ok(v) => v == ImageVariant::<T>::New && post_store == pre_store.push(image)
            && post_entries == pre_entries.push((fingerprint_of(image.0), image.1)),
        Err(e) => e is Storage && post_entries == pre_entries && post_store == pre_store,
    }
}

/// The fingerprint index for one partition.
pub struct ImageDb<T: Metadata, D: Storage<T>> {
    database: D,
    images: Vec<(Fingerprint, T)>,
}

impl<T: Metadata, D: Storage<T>> ImageDb<T, D> {
    /// The model of the index: the fingerprint and metadata of every
    /// accepted entry, in insertion order.
    pub closed spec fn entries(&self) -> Seq<(Seq<int>, T)> {
        self.images@.map_values(|e: (Fingerprint, T)| (e.0@, e.1))
    }

    /// The model of the owned persistence port.
    pub closed spec fn store(&self) -> Seq<(Seq<u8>, T)> {
        self.database.contents()
    }

    /// Well-formedness: the entries are exactly the fingerprints of the
    /// store's contents in load order (so the in-memory state is never
    /// separated from the durable state), every stored payload is decodable,
    /// and every held fingerprint is within lane bounds.
    pub closed spec fn wf(&self) -> bool {
        &&& self.entries() == entries_of(self.store())
        &&& forall|i: int|
            0 <= i < self.images@.len() ==> (#[trigger] self.images@[i]).0.wf()
        &&& forall|i: int| 0 <= i < self.store().len() ==> decodable((#[trigger] self.store()[i]).0)
    }

    /// Rehydrates a fingerprint index from everything its persistence port
    /// holds. Fails with a storage error if loading fails, and with a decode
    /// error if a stored payload cannot be decoded; a failed construction
    /// yields no index, so a partially rehydrated index cannot exist.
    pub fn new(database: D) -> (r: Result<Self, ImageDbError>)
        ensures
            r matches Ok(db) ==> db.wf() && db.store() == database.contents(),
            r == Err::<Self, ImageDbError>(ImageDbError::Decode) ==> exists|i: int|
                0 <= i < database.contents().len() && !decodable(
                    #[trigger] database.contents()[i].0,
                ),
            r matches Err(e) ==> e is Storage || e == ImageDbError::Decode,
    {
        let loaded = match database.load_images() {
            Err(e) => {
                return Err(ImageDbError::Storage(e));
            },
            Ok(v) => v,
        };
        let images = match build_index(&loaded) {
            Err(e) => {
                proof {
                    let f = |img: Image<T>| img@;
                    assert(!(forall|i: int|
                        0 <= i < loaded@.len() ==> decodable((#[trigger] loaded@[i])@.0)));
                    let j = choose|j: int|
                        !(0 <= j < loaded@.len() ==> decodable((#[trigger] loaded@[j])@.0));
                    assert(loaded@.map_values(f)[j] == loaded@[j]@);
                    assert(!decodable(database.contents()[j].0));
                }
                return Err(e);
            },
            Ok(v) => v,
        };
        let r = ImageDb { database, images };
        proof {
            let f = |img: Image<T>| img@;
            assert forall|i: int| 0 <= i < r.store().len() implies r.entries()[i] == entries_of(
                r.store(),
            )[i] && decodable((#[trigger] r.store()[i]).0) by {
                assert(loaded@.map_values(f)[i] == loaded@[i]@);
                assert(r.entries()[i] == (r.images@[i].0@, r.images@[i].1));
            }
            assert(r.entries() =~= entries_of(r.store()));
        }
        Ok(r)
    }

    /// How many entries the partition currently holds.
    pub fn image_count(&self) -> (r: usize)
        ensures
            r == self.entries().len(),
    {
        self.images.len()
    }

    /// Submits an image: decodes it, computes its fingerprint, scans all
    /// entries in insertion order for the nearest neighbor, and either
    /// returns the metadata of a near-duplicate (the candidate is discarded)
    /// or persists the candidate, appends it, and reports a first sighting.
    ///
    /// The contract pins every outcome:
    /// - an undecodable payload is rejected with a decode error, exactly
    ///   when the payload is undecodable, and nothing changes;
    /// - if the nearest entry is strictly within the threshold, the result
    ///   is `AlreadyExists` with that entry's metadata and nothing changes;
    /// - otherwise the image is handed to the persistence port: on success
    ///   the store and the entries are extended by exactly this image and
    ///   the result is `New`; if the port fails, the error surfaces and
    ///   nothing is appended (no entry without a backing store write, and no
    ///   `New` over a failed write).
    pub fn save_image_if_new(&mut self, image: Image<T>) -> (r: Result<
        ImageVariant<T>,
        ImageDbError,
    >)
        requires
            old(self).wf(),
        ensures
            final (self).wf(),
            submit_outcome(
                old(self).entries(),
                old(self).store(),
                final (self).entries(),
                final (self).store(),
                image@,
                r,
            ),
    {
        let fp = match compute_fingerprint(&image.bytes) {
            None => {
                return Err(ImageDbError::Decode);
            },
            Some(fp) => fp,
        };
        let ghost q = fingerprint_of(image.bytes@);
        let mut best: Option<usize> = None;
        let mut best_d: u128 = 0;
        let mut i: usize = 0;
        while i < self.images.len()
            invariant
                old(self).wf(),
                *self == *old(self),
                i <= self.images.len(),
                fp.wf(),
                fp@ == q,
                best is None <==> i == 0,
                best matches Some(k) ==> k < i && best_upto(self.entries(), q, i as int) == Some(
                    k as int,
                ) && best_d == distance_of(self.entries()[k as int].0, q),
            decreases self.images.len() - i,
        {
            let d = distance(&self.images[i].0, &fp);
            proof {
                assert(self.entries()[i as int] == (self.images@[i as int].0@, self.images@[
                i as int].1));
            }
            match best {
                None => {
                    best = Some(i);
                    best_d = d;
                },
                Some(_) => {
                    if d < best_d {
                        best = Some(i);
                        best_d = d;
                    }
                },
            }
            i = i + 1;
        }
        match best {
            Some(k) => {
                if best_d < DUPLICATE_THRESHOLD {
                    let m = self.images[k].1.dup();
                    proof {
                        assert(self.entries()[k as int] == (self.images@[k as int].0@, self.images@[
                        k as int].1));
                    }
                    return Ok(ImageVariant::AlreadyExists(m));
                }
            },
            None => {},
        }
        match self.database.save_image(&image) {
            Err(e) => Err(ImageDbError::Storage(e)),
            Ok(_) => {
                self.images.push((fp, image.metadata));
                proof {
                    let os = old(self).store();
                    let oe = old(self).entries();
                    assert forall|j: int| 0 <= j < self.entries().len() implies self.entries()[j]
                        == entries_of(self.store())[j] && self.entries()[j] == oe.push(
                        (q, image.metadata),
                    )[j] by {
                        assert(self.entries()[j] == (self.images@[j].0@, self.images@[j].1));
                        assert(entries_of(self.store())[j] == entry_of(self.store()[j]));
                        if j < oe.len() {
                            assert(oe[j] == (old(self).images@[j].0@, old(self).images@[j].1));
                            assert(entries_of(os)[j] == entry_of(os[j]));
                        }
                    }
                    assert(self.entries() =~= entries_of(self.store()));
                    assert(self.entries() =~= oe.push((q, image.metadata)));
                    assert forall|j: int| 0 <= j < self.images@.len() implies (
                    #[trigger] self.images@[j]).0.wf() by {
                        if j < old(self).images@.len() {
                            assert(old(self).images@[j].0.wf());
                        }
                    }
                    assert forall|j: int| 0 <= j < self.store().len() implies decodable(
                        (#[trigger] self.store()[j]).0,
                    ) by {
                        if j < os.len() {
                            assert(decodable(os[j].0));
                        }
                    }
                }
                Ok(ImageVariant::New)
            },
        }
    }
}

/// Computes the fingerprint of every loaded image, pairing it with the
/// image's metadata in load order: the index state rehydration produces.
/// Succeeds exactly when every payload is decodable; otherwise the first
/// undecodable payload aborts rehydration with a decode error.
pub fn build_index<T: Metadata>(images: &Vec<Image<T>>) -> (r: Result<
    Vec<(Fingerprint, T)>,
    ImageDbError,
>)
    ensures
        r is Ok <==> (forall|i: int|
            0 <= i < images@.len() ==> decodable((#[trigger] images@[i])@.0)),
        r matches Err(e) ==> e == ImageDbError::Decode,
        r matches Ok(v) ==> v@.len() == images@.len() && forall|i: int|
            0 <= i < images@.len() ==> (#[trigger] v@[i]).0@ == fingerprint_of(images@[i].bytes@)
                && v@[i].1 == images@[i].metadata && v@[i].0.wf(),
{
    let mut out: Vec<(Fingerprint, T)> = Vec::new();
    let mut i: usize = 0;
    while i < images.len()
        invariant
            i <= images@.len(),
            out@.len() == i,
            forall|j: int| 0 <= j < i ==> decodable((#[trigger] images@[j])@.0),
            forall|j: int|
                0 <= j < i ==> (#[trigger] out@[j]).0@ == fingerprint_of(images@[j].bytes@)
                    && out@[j].1 == images@[j].metadata && out@[j].0.wf(),
        decreases images@.len() - i,
    {
        let fp = match compute_fingerprint(&images[i].bytes) {
            None => {
                return Err(ImageDbError::Decode);
            },
            Some(fp) => fp,
        };
        out.push((fp, images[i].metadata.dup()));
        i = i + 1;
    }
    Ok(out)
}

proof fn lemma_best_upto_is_first_minimum<T: Metadata>(
    entries: Seq<(Seq<int>, T)>,
    q: Seq<int>,
    n: int,
)
    requires
        0 <= n <= entries.len(),
    ensures
        (n == 0) <==> best_upto(entries, q, n) is None,
        best_upto(entries, q, n) matches Some(k) ==> 0 <= k < n && (forall|i: int|
            0 <= i < n ==> distance_of((#[trigger] entries[i]).0, q) >= distance_of(
                entries[k].0,
                q,
            )) && (forall|i: int|
            0 <= i < k ==> distance_of((#[trigger] entries[i]).0, q) > distance_of(
                entries[k].0,
                q,
            )),
    decreases n,
{
    if n > 0 {
        lemma_best_upto_is_first_minimum(entries, q, n - 1);
    }
}

/// Tie-break determinism, general form: the tracked nearest neighbor is the
/// earliest entry achieving the minimum distance to the query — a later
/// entry with an equal distance never displaces an earlier one, and a match
/// exists whenever the partition is not empty.
pub proof fn lemma_best_match_is_first_minimum<T: Metadata>(
    entries: Seq<(Seq<int>, T)>,
    q: Seq<int>,
)
    ensures
        (entries.len() == 0) <==> best_match(entries, q) is None,
        best_match(entries, q) matches Some(k) ==> 0 <= k < entries.len() && (forall|i: int|
            0 <= i < entries.len() ==> distance_of((#[trigger] entries[i]).0, q) >= distance_of(
                entries[k].0,
                q,
            )) && (forall|i: int|
            0 <= i < k ==> distance_of((#[trigger] entries[i]).0, q) > distance_of(
                entries[k].0,
                q,
            )),
{
    lemma_best_upto_is_first_minimum(entries, q, entries.len() as int);
}

/// Tie-break determinism on a concrete tie: when two entries both achieve
/// the minimum distance to a query and are within the duplicate threshold,
/// the classification returns the earlier-inserted of the two.
pub proof fn lemma_tie_break_earliest_wins<T: Metadata>(
    entries: Seq<(Seq<int>, T)>,
    q: Seq<int>,
    i: int,
    j: int,
)
    requires
        0 <= i < j < entries.len(),
        distance_of(entries[i].0, q) == distance_of(entries[j].0, q),
        forall|k: int|
            0 <= k < entries.len() ==> distance_of((#[trigger] entries[k]).0, q) >= distance_of(
                entries[i].0,
                q,
            ),
        forall|k: int|
            0 <= k < i ==> distance_of((#[trigger] entries[k]).0, q) > distance_of(
                entries[i].0,
                q,
            ),
        distance_of(entries[i].0, q) < DUPLICATE_THRESHOLD,
    ensures
        finds_duplicate(entries, q),
        best_index(entries, q) == i,
{
    lemma_best_match_is_first_minimum(entries, q);
    let k = best_index(entries, q);
    assert(best_match(entries, q) == Some(k));
    if k < i {
        assert(distance_of(entries[k].0, q) > distance_of(entries[i].0, q));
        assert(distance_of(entries[k].0, q) >= distance_of(entries[i].0, q));
        assert(false);
    }
    if k > i {
        assert(distance_of(entries[i].0, q) > distance_of(entries[k].0, q));
        assert(distance_of(entries[k].0, q) >= distance_of(entries[i].0, q));
        assert(false);
    }
}

/// A submission that finds no duplicate is at least the duplicate
/// threshold away from every entry present at insertion time: so (per the
/// `save_image_if_new` contract) the index never accepts two entries as
/// first sightings that were mutually within the threshold when the later
/// one arrived.
pub proof fn lemma_new_entry_is_distant<T: Metadata>(entries: Seq<(Seq<int>, T)>, q: Seq<int>)
    requires
        !finds_duplicate(entries, q),
    ensures
        forall|i: int|
            0 <= i < entries.len() ==> distance_of((#[trigger] entries[i]).0, q)
                >= DUPLICATE_THRESHOLD,
{
    lemma_best_match_is_first_minimum(entries, q);
    assert forall|i: int| 0 <= i < entries.len() implies distance_of((#[trigger] entries[i]).0, q)
        >= DUPLICATE_THRESHOLD by {
        match best_match(entries, q) {
            None => {
                assert(false);
            },
            Some(k) => {
                assert(distance_of(entries[i].0, q) >= distance_of(entries[k].0, q));
            },
        }
    }
}

/// An empty partition never finds a duplicate: the minimum distance over no
/// entries is treated as infinite, so (per the `save_image_if_new`
/// contract) the first image submitted to a fresh partition is classified
/// `New` whenever its persistence succeeds.
pub proof fn lemma_empty_partition_classifies_new<T: Metadata>(q: Seq<int>)
    ensures
        !finds_duplicate(Seq::<(Seq<int>, T)>::empty(), q),
{
}

/// After a first image is accepted into an empty partition, any query whose
/// fingerprint distance to that entry is below the duplicate threshold is
/// classified as a duplicate of exactly that first entry: submitting the
/// two in order yields `New`, then `AlreadyExists` with the first entry's
/// metadata.
pub proof fn lemma_second_within_threshold_is_duplicate<T: Metadata>(a: (Seq<int>, T), q: Seq<int>)
    requires
        distance_of(a.0, q) < DUPLICATE_THRESHOLD,
    ensures
        !finds_duplicate(Seq::<(Seq<int>, T)>::empty(), a.0),
        finds_duplicate(seq![a], q),
        best_index(seq![a], q) == 0,
{
    assert(best_upto(seq![a], q, 0) is None);
    assert(best_upto(seq![a], q, 1) == Some(0int));
}

/// After a first image is accepted into an empty partition, any query whose
/// fingerprint distance to that entry is at least the duplicate threshold
/// finds no duplicate: submitting the two in order yields `New` twice
/// whenever persistence succeeds.
pub proof fn lemma_second_beyond_threshold_is_new<T: Metadata>(a: (Seq<int>, T), q: Seq<int>)
    requires
        distance_of(a.0, q) >= DUPLICATE_THRESHOLD,
    ensures
        !finds_duplicate(Seq::<(Seq<int>, T)>::empty(), a.0),
        !finds_duplicate(seq![a], q),
{
    assert(best_upto(seq![a], q, 0) is None);
    assert(best_upto(seq![a], q, 1) == Some(0int));
}

/// A well-formed index's entries are exactly the fingerprints of its
/// store's contents, in load order.
pub proof fn lemma_wf_entries<T: Metadata, D: Storage<T>>(db: &ImageDb<T, D>)
    requires
        db.wf(),
    ensures
        db.entries() == entries_of(db.store()),
{
}

/// Submitting image A to an empty partition and then image B whose
/// fingerprint distance to A's is below the duplicate threshold yields
/// `New` and then `AlreadyExists` with A's metadata, whenever A's
/// persistence succeeded; B is discarded, leaving the partition with A
/// alone.
pub proof fn lemma_submit_pair_within_threshold<T: Metadata>(
    a: (Seq<u8>, T),
    b: (Seq<u8>, T),
    mid_entries: Seq<(Seq<int>, T)>,
    mid_store: Seq<(Seq<u8>, T)>,
    post_entries: Seq<(Seq<int>, T)>,
    post_store: Seq<(Seq<u8>, T)>,
    r1: Result<ImageVariant<T>, ImageDbError>,
    r2: Result<ImageVariant<T>, ImageDbError>,
)
    requires
        decodable(a.0),
        decodable(b.0),
        distance_of(fingerprint_of(a.0), fingerprint_of(b.0)) < DUPLICATE_THRESHOLD,
        submit_outcome(
            Seq::<(Seq<int>, T)>::empty(),
            Seq::<(Seq<u8>, T)>::empty(),
            mid_entries,
            mid_store,
            a,
            r1,
        ),
        r1 is Ok,
        submit_outcome(mid_entries, mid_store, post_entries, post_store, b, r2),
    ensures
        r1 == Ok::<ImageVariant<T>, ImageDbError>(ImageVariant::New),
        r2 == Ok::<ImageVariant<T>, ImageDbError>(ImageVariant::AlreadyExists(a.1)),
        post_entries == mid_entries,
        post_store == mid_store,
{
    lemma_empty_partition_classifies_new::<T>(fingerprint_of(a.0));
    assert(mid_entries == Seq::<(Seq<int>, T)>::empty().push((fingerprint_of(a.0), a.1)));
    assert(mid_entries =~= seq![(fingerprint_of(a.0), a.1)]);
    lemma_second_within_threshold_is_duplicate((fingerprint_of(a.0), a.1), fingerprint_of(b.0));
    assert(mid_entries[best_index(mid_entries, fingerprint_of(b.0))].1 == a.1);
}

/// Submitting image A to an empty partition and then image B whose
/// fingerprint distance to A's is at least the duplicate threshold yields
/// `New` twice, whenever both persistence writes succeed; the partition
/// then holds both entries in submission order.
pub proof fn lemma_submit_pair_beyond_threshold<T: Metadata>(
    a: (Seq<u8>, T),
    b: (Seq<u8>, T),
    mid_entries: Seq<(Seq<int>, T)>,
    mid_store: Seq<(Seq<u8>, T)>,
    post_entries: Seq<(Seq<int>, T)>,
    post_store: Seq<(Seq<u8>, T)>,
    r1: Result<ImageVariant<T>, ImageDbError>,
    r2: Result<ImageVariant<T>, ImageDbError>,
)
    requires
        decodable(a.0),
        decodable(b.0),
        distance_of(fingerprint_of(a.0), fingerprint_of(b.0)) >= DUPLICATE_THRESHOLD,
        submit_outcome(
            Seq::<(Seq<int>, T)>::empty(),
            Seq::<(Seq<u8>, T)>::empty(),
            mid_entries,
            mid_store,
            a,
            r1,
        ),
        r1 is Ok,
        submit_outcome(mid_entries, mid_store, post_entries, post_store, b, r2),
        r2 is Ok,
    ensures
        r1 == Ok::<ImageVariant<T>, ImageDbError>(ImageVariant::New),
        r2 == Ok::<ImageVariant<T>, ImageDbError>(ImageVariant::New),
        post_entries == mid_entries.push((fingerprint_of(b.0), b.1)),
{
    lemma_empty_partition_classifies_new::<T>(fingerprint_of(a.0));
    assert(mid_entries == Seq::<(Seq<int>, T)>::empty().push((fingerprint_of(a.0), a.1)));
    assert(mid_entries =~= seq![(fingerprint_of(a.0), a.1)]);
    lemma_second_beyond_threshold_is_new((fingerprint_of(a.0), a.1), fingerprint_of(b.0));
}

/// Rehydration idempotence: a fingerprint index is a function of its
/// store's contents. Two well-formed indexes over stores with equal
/// contents have equal entries, so a submission classifies identically
/// whether the stored images arrived by direct saves before construction or
/// by prior submissions that persisted them.
pub proof fn lemma_index_determined_by_store<T: Metadata, D1: Storage<T>, D2: Storage<T>>(
    db1: &ImageDb<T, D1>,
    db2: &ImageDb<T, D2>,
)
    requires
        db1.wf(),
        db2.wf(),
        db1.store() == db2.store(),
    ensures
        db1.entries() == db2.entries(),
{
}

} // verus!
