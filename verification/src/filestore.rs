//! The verified core of the durable, directory-backed persistence adapter.
//!
//! The durable layout holds, for each stored image, one primary file named
//! by the metadata's identifier and holding the raw bytes, and one
//! co-located side record with the same base name and the `.meta` extension
//! holding the serialized metadata. This module computes the records a save
//! writes and reconstructs images from a directory listing, pairing each
//! primary file with its side record by name; the file I/O itself stays
//! outside the library, which only ever sees plain (name, contents) pairs.

use vstd::prelude::*;
use vstd::string::StrSliceExecFns;
use vstd::string::StringExecFns;

use crate::image::{copy_bytes, Image, Metadata};
use crate::storage::StorageError;

verus! {

/// The file-name suffix marking a metadata side record.
pub open spec fn meta_suffix() -> Seq<char> {
    ".meta"@
}

/// Whether a file name names a metadata side record.
pub open spec fn is_sidecar_name(n: Seq<char>) -> bool {
    n.len() >= 5 && n.subrange(n.len() - 5, n.len() as int) == meta_suffix()
}

/// The side-record name belonging to a primary file name.
pub open spec fn sidecar_for(n: Seq<char>) -> Seq<char> {
    n + meta_suffix()
}

/// The first index of an entry with the given name, if any.
pub open spec fn find_named(l: Seq<(Seq<char>, Seq<u8>)>, name: Seq<char>) -> Option<int>
    decreases l.len(),
{
    if l.len() == 0 {
        None
    } else if l[0].0 == name {
        Some(0)
    } else {
        match find_named(l.drop_first(), name) {
            None => None,
            Some(i) => Some(i + 1),
        }
    }
}

/// The primary entries of a listing — every entry that is not a side
/// record — as (name, contents) pairs in listing order.
pub open spec fn primaries(l: Seq<(Seq<char>, Seq<u8>)>) -> Seq<(Seq<char>, Seq<u8>)>
    decreases l.len(),
{
    if l.len() == 0 {
        Seq::empty()
    } else {
        primaries(l.drop_last()) + if is_sidecar_name(l.last().0) {
            Seq::empty()
        } else {
            seq![l.last()]
        }
    }
}

/// The view of an executable listing: each entry's name and contents.
pub open spec fn listing_view(l: Seq<(String, Vec<u8>)>) -> Seq<(Seq<char>, Seq<u8>)> {
    l.map_values(|e: (String, Vec<u8>)| (e.0@, e.1@))
}

/// `find_named` finds the first entry with the given name: it returns an
/// index exactly when one exists, and no earlier index matches.
pub proof fn lemma_find_named_characterization(l: Seq<(Seq<char>, Seq<u8>)>, name: Seq<char>)
    ensures
        find_named(l, name) is None ==> forall|j: int|
            0 <= j < l.len() ==> (#[trigger] l[j]).0 != name,
        find_named(l, name) matches Some(i) ==> 0 <= i < l.len() && l[i].0 == name && forall|
            j: int,
        | 0 <= j < i ==> (#[trigger] l[j]).0 != name,
    decreases l.len(),
{
    if l.len() > 0 {
        lemma_find_named_characterization(l.drop_first(), name);
        if l[0].0 != name {
            match find_named(l.drop_first(), name) {
                None => {
                    assert forall|j: int| 0 <= j < l.len() implies (#[trigger] l[j]).0
                        != name by {
                        if j > 0 {
                            assert(l.drop_first()[j - 1] == l[j]);
                            assert(l.drop_first()[j - 1].0 != name);
                        }
                    }
                },
                Some(i) => {
                    assert(l.drop_first()[i] == l[i + 1]);
                    assert forall|j: int| 0 <= j < i + 1 implies (#[trigger] l[j]).0
                        != name by {
                        if j > 0 {
                            assert(l.drop_first()[j - 1] == l[j]);
                            assert(l.drop_first()[j - 1].0 != name);
                        }
                    }
                },
            }
        }
    }
}

/// Compares two strings character by character.
pub fn str_eq(a: &str, b: &str) -> (r: bool)
    ensures
        r == (a@ == b@),
{
    let na = a.unicode_len();
    let nb = b.unicode_len();
    if na != nb {
        return false;
    }
    let mut i: usize = 0;
    while i < na
        invariant
            i <= na,
            na == a@.len(),
            na == b@.len(),
            forall|j: int| 0 <= j < i ==> a@[j] == b@[j],
        decreases na - i,
    {
        if a.get_char(i) != b.get_char(i) {
            return false;
        }
        i = i + 1;
    }
    proof {
        assert(a@ =~= b@);
    }
    true
}

/// Whether a file name names a metadata side record.
pub fn is_sidecar(name: &str) -> (r: bool)
    ensures
        r == is_sidecar_name(name@),
{
    let n = name.unicode_len();
    if n < 5 {
        return false;
    }
    let tail = name.substring_char(n - 5, n);
    str_eq(tail, ".meta")
}

/// The side-record name belonging to a primary file name.
pub fn sidecar_name(name: &str) -> (r: String)
    ensures
        r@ == sidecar_for(name@),
{
    String::from_str(name).concat(".meta")
}

/// Finds the first listing entry with the given name.
pub fn find_entry(listing: &Vec<(String, Vec<u8>)>, name: &str) -> (r: Option<usize>)
    ensures
        match r {
            Some(i) => i < listing@.len() && find_named(listing_view(listing@), name@) == Some(
                i as int,
            ),
            None => find_named(listing_view(listing@), name@) is None,
        },
{
    let ghost lv = listing_view(listing@);
    proof {
        assert forall|j: int| 0 <= j < lv.len() implies #[trigger] lv[j] == (
            listing@[j].0@,
            listing@[j].1@,
        ) by {}
    }
    let mut i: usize = 0;
    while i < listing.len()
        invariant
            i <= listing@.len(),
            lv == listing_view(listing@),
            lv.len() == listing@.len(),
            forall|j: int| 0 <= j < lv.len() ==> #[trigger] lv[j] == (listing@[j].0@, listing@[j].1@),
            forall|j: int| 0 <= j < i ==> (#[trigger] lv[j]).0 != name@,
        decreases listing@.len() - i,
    {
        if str_eq(listing[i].0.as_str(), name) {
            proof {
                assert(lv[i as int] == (listing@[i as int].0@, listing@[i as int].1@));
                assert(lv[i as int].0 == name@);
                lemma_find_named_characterization(lv, name@);
                match find_named(lv, name@) {
                    None => {
                        assert(false);
                    },
                    Some(k) => {
                        assert(k >= i);
                        assert(k <= i);
                    },
                }
            }
            return Some(i);
        }
        i = i + 1;
    }
    proof {
        lemma_find_named_characterization(lv, name@);
        match find_named(lv, name@) {
            None => {},
            Some(k) => {
                assert(lv[k].0 != name@);
                assert(false);
            },
        }
    }
    None
}

/// Appending an entry to a listing appends it to the primaries exactly when
/// it is not a side record.
pub proof fn lemma_primaries_push(l: Seq<(Seq<char>, Seq<u8>)>, e: (Seq<char>, Seq<u8>))
    ensures
        primaries(l.push(e)) == primaries(l) + if is_sidecar_name(e.0) {
            Seq::<(Seq<char>, Seq<u8>)>::empty()
        } else {
            seq![e]
        },
{
    assert(l.push(e).drop_last() =~= l);
    assert(l.push(e).last() == e);
}

/// Every primary entry of a listing occurs among its primaries.
pub proof fn lemma_primary_member(l: Seq<(Seq<char>, Seq<u8>)>, i: int)
    requires
        0 <= i < l.len(),
        !is_sidecar_name(l[i].0),
    ensures
        exists|j: int| 0 <= j < primaries(l).len() && #[trigger] primaries(l)[j] == l[i],
    decreases l.len(),
{
    if i == l.len() - 1 {
        assert(primaries(l) == primaries(l.drop_last()) + seq![l.last()]);
        assert(primaries(l)[primaries(l).len() - 1] == l[i]);
    } else {
        assert(l.drop_last()[i] == l[i]);
        lemma_primary_member(l.drop_last(), i);
        let j = choose|j: int|
            0 <= j < primaries(l.drop_last()).len() && #[trigger] primaries(l.drop_last())[j]
                == l.drop_last()[i];
        assert(primaries(l)[j] == l[i]);
    }
}

/// A side-record name is recognized as one.
pub proof fn lemma_sidecar_for_is_sidecar(n: Seq<char>)
    ensures
        is_sidecar_name(sidecar_for(n)),
{
    reveal_strlit(".meta");
    let s = sidecar_for(n);
    assert(s.subrange(s.len() - 5, s.len() as int) =~= meta_suffix());
}

/// Two distinct base names have distinct side-record names.
pub proof fn lemma_sidecar_for_injective(a: Seq<char>, b: Seq<char>)
    requires
        sidecar_for(a) == sidecar_for(b),
    ensures
        a == b,
{
    reveal_strlit(".meta");
    assert(sidecar_for(a).len() == a.len() + 5);
    assert(sidecar_for(b).len() == b.len() + 5);
    assert(a =~= sidecar_for(a).subrange(0, a.len() as int));
    assert(b =~= sidecar_for(b).subrange(0, b.len() as int));
}

/// The directory listing that saving a sequence of images in order
/// produces: for each image, its primary file followed by its side record.
pub open spec fn saved_listing<T: Metadata>(images: Seq<(Seq<u8>, T)>) -> Seq<
    (Seq<char>, Seq<u8>),
>
    decreases images.len(),
{
    if images.len() == 0 {
        Seq::empty()
    } else {
        saved_listing(images.drop_last()) + seq![
            (images.last().1.key(), images.last().0),
            (sidecar_for(images.last().1.key()), images.last().1.record_of()),
        ]
    }
}

/// The shape of a saved listing: two entries per image, the primary at the
/// even index and the side record right after it.
pub proof fn lemma_saved_listing_shape<T: Metadata>(images: Seq<(Seq<u8>, T)>)
    ensures
        saved_listing(images).len() == 2 * images.len(),
        forall|k: int|
            0 <= k < saved_listing(images).len() ==> #[trigger] saved_listing(images)[k] == (
            if k % 2 == 0 {
                (images[k / 2].1.key(), images[k / 2].0)
            } else {
                (sidecar_for(images[k / 2].1.key()), images[k / 2].1.record_of())
            }),
    decreases images.len(),
{
    if images.len() > 0 {
        lemma_saved_listing_shape(images.drop_last());
        let n = images.len() as int;
        assert forall|k: int| 0 <= k < saved_listing(images).len() implies
            #[trigger] saved_listing(images)[k] == (if k % 2 == 0 {
            (images[k / 2].1.key(), images[k / 2].0)
        } else {
            (sidecar_for(images[k / 2].1.key()), images[k / 2].1.record_of())
        }) by {
            if k < 2 * (n - 1) {
                assert(saved_listing(images)[k] == saved_listing(images.drop_last())[k]);
                assert(images.drop_last()[k / 2] == images[k / 2]);
            } else {
                assert(images.last() == images[n - 1]);
                assert(k / 2 == n - 1);
            }
        }
    }
}

/// Durable round trip, listing side: the listing written by saving a
/// sequence of images whose identifiers are pairwise distinct and never
/// carry the side-record extension pairs up exactly: its primaries are the
/// saved images in order, and each primary's side record is found and
/// holds that image's serialized metadata. Together with the contract of
/// [`load_from_listing`], loading such a listing succeeds and yields the
/// saved images: byte-identical payloads, and metadata with equal records.
pub proof fn lemma_saved_listing_round_trip<T: Metadata>(images: Seq<(Seq<u8>, T)>)
    requires
        forall|i: int, j: int|
            0 <= i < j < images.len() ==> (#[trigger] images[i]).1.key() != (
            #[trigger] images[j]).1.key(),
        forall|i: int| 0 <= i < images.len() ==> !is_sidecar_name((#[trigger] images[i]).1.key()),
    ensures
        primaries(saved_listing(images)).len() == images.len(),
        forall|j: int|
            0 <= j < images.len() ==> #[trigger] primaries(saved_listing(images))[j] == (
            images[j].1.key(),
            images[j].0,
        ),
        forall|j: int|
            0 <= j < images.len() ==> find_named(
                saved_listing(images),
                sidecar_for((#[trigger] images[j]).1.key()),
            ) == Some(2 * j + 1),
    decreases images.len(),
{
    lemma_saved_listing_shape(images);
    if images.len() > 0 {
        let n = images.len() as int;
        let dl = images.drop_last();
        lemma_saved_listing_round_trip(dl);
        let sl = saved_listing(images);
        let p = (images.last().1.key(), images.last().0);
        let s = (sidecar_for(images.last().1.key()), images.last().1.record_of());
        assert(sl =~= saved_listing(dl).push(p).push(s));
        lemma_primaries_push(saved_listing(dl), p);
        lemma_primaries_push(saved_listing(dl).push(p), s);
        lemma_sidecar_for_is_sidecar(images.last().1.key());
        assert(!is_sidecar_name(p.0));
        assert(primaries(saved_listing(dl).push(p)) =~= primaries(saved_listing(dl)) + seq![p]);
        assert(primaries(sl) =~= primaries(saved_listing(dl)) + seq![p]);
        assert forall|j: int| 0 <= j < images.len() implies #[trigger] primaries(sl)[j] == (
            images[j].1.key(),
            images[j].0,
        ) by {
            if j < n - 1 {
                assert(primaries(sl)[j] == primaries(saved_listing(dl))[j]);
                assert(dl[j] == images[j]);
            } else {
                assert(primaries(sl)[j] == p);
            }
        }
        assert forall|j: int| 0 <= j < images.len() implies find_named(
            sl,
            sidecar_for((#[trigger] images[j]).1.key()),
        ) == Some(2 * j + 1) by {
            let target = sidecar_for(images[j].1.key());
            assert(sl[2 * j + 1].0 == target);
            assert forall|k: int| 0 <= k < 2 * j + 1 implies (#[trigger] sl[k]).0 != target by {
                if k % 2 == 0 {
                    assert(sl[k].0 == images[k / 2].1.key());
                    assert(!is_sidecar_name(sl[k].0));
                    lemma_sidecar_for_is_sidecar(images[j].1.key());
                } else {
                    assert(sl[k].0 == sidecar_for(images[k / 2].1.key()));
                    assert(k / 2 < j);
                    assert(images[k / 2].1.key() != images[j].1.key());
                    if sl[k].0 == target {
                        lemma_sidecar_for_injective(
                            images[k / 2].1.key(),
                            images[j].1.key(),
                        );
                    }
                }
            }
            lemma_find_named_characterization(sl, target);
            match find_named(sl, target) {
                None => {
                    assert(sl[2 * j + 1].0 == target);
                    assert(false);
                },
                Some(i) => {
                    assert(i >= 2 * j + 1);
                    if i > 2 * j + 1 {
                        assert(sl[2 * j + 1].0 != target);
                        assert(false);
                    }
                },
            }
        }
    }
}

/// The two records saving one image writes: the primary file, named by the
/// metadata's identifier and holding the raw bytes, and the side record,
/// with the same base name and the `.meta` extension, holding the
/// serialized metadata.
pub fn image_records<T: Metadata>(image: &Image<T>) -> (r: ((String, Vec<u8>), (String, Vec<u8>)))
    ensures
        r.0.0@ == image.metadata.key(),
        r.0.1@ == image.bytes@,
        r.1.0@ == sidecar_for(image.metadata.key()),
        r.1.1@ == image.metadata.record_of(),
{
    let name = String::from_str(image.metadata.file_name());
    let side = sidecar_name(image.metadata.file_name());
    ((name, copy_bytes(&image.bytes)), (side, image.metadata.encode_record()))
}

/// The loaded images match a listing: one image per primary entry of the
/// listing in order, each holding the primary's bytes and metadata whose
/// record is the contents of the side record found for that primary.
pub open spec fn loaded_images_match<T: Metadata>(
    lv: Seq<(Seq<char>, Seq<u8>)>,
    ps: Seq<(Seq<char>, Seq<u8>)>,
    out: Seq<Image<T>>,
) -> bool {
    &&& out.len() == ps.len()
    &&& forall|j: int|
        0 <= j < out.len() ==> (#[trigger] out[j]).bytes@ == ps[j].1 && (find_named(
            lv,
            sidecar_for(ps[j].0),
        ) matches Some(si) && out[j].metadata.record_of() == lv[si].1)
}

/// Reconstructs the stored images from a directory listing of (file name,
/// contents) pairs, in arbitrary listing order: every entry that is not a
/// side record is a primary file, paired by base name with its side
/// record. Succeeds exactly when every primary file has a side record that
/// decodes; a primary file lacking its side record or carrying an
/// undecodable one rejects the whole listing, so rehydration never
/// proceeds with partial data.
#[verifier::rlimit(50)]
pub fn load_from_listing<T: Metadata>(listing: &Vec<(String, Vec<u8>)>) -> (r: Result<
    Vec<Image<T>>,
    StorageError,
>)
    ensures
        r matches Ok(v) ==> loaded_images_match(
            listing_view(listing@),
            primaries(listing_view(listing@)),
            v@,
        ),
        r is Ok <==> (forall|j: int|
            0 <= j < primaries(listing_view(listing@)).len() ==> (find_named(
                listing_view(listing@),
                sidecar_for((#[trigger] primaries(listing_view(listing@))[j]).0),
            ) matches Some(si) && (exists|m: T|
                (#[trigger] m.record_of()) == listing_view(listing@)[si].1))),
        r == Err::<Vec<Image<T>>, StorageError>(StorageError::MissingRecord) ==> (exists|j: int|
            0 <= j < primaries(listing_view(listing@)).len() && find_named(
                listing_view(listing@),
                sidecar_for((#[trigger] primaries(listing_view(listing@))[j]).0),
            ) is None),
        r matches Err(e) ==> e == StorageError::MissingRecord || e
            == StorageError::MalformedRecord,
{
    let ghost lv = listing_view(listing@);
    proof {
        assert forall|j: int| 0 <= j < lv.len() implies #[trigger] lv[j] == (
            listing@[j].0@,
            listing@[j].1@,
        ) by {}
    }
    let mut out: Vec<Image<T>> = Vec::new();
    let mut i: usize = 0;
    while i < listing.len()
        invariant
            i <= listing@.len(),
            lv == listing_view(listing@),
            lv.len() == listing@.len(),
            forall|j: int| 0 <= j < lv.len() ==> #[trigger] lv[j] == (listing@[j].0@, listing@[j].1@),
            loaded_images_match(lv, primaries(lv.take(i as int)), out@),
        decreases listing@.len() - i,
    {
        proof {
            assert(lv[i as int] == (listing@[i as int].0@, listing@[i as int].1@));
            assert(lv.take(i as int).push(lv[i as int]) =~= lv.take(i + 1 as int));
            lemma_primaries_push(lv.take(i as int), lv[i as int]);
            if is_sidecar_name(lv[i as int].0) {
                assert(primaries(lv.take(i as int)) + Seq::<(Seq<char>, Seq<u8>)>::empty()
                    =~= primaries(lv.take(i as int)));
            }
        }
        if !is_sidecar(listing[i].0.as_str()) {
            let target = sidecar_name(listing[i].0.as_str());
            proof {
                assert(target@ == sidecar_for(lv[i as int].0));
            }
            match find_entry(listing, target.as_str()) {
                None => {
                    proof {
                        lemma_primary_member(lv, i as int);
                        let j = choose|j: int|
                            0 <= j < primaries(lv).len() && #[trigger] primaries(lv)[j] == lv[
                            i as int];
                        assert(find_named(lv, sidecar_for(primaries(lv)[j].0)) is None);
                    }
                    return Err(StorageError::MissingRecord);
                },
                Some(si) => {
                    match T::decode_record(listing[si].1.as_slice()) {
                        None => {
                            proof {
                                lemma_primary_member(lv, i as int);
                                let j = choose|j: int|
                                    0 <= j < primaries(lv).len() && #[trigger] primaries(lv)[j]
                                        == lv[i as int];
                                assert(lv[si as int].1 == listing@[si as int].1@);
                                assert(!(exists|m: T|
                                    (#[trigger] m.record_of()) == listing@[si as int].1@));
                                assert(find_named(lv, sidecar_for(primaries(lv)[j].0)) == Some(
                                    si as int,
                                ));
                            }
                            return Err(StorageError::MalformedRecord);
                        },
                        Some(m) => {
                            out.push(Image::new(copy_bytes(&listing[i].1), m));
                            proof {
                                let psi = primaries(lv.take(i as int));
                                let psi1 = primaries(lv.take(i + 1 as int));
                                assert(psi1 == psi + seq![lv[i as int]]);
                                assert forall|j: int| 0 <= j < out@.len() implies (
                                #[trigger] out@[j]).bytes@ == psi1[j].1 && (find_named(
                                    lv,
                                    sidecar_for(psi1[j].0),
                                ) matches Some(sk) && out@[j].metadata.record_of()
                                    == lv[sk].1) by {
                                    if j < out@.len() - 1 {
                                        assert(psi1[j] == psi[j]);
                                    } else {
                                        assert(psi1[j] == lv[i as int]);
                                        assert(out@[j].bytes@ == listing@[i as int].1@);
                                        assert(target@ == sidecar_for(lv[i as int].0));
                                        assert(out@[j].metadata.record_of() == listing@[
                                        si as int].1@);
                                    }
                                }
                                assert(loaded_images_match(
                                    lv,
                                    primaries(lv.take(i + 1 as int)),
                                    out@,
                                ));
                            }
                        },
                    }
                },
            }
        }
        i = i + 1;
    }
    proof {
        assert(lv.take(listing@.len() as int) =~= lv);
        assert forall|j: int| 0 <= j < primaries(lv).len() implies (find_named(
            lv,
            sidecar_for((#[trigger] primaries(lv)[j]).0),
        ) matches Some(si) && (exists|m: T| (#[trigger] m.record_of()) == lv[si].1)) by {
            assert((#[trigger] out@[j]).bytes@ == primaries(lv)[j].1);
            match find_named(lv, sidecar_for(primaries(lv)[j].0)) {
                None => {
                    assert(false);
                },
                Some(si) => {
                    assert(out@[j].metadata.record_of() == lv[si].1);
                },
            }
        }
    }
    Ok(out)
}

} // verus!
