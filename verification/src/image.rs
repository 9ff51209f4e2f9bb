//! Images, caller-supplied metadata, and the classification result.

use vstd::prelude::*;

verus! {

/// A caller-defined metadata value carried with each image. The index never
/// inspects it beyond the capabilities below: it exposes a stable,
/// collection-unique identifier (used as the primary file name in durable
/// storage), it can be duplicated without loss, it is equality-comparable,
/// and it is serializable to a side record that decodes back to an equal
/// value.
pub trait Metadata: Sized + Clone {
    /// The stable, collection-unique identifier this metadata exposes.
    spec fn key(&self) -> Seq<char>;

    /// The serialized side-record form of this metadata value.
    spec fn record_of(&self) -> Seq<u8>;

    /// The identifier under which the image is stored.
    fn file_name(&self) -> (r: &str)
        ensures
            r@ == self.key(),
    ;

    /// Duplicates the metadata without loss (copy semantics).
    fn dup(&self) -> (r: Self)
        ensures
            r == *self,
    ;

    /// Serializes the metadata to its side record.
    fn encode_record(&self) -> (r: Vec<u8>)
        ensures
            r@ == self.record_of(),
    ;

    /// Reconstructs a metadata value from a side record. Decoding is sound
    /// (whatever it accepts re-encodes to the very same record) and
    /// complete (every record some metadata value would write is accepted),
    /// so a record written by `encode_record` always decodes, to a value
    /// carrying the same record and hence the same identifier.
    fn decode_record(bytes: &[u8]) -> (r: Option<Self>)
        ensures
            r matches Some(m) ==> m.record_of() == bytes@,
            (exists|m: Self| (#[trigger] m.record_of()) == bytes@) ==> r is Some,
    ;

    /// The side record determines the stored identifier.
    proof fn lemma_record_determines_key(&self, other: &Self)
        requires
            self.record_of() == other.record_of(),
        ensures
            self.key() == other.key(),
    ;
}

/// An image: a raw, format-agnostic byte payload plus its metadata.
#[derive(Debug, Clone, PartialEq)]
pub struct Image<T: Metadata> {
    pub bytes: Vec<u8>,
    pub metadata: T,
}

impl<T: Metadata> View for Image<T> {
    type V = (Seq<u8>, T);

    open spec fn view(&self) -> (Seq<u8>, T) {
        (self.bytes@, self.metadata)
    }
}

impl<T: Metadata> Image<T> {
    /// Packs a byte payload and its metadata into an image.
    pub fn new(bytes: Vec<u8>, metadata: T) -> (r: Self)
        ensures
            r@ == (bytes@, metadata),
    {
        Self { bytes, metadata }
    }

    /// Duplicates the image; the copy has the same payload and metadata.
    pub fn dup(&self) -> (r: Self)
        ensures
            r@ == self@,
    {
        let bytes = copy_bytes(&self.bytes);
        Self { bytes, metadata: self.metadata.dup() }
    }
}

/// Copies a byte vector; the copy holds the same bytes.
pub fn copy_bytes(v: &Vec<u8>) -> (r: Vec<u8>)
    ensures
        r@ == v@,
{
    let r = v.clone();
    proof {
        assert forall|i: int| 0 <= i < v@.len() implies r@[i] == v@[i] by {
            assert(cloned::<u8>(v[i], r[i]));
        }
        assert(r@ =~= v@);
    }
    r
}

/// The outcome of submitting an image: either a first sighting, or a
/// near-duplicate of a specific prior entry, whose metadata is carried so
/// the caller can point at the original.
#[derive(Debug, Clone, PartialEq)]
pub enum ImageVariant<T: Metadata> {
    New,
    AlreadyExists(T),
}

} // verus!
