//! The persistence port and its volatile in-process adapter.

use vstd::prelude::*;

use crate::image::{Image, Metadata};

verus! {

/// A failure of a persistence port.
#[derive(Debug, Clone, Copy, PartialEq, Eq, Structural)]
pub enum StorageError {
    /// An underlying I/O operation failed.
    Io,
    /// A primary file lacks its metadata side record.
    MissingRecord,
    /// A metadata side record exists but cannot be decoded.
    MalformedRecord,
}

/// The persistence port: an abstract contract for durably storing and
/// re-loading raw image bytes together with their metadata.
///
/// The port's abstract state is the sequence of images it holds, in the
/// stable order [`Storage::load_images`] returns them; `save_image` appends
/// to that sequence or fails leaving it unchanged, so a classification of
/// `New` is never reported over a silently failed write.
pub trait Storage<T: Metadata>: Sized {
    /// The images this store holds, in the stable order `load_images`
    /// returns them. The default model is the empty store; every adapter
    /// the library verifies overrides it.
    open spec fn contents(&self) -> Seq<(Seq<u8>, T)> {
        Seq::empty()
    }

    /// Durably stores bytes and metadata together; afterwards
    /// `load_images` (even after a restart, for a durable adapter) returns
    /// this image too. On failure the store is unchanged.
    fn save_image(&mut self, image: &Image<T>) -> (r: Result<(), StorageError>)
        ensures
            r is Ok ==> final (self).contents() == old(self).contents().push(image@),
            r is Err ==> final (self).contents() == old(self).contents(),
    ;

    /// Produces every previously saved image, in the store's stable order.
    fn load_images(&self) -> (r: Result<Vec<Image<T>>, StorageError>)
        ensures
            r matches Ok(v) ==> v@.map_values(|img: Image<T>| img@) == self.contents(),
    ;
}

/// The volatile adapter: an append-only in-process list that lives for the
/// process lifetime. It has no failure modes.
pub struct InMemoryStorage<T: Metadata> {
    images: Vec<Image<T>>,
}

impl<T: Metadata> InMemoryStorage<T> {
    /// An empty volatile store.
    pub fn new() -> (r: Self)
        ensures
            r.contents() == Seq::<(Seq<u8>, T)>::empty(),
    {
        let r = InMemoryStorage { images: Vec::new() };
        proof {
            assert(r.contents() =~= Seq::<(Seq<u8>, T)>::empty());
        }
        r
    }
}

impl<T: Metadata> Storage<T> for InMemoryStorage<T> {
    closed spec fn contents(&self) -> Seq<(Seq<u8>, T)> {
        self.images@.map_values(|img: Image<T>| img@)
    }

    /// Appends a snapshot of the image; never fails.
    fn save_image(&mut self, image: &Image<T>) -> (r: Result<(), StorageError>)
        ensures
            r is Ok,
    {
        self.images.push(image.dup());
        proof {
            assert(self.contents() =~= old(self).contents().push(image@));
        }
        Ok(())
    }

    /// Returns a snapshot copy of the stored images; never fails.
    fn load_images(&self) -> (r: Result<Vec<Image<T>>, StorageError>)
        ensures
            r is Ok,
    {
        let mut out: Vec<Image<T>> = Vec::new();
        let mut i: usize = 0;
        while i < self.images.len()
            invariant
                i <= self.images.len(),
                out@.len() == i,
                forall|j: int| 0 <= j < i ==> (#[trigger] out@[j])@ == self.images@[j]@,
            decreases self.images.len() - i,
        {
            out.push(self.images[i].dup());
            i = i + 1;
        }
        proof {
            assert forall|j: int| 0 <= j < out@.len() implies out@.map_values(
                |img: Image<T>| img@,
            )[j] == self.contents()[j] by {
                assert(out@[j]@ == self.images@[j]@);
            }
            assert(out@.map_values(|img: Image<T>| img@) =~= self.contents());
        }
        Ok(out)
    }
}

} // verus!
