//! In-memory cache of all media files, replaced as a whole on each scan.
//!
//! A snapshot is a shared pointer to the list: taking one is cheap, and a
//! snapshot keeps the list it was taken of even when the cache is replaced.

use std::sync::Arc;
use vstd::prelude::*;
use crate::media::MediaFile;

verus! {

/// Calls `Arc::clone`; the contract claims that the clone points at the same
/// value.
#[verifier::external_body]
fn share<T>(a: &Arc<T>) -> (r: Arc<T>)
    ensures
        r == *a,
{
    Arc::clone(a)
}

/// Shared in-memory cache of all media files.
pub struct MediaCache {
    files: Arc<Vec<MediaFile>>,
}

impl View for MediaCache {
    type V = Seq<MediaFile>;

    closed spec fn view(&self) -> Seq<MediaFile> {
        self.files@
    }
}

impl MediaCache {
    /// An empty cache.
    pub fn new() -> (r: Self)
        ensures
            r@ == Seq::<MediaFile>::empty(),
    {
        MediaCache { files: Arc::new(Vec::new()) }
    }

    /// Snapshot the current cache — cheap, Arc clone.
    pub fn get(&self) -> (r: Arc<Vec<MediaFile>>)
        ensures
            r@ == self@,
    {
        share(&self.files)
    }

    /// Replace the cache contents.
    pub fn set(&mut self, files: Vec<MediaFile>)
        ensures
            final(self)@ == files@,
    {
        self.files = Arc::new(files);
    }

    /// Whether the cache holds no file.
    pub fn is_empty(&self) -> (r: bool)
        ensures
            r == (self@.len() == 0),
    {
        self.files.len() == 0
    }
}

} // verus!
