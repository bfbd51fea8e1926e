//! The cache of a project: what is known of content files by the hash of
//! what they hold.

use crate::content::ContentCache;
use vstd::prelude::*;

verus! {

/// What the cache holds: an entry for each hash.
#[derive(Debug)]
pub struct CacheInner {
    pub contents: Vec<([u8; 32], ContentCache)>,
}

impl CacheInner {
    /// The cache that holds nothing.
    pub fn new() -> (r: Self)
        ensures
            r.contents@.len() == 0,
    {
        Self { contents: Vec::new() }
    }
}

/// A cache and the path of the file it is kept in.
#[derive(Debug)]
pub struct Cache {
    pub path: Vec<u8>,
    pub inner: CacheInner,
}

impl Cache {
    /// The cache kept at `path`: what the file held, where it was there and
    /// could be read, else an empty cache.
    pub fn load_or_new(path: Vec<u8>, stored: Option<CacheInner>) -> (r: Self)
        ensures
            r.path == path,
            stored matches Some(inner) ==> r.inner == inner,
            stored is None ==> r.inner.contents@.len() == 0,
    {
        match stored {
            Some(inner) => Self { path, inner },
            None => Self { path, inner: CacheInner::new() },
        }
    }
}

} // verus!
