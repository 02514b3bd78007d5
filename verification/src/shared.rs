//! A shareable, lock-protected LRU cache.
//!
//! The container's mutable table is fully encapsulated behind a
//! reader-writer lock whose invariant — the cache is well-formed and keeps
//! the byte budget fixed at construction — is checked at every lock release.
//! A value of this type can therefore be shared freely across threads
//! without any unchecked marker: whatever interleaving occurs, every state
//! the lock ever holds satisfies the budget invariant.

use vstd::prelude::*;

use vstd::rwlock::{RwLock, RwLockPredicate};

use crate::lru::{lemma_insert_budget, LruCache, LruModel};

verus! {

/// The lock invariant: the inner cache is well-formed and its budget is the
/// one fixed at construction.
pub struct SharedLruPred {
    pub max: nat,
}

impl RwLockPredicate<LruCache> for SharedLruPred {
    open spec fn inv(self, v: LruCache) -> bool {
        v@.wf() && v@.max == self.max
    }
}

/// A byte-budgeted LRU cache behind a reader-writer lock, shareable across
/// threads. Every operation reads or replaces the locked state, and every
/// release re-establishes the lock invariant.
pub struct SharedLruCache {
    lock: RwLock<LruCache, SharedLruPred>,
}

impl SharedLruCache {
    /// The byte budget fixed at construction.
    pub closed spec fn spec_max(self) -> nat {
        self.lock.pred().max
    }

    /// Creates an empty shared cache with the given byte budget.
    pub fn new(max_bytes: usize) -> (r: Self)
        ensures
            r.spec_max() == max_bytes as nat,
    {
        let cache = LruCache::new(max_bytes);
        let lock = RwLock::new(cache, Ghost(SharedLruPred { max: max_bytes as nat }));
        SharedLruCache { lock }
    }

    /// Looks a key up, restamping its entry as most recently used on a hit.
    /// The bytes returned are the ones some well-formed state under this
    /// cache's budget holds for the key.
    pub fn get(&self, key: &str) -> (r: Option<Vec<u8>>)
        ensures
            r matches Some(v) ==> exists|m: LruModel|
                m.wf() && m.max == self.spec_max() && #[trigger] m.lookup(key@) == Some(v@),
    {
        let (mut cache, handle) = self.lock.acquire_write();
        let ghost before = cache@;
        let r = cache.get(key);
        handle.release_write(cache);
        proof {
            if r is Some {
                assert(before.lookup(key@) == Some(r->0@));
            }
        }
        r
    }

    /// Stores a value under a key with its tracked byte size; evictions keep
    /// the budget invariant, which the lock re-checks on release.
    pub fn insert(&self, key: String, value: Vec<u8>, byte_size: usize) {
        let ghost kview = key@;
        let ghost vview = value@;
        let (mut cache, handle) = self.lock.acquire_write();
        let ghost before = cache@;
        cache.insert(key, value, byte_size);
        proof {
            lemma_insert_budget(before, kview, vview, byte_size as nat);
        }
        handle.release_write(cache);
    }

    /// The bytes tracked by the locked state at the time of the call: the
    /// exact sum of the retained entries' sizes of a well-formed state under
    /// this cache's budget.
    pub fn total_bytes(&self) -> (r: usize)
        ensures
            exists|m: LruModel|
                m.wf() && #[trigger] m.max == self.spec_max() && r as nat == m.total,
    {
        let (cache, handle) = self.lock.acquire_write();
        let r = cache.total_bytes();
        let ghost m = cache@;
        handle.release_write(cache);
        proof {
            assert(m.wf() && m.max == self.spec_max() && r as nat == m.total);
        }
        r
    }

    /// The configured byte budget.
    pub fn max_bytes(&self) -> (r: usize)
        ensures
            r as nat == self.spec_max(),
    {
        let (cache, handle) = self.lock.acquire_write();
        let r = cache.max_bytes();
        handle.release_write(cache);
        r
    }

    /// The number of entries in the locked state at the time of the call.
    pub fn len(&self) -> (r: usize) {
        let (cache, handle) = self.lock.acquire_write();
        let r = cache.len();
        handle.release_write(cache);
        r
    }

    /// Whether the locked state held no entries at the time of the call.
    pub fn is_empty(&self) -> (r: bool) {
        let (cache, handle) = self.lock.acquire_write();
        let r = cache.is_empty();
        handle.release_write(cache);
        r
    }

    /// Removes every entry, resetting the byte total and access counter.
    pub fn clear(&self) {
        let (mut cache, handle) = self.lock.acquire_write();
        cache.clear();
        handle.release_write(cache);
    }
}

} // verus!
