//! The tiered cache manager: one byte-budgeted memory cache per tier plus
//! the naming scheme of the per-tier disk files, composed into the
//! fetch-or-build flow.
//!
//! The manager here is the decision and bookkeeping core. The surrounding
//! application performs the filesystem reads and writes: it looks a key up
//! in memory first, falls back to the disk file named by
//! [`ThumbnailCache::disk_rel_path`] (back-filling memory on a hit), and on
//! a full miss generates the bytes and stores them write-through.

use vstd::prelude::*;

use crate::lru::{clone_bytes, spec_insert, spec_new_lru, spec_touch, LruCache, LruModel};
use crate::tier::{ThumbnailConfig, ThumbnailTier};

verus! {

/// The tiered cache manager: one in-memory LRU per tier, the session this
/// cache belongs to, and its configuration.
pub struct ThumbnailCache {
    session_hash: String,
    config: ThumbnailConfig,
    micro_cache: LruCache,
    preview_cache: LruCache,
    loupe_cache: LruCache,
}

impl ThumbnailCache {
    /// The model of the memory cache serving a tier.
    pub closed spec fn tier_model(self, tier: ThumbnailTier) -> LruModel {
        match tier {
            ThumbnailTier::Micro => self.micro_cache@,
            ThumbnailTier::Preview => self.preview_cache@,
            ThumbnailTier::Loupe => self.loupe_cache@,
        }
    }

    /// All three memory caches are well-formed.
    pub closed spec fn wf(self) -> bool {
        &&& self.micro_cache@.wf()
        &&& self.preview_cache@.wf()
        &&& self.loupe_cache@.wf()
    }

    /// Creates a manager for a session with the default configuration.
    pub fn new(session_hash: &str) -> (r: Self)
        ensures
            r.wf(),
            r.tier_model(ThumbnailTier::Micro) == spec_new_lru(157286400),
            r.tier_model(ThumbnailTier::Preview) == spec_new_lru(209715200),
            r.tier_model(ThumbnailTier::Loupe) == spec_new_lru(104857600),
    {
        Self::with_config(session_hash, ThumbnailConfig::default())
    }

    /// Creates a manager for a session with the given configuration: each
    /// tier's memory cache starts empty with its configured byte budget.
    pub fn with_config(session_hash: &str, config: ThumbnailConfig) -> (r: Self)
        ensures
            r.wf(),
            r.tier_model(ThumbnailTier::Micro) == spec_new_lru(
                config.micro_memory_budget as nat,
            ),
            r.tier_model(ThumbnailTier::Preview) == spec_new_lru(
                config.preview_memory_budget as nat,
            ),
            r.tier_model(ThumbnailTier::Loupe) == spec_new_lru(
                config.loupe_memory_budget as nat,
            ),
    {
        let micro_cache = LruCache::new(config.micro_memory_budget);
        let preview_cache = LruCache::new(config.preview_memory_budget);
        let loupe_cache = LruCache::new(config.loupe_memory_budget);
        ThumbnailCache {
            session_hash: session_hash.to_owned(),
            config,
            micro_cache,
            preview_cache,
            loupe_cache,
        }
    }

    /// Looks a key up in a tier's memory cache; a hit returns the stored
    /// bytes and restamps the entry as most recently used; the other tiers
    /// are untouched.
    pub fn get_memory(&mut self, key: &str, tier: ThumbnailTier) -> (r: Option<Vec<u8>>)
        requires
            old(self).wf(),
        ensures
            final(self).wf(),
            final(self).tier_model(tier) == spec_touch(old(self).tier_model(tier), key@),
            forall|t: ThumbnailTier|
                t != tier ==> #[trigger] final(self).tier_model(t) == old(self).tier_model(t),
            r is Some <==> old(self).tier_model(tier).has_key(key@),
            match r {
                Some(v) => old(self).tier_model(tier).lookup(key@) == Some(v@),
                None => old(self).tier_model(tier).lookup(key@) is None,
            },
    {
        match tier {
            ThumbnailTier::Micro => self.micro_cache.get(key),
            ThumbnailTier::Preview => self.preview_cache.get(key),
            ThumbnailTier::Loupe => self.loupe_cache.get(key),
        }
    }

    /// Stores bytes in a tier's memory cache under a key, tracked at their
    /// actual length; used both for write-through stores and for back-filling
    /// memory after a disk hit. The other tiers are untouched.
    pub fn store_memory(&mut self, key: &str, tier: ThumbnailTier, data: &Vec<u8>)
        requires
            old(self).wf(),
        ensures
            final(self).wf(),
            final(self).tier_model(tier) == spec_insert(
                old(self).tier_model(tier),
                key@,
                data@,
                data@.len(),
            ),
            forall|t: ThumbnailTier|
                t != tier ==> #[trigger] final(self).tier_model(t) == old(self).tier_model(t),
    {
        let value = clone_bytes(data);
        let len = data.len();
        match tier {
            ThumbnailTier::Micro => self.micro_cache.insert(key.to_owned(), value, len),
            ThumbnailTier::Preview => self.preview_cache.insert(key.to_owned(), value, len),
            ThumbnailTier::Loupe => self.loupe_cache.insert(key.to_owned(), value, len),
        }
    }

    /// Starts the two-tier read path for a key: a memory hit completes the
    /// lookup at once; a miss names the tier's disk file to try next, with
    /// the caches unchanged.
    pub fn begin_get(&mut self, key: &str, tier: ThumbnailTier) -> (r: ReadStep)
        requires
            old(self).wf(),
        ensures
            final(self).wf(),
            final(self).tier_model(tier) == spec_touch(old(self).tier_model(tier), key@),
            forall|t: ThumbnailTier|
                t != tier ==> #[trigger] final(self).tier_model(t) == old(self).tier_model(t),
            match r {
                ReadStep::Done(data) => old(self).tier_model(tier).lookup(key@) == Some(data@),
                ReadStep::TryDisk(path) => !old(self).tier_model(tier).has_key(key@) && path@
                    == spec_disk_rel_path(key@, tier),
            },
    {
        match self.get_memory(key, tier) {
            Some(data) => ReadStep::Done(data),
            None => ReadStep::TryDisk(self.disk_rel_path(key, tier)),
        }
    }

    /// Finishes the read path after the disk file was tried: a disk hit
    /// back-fills the tier's memory cache and serves the bytes; a miss
    /// leaves the caches unchanged and yields nothing.
    pub fn finish_get(&mut self, key: &str, tier: ThumbnailTier, disk: Option<Vec<u8>>) -> (r:
        Option<Vec<u8>>)
        requires
            old(self).wf(),
        ensures
            final(self).wf(),
            match disk {
                Some(data) => r == Some(data) && final(self).tier_model(tier) == spec_insert(
                    old(self).tier_model(tier),
                    key@,
                    data@,
                    data@.len(),
                ),
                None => r is None && *final(self) == *old(self),
            },
            forall|t: ThumbnailTier|
                t != tier ==> #[trigger] final(self).tier_model(t) == old(self).tier_model(t),
    {
        match disk {
            Some(data) => {
                self.store_memory(key, tier, &data);
                Some(data)
            },
            None => None,
        }
    }

    /// The path of a key's cache file for a tier, relative to the session's
    /// cache root: the tier's directory name, a slash, and the key with a
    /// `.jpg` suffix regardless of tier.
    pub fn disk_rel_path(&self, key: &str, tier: ThumbnailTier) -> (r: String)
        ensures
            r@ == spec_disk_rel_path(key@, tier),
    {
        let mut path = String::new();
        path.append(tier.dir_name());
        path.append("/");
        path.append(key);
        path.append(".jpg");
        proof {
            assert(path@ =~= spec_disk_rel_path(key@, tier));
        }
        path
    }

    /// Empties all three memory caches, resetting their totals and access
    /// counters; the caller clears the disk files separately.
    pub fn clear_memory(&mut self)
        ensures
            final(self).wf(),
            final(self).tier_model(ThumbnailTier::Micro) == spec_new_lru(
                old(self).tier_model(ThumbnailTier::Micro).max,
            ),
            final(self).tier_model(ThumbnailTier::Preview) == spec_new_lru(
                old(self).tier_model(ThumbnailTier::Preview).max,
            ),
            final(self).tier_model(ThumbnailTier::Loupe) == spec_new_lru(
                old(self).tier_model(ThumbnailTier::Loupe).max,
            ),
    {
        self.micro_cache.clear();
        self.preview_cache.clear();
        self.loupe_cache.clear();
    }

    /// A snapshot of per-tier item counts, byte totals, and budgets.
    pub fn cache_stats(&self) -> (r: CacheStats)
        ensures
            r.micro_items == self.tier_model(ThumbnailTier::Micro).entries.len(),
            r.micro_bytes == self.tier_model(ThumbnailTier::Micro).total,
            r.micro_max_bytes == self.tier_model(ThumbnailTier::Micro).max,
            r.preview_items == self.tier_model(ThumbnailTier::Preview).entries.len(),
            r.preview_bytes == self.tier_model(ThumbnailTier::Preview).total,
            r.preview_max_bytes == self.tier_model(ThumbnailTier::Preview).max,
            r.loupe_items == self.tier_model(ThumbnailTier::Loupe).entries.len(),
            r.loupe_bytes == self.tier_model(ThumbnailTier::Loupe).total,
            r.loupe_max_bytes == self.tier_model(ThumbnailTier::Loupe).max,
    {
        CacheStats {
            micro_items: self.micro_cache.len(),
            micro_bytes: self.micro_cache.total_bytes(),
            micro_max_bytes: self.micro_cache.max_bytes(),
            preview_items: self.preview_cache.len(),
            preview_bytes: self.preview_cache.total_bytes(),
            preview_max_bytes: self.preview_cache.max_bytes(),
            loupe_items: self.loupe_cache.len(),
            loupe_bytes: self.loupe_cache.total_bytes(),
            loupe_max_bytes: self.loupe_cache.max_bytes(),
        }
    }

    /// The configuration this cache was created with.
    pub closed spec fn spec_config(self) -> ThumbnailConfig {
        self.config
    }

    /// The configuration this cache was created with.
    pub fn config(&self) -> (r: &ThumbnailConfig)
        ensures
            *r == self.spec_config(),
    {
        &self.config
    }

    /// The session identifier this cache serves.
    pub closed spec fn spec_session_hash(self) -> Seq<char> {
        self.session_hash@
    }

    /// The session this cache serves.
    pub fn session_hash(&self) -> (r: &str)
        ensures
            r@ == self.spec_session_hash(),
    {
        self.session_hash.as_str()
    }
}

/// Each tier's memory cache of a well-formed manager is itself well-formed.
/// This is the bridge from the manager's well-formedness to the per-tier
/// model, on which the cache laws are stated.
pub proof fn lemma_manager_tier_wf(c: ThumbnailCache, tier: ThumbnailTier)
    requires
        c.wf(),
    ensures
        c.tier_model(tier).wf(),
{
}

/// Law: write-through visibility at the manager. Storing bytes under a key
/// in a well-formed manager whose tier's access counter has not saturated
/// leaves exactly those bytes readable under the key in that tier's memory
/// cache — composed with `store_memory`'s postcondition, a successful
/// fetch-or-build leaves the returned bytes in the tier's memory cache.
pub proof fn lemma_manager_write_through(
    c: ThumbnailCache,
    tier: ThumbnailTier,
    k: Seq<char>,
    v: Seq<u8>,
)
    requires
        c.wf(),
        c.tier_model(tier).counter < u64::MAX,
    ensures
        spec_insert(c.tier_model(tier), k, v, v.len()).lookup(k) == Some(v),
{
    lemma_manager_tier_wf(c, tier);
    crate::lru::lemma_insert_then_lookup(c.tier_model(tier), k, v, v.len());
}

/// One step of the two-tier read path.
pub enum ReadStep {
    /// The bytes were found in memory; the lookup is complete.
    Done(Vec<u8>),
    /// Memory missed: try the disk file at this path, relative to the
    /// session's cache root, and hand the outcome to `finish_get`.
    TryDisk(String),
}

/// The relative disk path of a key's cache file for a tier.
pub open spec fn spec_disk_rel_path(key: Seq<char>, tier: ThumbnailTier) -> Seq<char> {
    tier.spec_dir_name() + "/"@ + key + ".jpg"@
}

/// Cache statistics for monitoring: per-tier item counts, byte totals, and
/// byte budgets.
#[derive(Clone, Copy, Debug, PartialEq, Eq, Structural)]
pub struct CacheStats {
    pub micro_items: usize,
    pub micro_bytes: usize,
    pub micro_max_bytes: usize,
    pub preview_items: usize,
    pub preview_bytes: usize,
    pub preview_max_bytes: usize,
    pub loupe_items: usize,
    pub loupe_bytes: usize,
    pub loupe_max_bytes: usize,
}

impl CacheStats {
    /// Total items across the three tiers.
    pub fn total_items(&self) -> (r: usize)
        requires
            self.micro_items + self.preview_items + self.loupe_items <= usize::MAX,
        ensures
            r == self.micro_items + self.preview_items + self.loupe_items,
    {
        self.micro_items + self.preview_items + self.loupe_items
    }

    /// Total stored bytes across the three tiers.
    pub fn total_bytes(&self) -> (r: usize)
        requires
            self.micro_bytes + self.preview_bytes + self.loupe_bytes <= usize::MAX,
        ensures
            r == self.micro_bytes + self.preview_bytes + self.loupe_bytes,
    {
        self.micro_bytes + self.preview_bytes + self.loupe_bytes
    }

    /// Total byte budget across the three tiers.
    pub fn total_max_bytes(&self) -> (r: usize)
        requires
            self.micro_max_bytes + self.preview_max_bytes + self.loupe_max_bytes <= usize::MAX,
        ensures
            r == self.micro_max_bytes + self.preview_max_bytes + self.loupe_max_bytes,
    {
        self.micro_max_bytes + self.preview_max_bytes + self.loupe_max_bytes
    }
}

/// Pairs each path of a batch with its per-item outcome: the batch result
/// has exactly one entry per path, in order, and a failed item never
/// disturbs its siblings' results.
pub fn collect_batch_results(
    paths: &Vec<String>,
    outcomes: Vec<Result<String, crate::errors::CacheError>>,
) -> (r: Vec<(String, Result<String, crate::errors::CacheError>)>)
    requires
        outcomes@.len() == paths@.len(),
    ensures
        r@.len() == paths@.len(),
        forall|i: int|
            0 <= i < r@.len() ==> (#[trigger] r@[i]).0@ == paths@[i]@ && r@[i].1 == outcomes@[i],
{
    let mut r: Vec<(String, Result<String, crate::errors::CacheError>)> = Vec::new();
    let n = paths.len();
    let mut outcomes = outcomes;
    let ghost outcomes0 = outcomes@;
    let mut i: usize = 0;
    while i < n
        invariant
            i <= n,
            n == paths@.len(),
            outcomes0.len() == n,
            outcomes@ =~= outcomes0.skip(i as int),
            r@.len() == i,
            forall|j: int|
                0 <= j < i ==> (#[trigger] r@[j]).0@ == paths@[j]@ && r@[j].1 == outcomes0[j],
        decreases n - i,
    {
        let path = paths[i].clone();
        let outcome = outcomes.remove(0);
        proof {
            assert(outcomes0.skip(i as int)[0] == outcomes0[i as int]);
            assert(outcomes0.skip(i as int).remove(0) =~= outcomes0.skip(i as int + 1));
        }
        r.push((path, outcome));
        i = i + 1;
    }
    r
}

/// How many of a batch's per-item outcomes are errors.
pub open spec fn count_errs(outcomes: Seq<Result<String, crate::errors::CacheError>>) -> int
    decreases outcomes.len(),
{
    if outcomes.len() == 0 {
        0
    } else {
        (if outcomes[0] is Err {
            1int
        } else {
            0int
        }) + count_errs(outcomes.drop_first())
    }
}

/// How many entries of a collected batch carry an error.
pub open spec fn count_errs_of_pairs(
    pairs: Seq<(String, Result<String, crate::errors::CacheError>)>,
) -> int
    decreases pairs.len(),
{
    if pairs.len() == 0 {
        0
    } else {
        (if pairs[0].1 is Err {
            1int
        } else {
            0int
        }) + count_errs_of_pairs(pairs.drop_first())
    }
}

/// Law: batch resilience. A collected batch carries exactly the per-item
/// outcomes it was given — one result per path — so it holds exactly as many
/// errors as items failed, and one item's failure never disturbs the batch.
pub proof fn lemma_batch_error_count(
    pairs: Seq<(String, Result<String, crate::errors::CacheError>)>,
    outcomes: Seq<Result<String, crate::errors::CacheError>>,
)
    requires
        pairs.len() == outcomes.len(),
        forall|i: int| 0 <= i < pairs.len() ==> (#[trigger] pairs[i]).1 == outcomes[i],
    ensures
        count_errs_of_pairs(pairs) == count_errs(outcomes),
    decreases pairs.len(),
{
    if pairs.len() == 0 {
    } else {
        assert(pairs[0].1 == outcomes[0]);
        assert(forall|i: int|
            0 <= i < pairs.drop_first().len() ==> (#[trigger] pairs.drop_first()[i]).1
                == outcomes.drop_first()[i]);
        lemma_batch_error_count(pairs.drop_first(), outcomes.drop_first());
    }
}

} // verus!
