//! A byte-budgeted LRU cache keyed by strings.
//!
//! The cache tracks each entry's byte size and a monotone logical access
//! time, and evicts least-recently-used entries whenever the stored bytes
//! exceed the configured budget — except that the most recent entry is never
//! evicted, so a single oversized insert is kept (briefly exceeding the
//! budget) rather than rejected.

use vstd::prelude::*;

verus! {

/// The mathematical view of one cache entry.
pub struct EntryModel {
    pub key: Seq<char>,
    pub value: Seq<u8>,
    pub size: nat,
    pub ordinal: nat,
}

/// The mathematical view of the whole cache.
pub struct LruModel {
    pub entries: Seq<EntryModel>,
    pub total: nat,
    pub max: nat,
    pub counter: nat,
}

/// Sum of the tracked byte sizes of all entries.
pub open spec fn sum_sizes(entries: Seq<EntryModel>) -> nat
    decreases entries.len(),
{
    if entries.len() == 0 {
        0
    } else {
        entries[0].size + sum_sizes(entries.drop_first())
    }
}

/// The largest tracked byte size among the entries; zero when empty.
pub open spec fn largest_size(entries: Seq<EntryModel>) -> nat
    decreases entries.len(),
{
    if entries.len() == 0 {
        0
    } else if entries[0].size >= largest_size(entries.drop_first()) {
        entries[0].size
    } else {
        largest_size(entries.drop_first())
    }
}

/// Index of the least-recently-used entry: the first entry with the lowest
/// access ordinal.
pub open spec fn min_ordinal_index(entries: Seq<EntryModel>) -> int
    decreases entries.len(),
{
    if entries.len() <= 1 {
        0
    } else {
        let r = min_ordinal_index(entries.drop_last());
        if entries.last().ordinal < entries[r].ordinal {
            entries.len() - 1
        } else {
            r
        }
    }
}

impl LruModel {
    /// Whether some entry holds this key.
    pub open spec fn has_key(self, k: Seq<char>) -> bool {
        exists|i: int| 0 <= i < self.entries.len() && self.entries[i].key == k
    }

    /// The index of the entry holding this key; meaningful under `wf`, where
    /// keys are unique.
    pub open spec fn index_of(self, k: Seq<char>) -> int {
        choose|i: int| 0 <= i < self.entries.len() && self.entries[i].key == k
    }

    /// The stored value for this key, if any.
    pub open spec fn lookup(self, k: Seq<char>) -> Option<Seq<u8>> {
        if self.has_key(k) {
            Some(self.entries[self.index_of(k)].value)
        } else {
            None
        }
    }

    /// Well-formedness: keys are unique, the byte total is the sum of the
    /// entries' sizes, ordinals never exceed the access counter, and the
    /// total respects the budget except for a single oversized entry.
    pub open spec fn wf(self) -> bool {
        &&& forall|i: int, j: int|
            0 <= i < j < self.entries.len() ==> self.entries[i].key != self.entries[j].key
        &&& self.total == sum_sizes(self.entries)
        &&& forall|i: int| 0 <= i < self.entries.len() ==> self.entries[i].ordinal <= self.counter
        &&& self.counter <= u64::MAX
        &&& self.max <= usize::MAX
        &&& (self.entries.len() > 0 ==> self.total <= max_nat(
            self.max,
            largest_size(self.entries),
        ))
    }
}

/// The larger of two naturals.
pub open spec fn max_nat(a: nat, b: nat) -> nat {
    if a >= b {
        a
    } else {
        b
    }
}

/// The access counter after one more operation: it increases by one and
/// saturates at the largest representable value.
pub open spec fn spec_bump(c: nat) -> nat {
    if c < u64::MAX {
        c + 1
    } else {
        c
    }
}

/// The model of a freshly created cache with the given byte budget.
pub open spec fn spec_new_lru(max: nat) -> LruModel {
    LruModel { entries: Seq::empty(), total: 0, max: max, counter: 0 }
}

/// The state after a `get`: on a hit, the access counter advances and the
/// entry is restamped with it; on a miss, nothing changes.
pub open spec fn spec_touch(m: LruModel, k: Seq<char>) -> LruModel {
    if m.has_key(k) {
        let i = m.index_of(k);
        let c = spec_bump(m.counter);
        let e = m.entries[i];
        LruModel {
            entries: m.entries.update(
                i,
                EntryModel { key: e.key, value: e.value, size: e.size, ordinal: c },
            ),
            total: m.total,
            max: m.max,
            counter: c,
        }
    } else {
        m
    }
}

/// Removes the least-recently-used entry and subtracts its size.
pub open spec fn spec_evict_one(m: LruModel) -> LruModel {
    let i = min_ordinal_index(m.entries);
    LruModel {
        entries: m.entries.remove(i),
        total: (m.total - m.entries[i].size) as nat,
        max: m.max,
        counter: m.counter,
    }
}

/// Evicts least-recently-used entries while the total exceeds the budget and
/// more than one entry remains; `fuel` bounds the recursion and is in
/// practice the number of entries.
pub open spec fn spec_evict_fuel(m: LruModel, fuel: nat) -> LruModel
    decreases fuel,
{
    if fuel == 0 {
        m
    } else if m.total > m.max && m.entries.len() > 1 {
        spec_evict_fuel(spec_evict_one(m), (fuel - 1) as nat)
    } else {
        m
    }
}

/// Evicts least-recently-used entries until the total fits the budget or one
/// entry remains.
pub open spec fn spec_evict(m: LruModel) -> LruModel {
    spec_evict_fuel(m, m.entries.len())
}

/// The state after an insert: the access counter advances; an existing key's
/// entry is replaced in place, a new key is appended; the total is the sum
/// of the resulting sizes; then eviction brings the total back under the
/// budget, keeping at least the newest entry.
pub open spec fn spec_insert(m: LruModel, k: Seq<char>, v: Seq<u8>, sz: nat) -> LruModel {
    let c = spec_bump(m.counter);
    let e = EntryModel { key: k, value: v, size: sz, ordinal: c };
    let entries1 = if m.has_key(k) {
        m.entries.update(m.index_of(k), e)
    } else {
        m.entries.push(e)
    };
    spec_evict(
        LruModel { entries: entries1, total: sum_sizes(entries1), max: m.max, counter: c },
    )
}

/// One stored entry: a key, its value bytes, the tracked byte size, and the
/// logical access time stamp.
struct LruEntry {
    key: String,
    value: Vec<u8>,
    size: usize,
    ordinal: u64,
}

impl View for LruEntry {
    type V = EntryModel;

    closed spec fn view(&self) -> EntryModel {
        EntryModel {
            key: self.key@,
            value: self.value@,
            size: self.size as nat,
            ordinal: self.ordinal as nat,
        }
    }
}

/// A byte-budgeted LRU cache with string keys and byte-vector values.
pub struct LruCache {
    entries: Vec<LruEntry>,
    total_bytes: usize,
    max_bytes: usize,
    access_counter: u64,
}

impl View for LruCache {
    type V = LruModel;

    closed spec fn view(&self) -> LruModel {
        LruModel {
            entries: Seq::new(self.entries@.len(), |i: int| self.entries@[i]@),
            total: self.total_bytes as nat,
            max: self.max_bytes as nat,
            counter: self.access_counter as nat,
        }
    }
}

impl LruCache {
    /// Creates an empty cache with the given byte budget.
    pub fn new(max_bytes: usize) -> (r: Self)
        ensures
            r@ == spec_new_lru(max_bytes as nat),
            r@.wf(),
    {
        let r = LruCache { entries: Vec::new(), total_bytes: 0, max_bytes, access_counter: 0 };
        proof {
            assert(r@.entries =~= Seq::<EntryModel>::empty());
            assert(r@ == spec_new_lru(max_bytes as nat));
        }
        r
    }

    /// The bytes currently tracked by the cache.
    pub fn total_bytes(&self) -> (r: usize)
        ensures
            r as nat == self@.total,
    {
        self.total_bytes
    }

    /// The configured byte budget.
    pub fn max_bytes(&self) -> (r: usize)
        ensures
            r as nat == self@.max,
    {
        self.max_bytes
    }

    /// The number of stored entries.
    pub fn len(&self) -> (r: usize)
        ensures
            r as nat == self@.entries.len(),
    {
        self.entries.len()
    }

    /// Whether the cache holds no entries.
    pub fn is_empty(&self) -> (r: bool)
        ensures
            r == (self@.entries.len() == 0),
    {
        self.entries.len() == 0
    }

    /// Removes every entry and resets the byte total and the access counter.
    pub fn clear(&mut self)
        ensures
            final(self)@ == spec_new_lru(old(self)@.max),
            final(self)@.wf(),
    {
        self.entries.clear();
        self.total_bytes = 0;
        self.access_counter = 0;
        proof {
            assert(self@.entries =~= Seq::<EntryModel>::empty());
            assert(self@ == spec_new_lru(old(self)@.max));
        }
    }

    /// Advances the access counter, saturating at the largest value.
    fn bump_counter(&mut self)
        ensures
            final(self).access_counter as nat == spec_bump(old(self).access_counter as nat),
            final(self).entries == old(self).entries,
            final(self).total_bytes == old(self).total_bytes,
            final(self).max_bytes == old(self).max_bytes,
    {
        if self.access_counter < u64::MAX {
            self.access_counter = self.access_counter + 1;
        }
    }

    /// The index of the entry holding `key`, scanning from the front.
    fn find_index(&self, key: &String) -> (r: Option<usize>)
        ensures
            match r {
                Some(i) => i < self@.entries.len() && self@.entries[i as int].key == key@,
                None => !self@.has_key(key@),
            },
    {
        let n = self.entries.len();
        let mut i: usize = 0;
        while i < n
            invariant
                n == self@.entries.len(),
                i <= n,
                forall|j: int| 0 <= j < i ==> self@.entries[j].key != key@,
            decreases n - i,
        {
            if self.entries[i].key == *key {
                return Some(i);
            }
            i = i + 1;
        }
        None
    }

    /// Looks a key up; on a hit, returns a copy of the stored value and
    /// restamps the entry as most recently used.
    pub fn get(&mut self, key: &str) -> (r: Option<Vec<u8>>)
        requires
            old(self)@.wf(),
        ensures
            final(self)@ == spec_touch(old(self)@, key@),
            final(self)@.wf(),
            r is Some <==> old(self)@.has_key(key@),
            match r {
                Some(v) => old(self)@.lookup(key@) == Some(v@),
                None => old(self)@.lookup(key@) is None,
            },
    {
        let key_owned: String = key.to_owned();
        let found = self.find_index(&key_owned);
        match found {
            Some(i) => {
                self.bump_counter();
                let c = self.access_counter;
                let entry = &self.entries[i];
                let result: Vec<u8> = clone_bytes(&entry.value);
                let new_entry = LruEntry {
                    key: entry.key.clone(),
                    value: clone_bytes(&entry.value),
                    size: entry.size,
                    ordinal: c,
                };
                self.entries.set(i, new_entry);
                proof {
                    let m = old(self)@;
                    assert(m.has_key(key@));
                    lemma_unique_index(m, key@, i as int);
                    lemma_sum_update_same_size(m.entries, i as int, self@.entries[i as int]);
                    lemma_largest_update_same_size(m.entries, i as int, self@.entries[i as int]);
                    assert(self@.entries =~= spec_touch(m, key@).entries);
                    assert(self@ == spec_touch(m, key@));
                    lemma_touch_preserves_wf(m, key@);
                }
                Some(result)
            },
            None => {
                proof {
                    assert(self@ == spec_touch(old(self)@, key@));
                }
                None
            },
        }
    }
}

/// The entry models of a vector of stored entries.
spec fn entries_view(v: Seq<LruEntry>) -> Seq<EntryModel> {
    Seq::new(v.len(), |i: int| v[i]@)
}

impl LruCache {
    /// Stores a value under a key with its tracked byte size. An existing
    /// key's entry is replaced, with the total adjusted by the size
    /// difference; a new entry is appended. Afterwards the least-recently-used
    /// entries are evicted while the total exceeds the budget, but the entry
    /// just inserted is never evicted: a single oversized insert is kept over
    /// budget rather than rejected.
    #[verifier::spinoff_prover]
    #[verifier::rlimit(30)]
    pub fn insert(&mut self, key: String, value: Vec<u8>, byte_size: usize)
        requires
            old(self)@.wf(),
        ensures
            final(self)@ == spec_insert(old(self)@, key@, value@, byte_size as nat),
            final(self)@.wf(),
    {
        let ghost m0 = old(self)@;
        let ghost kview = key@;
        let ghost vview = value@;
        self.bump_counter();
        let c: u64 = self.access_counter;
        proof {
            assert(entries_view(self.entries@) =~= m0.entries);
        }
        let found = self.find_index(&key);
        let total_before: usize = self.total_bytes;
        let mut wide: u128;
        match found {
            Some(i) => {
                proof {
                    lemma_unique_index(m0, kview, i as int);
                    lemma_sum_ge_element(m0.entries, i as int);
                }
                let old_size: usize = self.entries[i].size;
                self.entries.set(
                    i,
                    LruEntry { key: key, value: value, size: byte_size, ordinal: c },
                );
                wide = total_before as u128 - old_size as u128 + byte_size as u128;
                proof {
                    let e = EntryModel {
                        key: kview,
                        value: vview,
                        size: byte_size as nat,
                        ordinal: c as nat,
                    };
                    assert(entries_view(self.entries@) =~= m0.entries.update(i as int, e));
                    lemma_sum_update(m0.entries, i as int, e);
                }
            },
            None => {
                self.entries.push(LruEntry { key: key, value: value, size: byte_size, ordinal: c });
                wide = total_before as u128 + byte_size as u128;
                proof {
                    let e = EntryModel {
                        key: kview,
                        value: vview,
                        size: byte_size as nat,
                        ordinal: c as nat,
                    };
                    assert(entries_view(self.entries@) =~= m0.entries.push(e));
                    lemma_sum_push(m0.entries, e);
                }
            },
        }
        let ghost m1 = LruModel {
            entries: entries_view(self.entries@),
            total: wide as nat,
            max: m0.max,
            counter: c as nat,
        };
        proof {
            assert(sum_sizes(m1.entries) == wide as nat);
            assert(forall|p: int, q: int|
                0 <= p < q < m1.entries.len() ==> m1.entries[p].key != m1.entries[q].key);
            assert(forall|j: int| 0 <= j < m1.entries.len() ==> m1.entries[j].ordinal <= c as nat);
        }
        let max = self.max_bytes;
        while wide > max as u128 && self.entries.len() > 1
            invariant
                self.max_bytes == max,
                max as nat == m0.max,
                self.access_counter == c,
                c as nat == spec_bump(m0.counter),
                self.entries@.len() >= 1,
                sum_sizes(entries_view(self.entries@)) == wide as nat,
                forall|p: int, q: int|
                    0 <= p < q < self.entries@.len() ==> entries_view(self.entries@)[p].key
                        != entries_view(self.entries@)[q].key,
                forall|j: int|
                    0 <= j < self.entries@.len() ==> entries_view(self.entries@)[j].ordinal <= c
                        as nat,
                spec_evict(m1) == spec_evict(
                    LruModel {
                        entries: entries_view(self.entries@),
                        total: wide as nat,
                        max: m0.max,
                        counter: c as nat,
                    },
                ),
            decreases self.entries@.len(),
        {
            let ghost pre = LruModel {
                entries: entries_view(self.entries@),
                total: wide as nat,
                max: m0.max,
                counter: c as nat,
            };
            let j = find_min_ordinal(&self.entries);
            proof {
                lemma_min_ordinal_in_range(entries_view(self.entries@));
                lemma_sum_ge_element(entries_view(self.entries@), j as int);
            }
            let removed = self.entries.remove(j);
            wide = wide - removed.size as u128;
            proof {
                let post = LruModel {
                    entries: entries_view(self.entries@),
                    total: wide as nat,
                    max: m0.max,
                    counter: c as nat,
                };
                assert(entries_view(self.entries@) =~= pre.entries.remove(j as int));
                lemma_sum_remove(pre.entries, j as int);
                pre.entries.remove_ensures(j as int);
                assert(spec_evict_one(pre) == post);
                // unfold one eviction step of the fuel recursion
                assert(spec_evict_fuel(pre, pre.entries.len()) == spec_evict_fuel(
                    post,
                    post.entries.len(),
                ));
                assert(forall|p: int, q: int|
                    0 <= p < q < post.entries.len() ==> post.entries[p].key
                        != post.entries[q].key);
            }
        }
        proof {
            let cur = LruModel {
                entries: entries_view(self.entries@),
                total: wide as nat,
                max: m0.max,
                counter: c as nat,
            };
            assert(spec_evict_fuel(cur, cur.entries.len()) == cur);
            assert(spec_evict(m1) == cur);
            assert(spec_insert(m0, kview, vview, byte_size as nat) == cur);
            if wide > max as u128 {
                assert(cur.entries.len() == 1);
                assert(sum_sizes(cur.entries) == cur.entries[0].size + sum_sizes(
                    cur.entries.drop_first(),
                ));
                assert(cur.entries.drop_first().len() == 0);
                assert(wide as nat == cur.entries[0].size);
                assert(cur.entries[0].size == self.entries@[0]@.size);
                assert(wide <= usize::MAX as u128);
                assert(largest_size(cur.entries.drop_first()) == 0);
                assert(largest_size(cur.entries) == cur.entries[0].size);
            } else {
                assert(wide <= usize::MAX as u128);
            }
        }
        self.total_bytes = wide as usize;
        proof {
            let cur = LruModel {
                entries: entries_view(self.entries@),
                total: wide as nat,
                max: m0.max,
                counter: c as nat,
            };
            assert(self@ =~= cur);
            assert(self@.wf());
        }
    }
}

/// The index of the first entry with the lowest access ordinal.
fn find_min_ordinal(entries: &Vec<LruEntry>) -> (r: usize)
    requires
        entries@.len() > 0,
    ensures
        r < entries@.len(),
        r as int == min_ordinal_index(entries_view(entries@)),
{
    let n = entries.len();
    let mut best: usize = 0;
    let mut i: usize = 1;
    proof {
        assert(entries_view(entries@).take(1).len() == 1);
        assert(min_ordinal_index(entries_view(entries@).take(1)) == 0);
    }
    while i < n
        invariant
            n == entries@.len(),
            1 <= i <= n,
            best < i,
            best as int == min_ordinal_index(entries_view(entries@).take(i as int)),
        decreases n - i,
    {
        proof {
            let ev = entries_view(entries@);
            assert(ev.take(i as int + 1).drop_last() =~= ev.take(i as int));
            assert(ev.take(i as int + 1).last() == ev[i as int]);
            assert(ev.take(i as int)[best as int] == ev[best as int]);
        }
        if entries[i].ordinal < entries[best].ordinal {
            best = i;
        }
        i = i + 1;
    }
    proof {
        assert(entries_view(entries@).take(n as int) =~= entries_view(entries@));
    }
    best
}

/// The least-recently-used index is in range and holds the smallest ordinal.
proof fn lemma_min_ordinal_in_range(entries: Seq<EntryModel>)
    requires
        entries.len() > 0,
    ensures
        0 <= min_ordinal_index(entries) < entries.len(),
        forall|j: int|
            0 <= j < entries.len() ==> entries[min_ordinal_index(entries)].ordinal <= (
            #[trigger] entries[j]).ordinal,
    decreases entries.len(),
{
    if entries.len() == 1 {
    } else {
        lemma_min_ordinal_in_range(entries.drop_last());
        let r = min_ordinal_index(entries.drop_last());
        assert(forall|j: int|
            0 <= j < entries.len() - 1 ==> entries.drop_last()[j] == entries[j]);
        assert(entries.last() == entries[entries.len() - 1]);
    }
}

/// A copy of a byte vector with the same contents.
pub(crate) fn clone_bytes(v: &Vec<u8>) -> (r: Vec<u8>)
    ensures
        r@ == v@,
{
    let r = v.clone();
    proof {
        assert(r@ =~= v@);
    }
    r
}

/// The sum of entry sizes is at least any single entry's size.
proof fn lemma_sum_ge_element(entries: Seq<EntryModel>, i: int)
    requires
        0 <= i < entries.len(),
    ensures
        sum_sizes(entries) >= entries[i].size,
    decreases entries.len(),
{
    if i == 0 {
    } else {
        lemma_sum_ge_element(entries.drop_first(), i - 1);
    }
}

/// Replacing an entry adjusts the size sum by the difference of the sizes.
proof fn lemma_sum_update(entries: Seq<EntryModel>, i: int, e: EntryModel)
    requires
        0 <= i < entries.len(),
    ensures
        sum_sizes(entries.update(i, e)) + entries[i].size == sum_sizes(entries) + e.size,
    decreases entries.len(),
{
    if i == 0 {
        assert(entries.update(0, e).drop_first() =~= entries.drop_first());
    } else {
        assert(entries.update(i, e).drop_first() =~= entries.drop_first().update(i - 1, e));
        lemma_sum_update(entries.drop_first(), i - 1, e);
    }
}

/// Replacing an entry with one of equal size keeps the size sum.
proof fn lemma_sum_update_same_size(entries: Seq<EntryModel>, i: int, e: EntryModel)
    requires
        0 <= i < entries.len(),
        e.size == entries[i].size,
    ensures
        sum_sizes(entries.update(i, e)) == sum_sizes(entries),
{
    lemma_sum_update(entries, i, e);
}

/// Appending an entry adds its size to the size sum.
proof fn lemma_sum_push(entries: Seq<EntryModel>, e: EntryModel)
    ensures
        sum_sizes(entries.push(e)) == sum_sizes(entries) + e.size,
    decreases entries.len(),
{
    if entries.len() == 0 {
        assert(entries.push(e).drop_first() =~= Seq::<EntryModel>::empty());
        assert(entries.push(e)[0] == e);
        assert(sum_sizes(entries.push(e)) == e.size + sum_sizes(entries.push(e).drop_first()));
    } else {
        assert(entries.push(e).drop_first() =~= entries.drop_first().push(e));
        lemma_sum_push(entries.drop_first(), e);
        assert(entries.push(e)[0] == entries[0]);
        assert(sum_sizes(entries.push(e)) == entries[0].size + sum_sizes(
            entries.push(e).drop_first(),
        ));
    }
}

/// Removing an entry subtracts its size from the size sum.
proof fn lemma_sum_remove(entries: Seq<EntryModel>, i: int)
    requires
        0 <= i < entries.len(),
    ensures
        sum_sizes(entries.remove(i)) + entries[i].size == sum_sizes(entries),
    decreases entries.len(),
{
    if i == 0 {
        assert(entries.remove(0) =~= entries.drop_first());
    } else {
        assert(entries.remove(i).drop_first() =~= entries.drop_first().remove(i - 1));
        lemma_sum_remove(entries.drop_first(), i - 1);
    }
}

/// Replacing an entry with one of equal size keeps the largest size.
proof fn lemma_largest_update_same_size(entries: Seq<EntryModel>, i: int, e: EntryModel)
    requires
        0 <= i < entries.len(),
        e.size == entries[i].size,
    ensures
        largest_size(entries.update(i, e)) == largest_size(entries),
    decreases entries.len(),
{
    if i == 0 {
        assert(entries.update(0, e).drop_first() =~= entries.drop_first());
    } else {
        assert(entries.update(i, e).drop_first() =~= entries.drop_first().update(i - 1, e));
        lemma_largest_update_same_size(entries.drop_first(), i - 1, e);
    }
}

/// Under unique keys, an index holding `k` is the chosen `index_of(k)`.
proof fn lemma_unique_index(m: LruModel, k: Seq<char>, i: int)
    requires
        forall|p: int, q: int|
            0 <= p < q < m.entries.len() ==> m.entries[p].key != m.entries[q].key,
        0 <= i < m.entries.len(),
        m.entries[i].key == k,
    ensures
        m.has_key(k),
        m.index_of(k) == i,
{
    assert(m.has_key(k));
    let j = m.index_of(k);
    assert(0 <= j < m.entries.len() && m.entries[j].key == k);
    if i < j {
        assert(m.entries[i].key != m.entries[j].key);
    } else if j < i {
        assert(m.entries[j].key != m.entries[i].key);
    }
}

/// Replacing an entry keeps the largest size at most the larger of the old
/// largest size and the new entry's size.
proof fn lemma_largest_update_le(entries: Seq<EntryModel>, i: int, e: EntryModel)
    requires
        0 <= i < entries.len(),
    ensures
        largest_size(entries.update(i, e)) <= max_nat(largest_size(entries), e.size),
    decreases entries.len(),
{
    if i == 0 {
        assert(entries.update(0, e).drop_first() =~= entries.drop_first());
        assert(entries.update(0, e)[0] == e);
        assert(largest_size(entries) >= largest_size(entries.drop_first()));
    } else {
        assert(entries.update(i, e).drop_first() =~= entries.drop_first().update(i - 1, e));
        lemma_largest_update_le(entries.drop_first(), i - 1, e);
        assert(entries.update(i, e)[0] == entries[0]);
    }
}

/// Appending an entry keeps the largest size at most the larger of the old
/// largest size and the new entry's size.
proof fn lemma_largest_push_le(entries: Seq<EntryModel>, e: EntryModel)
    ensures
        largest_size(entries.push(e)) <= max_nat(largest_size(entries), e.size),
    decreases entries.len(),
{
    if entries.len() == 0 {
        assert(entries.push(e).drop_first() =~= Seq::<EntryModel>::empty());
        assert(entries.push(e)[0] == e);
        assert(largest_size(Seq::<EntryModel>::empty()) == 0);
    } else {
        assert(entries.push(e).drop_first() =~= entries.drop_first().push(e));
        lemma_largest_push_le(entries.drop_first(), e);
        assert(entries.push(e)[0] == entries[0]);
        assert(largest_size(entries) == if entries[0].size >= largest_size(entries.drop_first()) {
            entries[0].size
        } else {
            largest_size(entries.drop_first())
        });
        assert(largest_size(entries.push(e)) == if entries[0].size >= largest_size(
            entries.drop_first().push(e),
        ) {
            entries[0].size
        } else {
            largest_size(entries.drop_first().push(e))
        });
    }
}

/// Removing an entry never increases the largest size.
proof fn lemma_largest_remove_le(entries: Seq<EntryModel>, i: int)
    requires
        0 <= i < entries.len(),
    ensures
        largest_size(entries.remove(i)) <= largest_size(entries),
    decreases entries.len(),
{
    if i == 0 {
        assert(entries.remove(0) =~= entries.drop_first());
    } else {
        assert(entries.remove(i).drop_first() =~= entries.drop_first().remove(i - 1));
        lemma_largest_remove_le(entries.drop_first(), i - 1);
    }
}

/// Eviction preserves the structural invariants, never increases the largest
/// entry size, and — given enough fuel — ends with the total either within
/// the budget or equal to the single remaining entry's size.
proof fn lemma_evict_fuel_props(m: LruModel, fuel: nat)
    requires
        m.total == sum_sizes(m.entries),
        forall|p: int, q: int|
            0 <= p < q < m.entries.len() ==> m.entries[p].key != m.entries[q].key,
        forall|j: int| 0 <= j < m.entries.len() ==> m.entries[j].ordinal <= m.counter,
        m.entries.len() >= 1,
        fuel >= m.entries.len(),
    ensures
        ({
            let r = spec_evict_fuel(m, fuel);
            &&& r.max == m.max
            &&& r.counter == m.counter
            &&& r.total == sum_sizes(r.entries)
            &&& forall|p: int, q: int|
                0 <= p < q < r.entries.len() ==> r.entries[p].key != r.entries[q].key
            &&& forall|j: int| 0 <= j < r.entries.len() ==> r.entries[j].ordinal <= r.counter
            &&& r.entries.len() >= 1
            &&& largest_size(r.entries) <= largest_size(m.entries)
            &&& r.total <= max_nat(m.max, largest_size(r.entries))
        }),
    decreases fuel,
{
    if m.total > m.max && m.entries.len() > 1 {
        lemma_min_ordinal_in_range(m.entries);
        let i = min_ordinal_index(m.entries);
        let m2 = spec_evict_one(m);
        lemma_sum_remove(m.entries, i);
        m.entries.remove_ensures(i);
        lemma_largest_remove_le(m.entries, i);
        assert(forall|p: int, q: int|
            0 <= p < q < m2.entries.len() ==> m2.entries[p].key != m2.entries[q].key);
        assert(forall|j: int| 0 <= j < m2.entries.len() ==> m2.entries[j].ordinal <= m2.counter);
        lemma_evict_fuel_props(m2, (fuel - 1) as nat);
    } else {
        if m.total > m.max {
            assert(m.entries.len() == 1);
            assert(sum_sizes(m.entries.drop_first()) == 0);
            assert(m.total == m.entries[0].size);
            assert(largest_size(m.entries.drop_first()) == 0);
            assert(largest_size(m.entries) == m.entries[0].size);
        }
    }
}

/// Law: budget invariant. An insert into a well-formed cache keeps it
/// well-formed — in particular the tracked byte total always equals the sum
/// of the retained entries' sizes — and the new total never exceeds the
/// larger of the byte budget and the largest single entry seen so far (the
/// largest already-retained entry or the one just inserted).
pub proof fn lemma_insert_budget(m: LruModel, k: Seq<char>, v: Seq<u8>, sz: nat)
    requires
        m.wf(),
    ensures
        ({
            let r = spec_insert(m, k, v, sz);
            &&& r.wf()
            &&& r.max == m.max
            &&& r.total == sum_sizes(r.entries)
            &&& r.total <= max_nat(m.max, max_nat(largest_size(m.entries), sz))
        }),
{
    let c = spec_bump(m.counter);
    let e = EntryModel { key: k, value: v, size: sz, ordinal: c };
    let entries1 = if m.has_key(k) {
        m.entries.update(m.index_of(k), e)
    } else {
        m.entries.push(e)
    };
    let m1 = LruModel { entries: entries1, total: sum_sizes(entries1), max: m.max, counter: c };
    if m.has_key(k) {
        let i = m.index_of(k);
        assert(0 <= i < m.entries.len() && m.entries[i].key == k);
        lemma_largest_update_le(m.entries, i, e);
        assert(forall|p: int, q: int|
            0 <= p < q < entries1.len() ==> entries1[p].key != entries1[q].key);
    } else {
        lemma_largest_push_le(m.entries, e);
        assert(entries1[entries1.len() - 1] == e);
        assert(forall|p: int, q: int|
            0 <= p < q < entries1.len() ==> entries1[p].key != entries1[q].key);
    }
    assert(forall|j: int| 0 <= j < entries1.len() ==> entries1[j].ordinal <= c);
    assert(entries1.len() >= 1);
    lemma_evict_fuel_props(m1, m1.entries.len());
    let r = spec_evict_fuel(m1, m1.entries.len());
    assert(largest_size(r.entries) <= largest_size(entries1));
    assert(largest_size(entries1) <= max_nat(largest_size(m.entries), sz));
}

/// Eviction never removes the entry with the strictly greatest ordinal: the
/// entry survives in the result, still with the strictly greatest ordinal.
proof fn lemma_evict_keeps_newest(m: LruModel, fuel: nat, t: int)
    requires
        m.total == sum_sizes(m.entries),
        forall|p: int, q: int|
            0 <= p < q < m.entries.len() ==> m.entries[p].key != m.entries[q].key,
        0 <= t < m.entries.len(),
        forall|j: int|
            0 <= j < m.entries.len() && j != t ==> (#[trigger] m.entries[j]).ordinal
                < m.entries[t].ordinal,
        fuel >= m.entries.len(),
    ensures
        exists|t2: int|
            {
                &&& 0 <= t2 < spec_evict_fuel(m, fuel).entries.len()
                &&& #[trigger] spec_evict_fuel(m, fuel).entries[t2] == m.entries[t]
                &&& forall|j: int|
                    0 <= j < spec_evict_fuel(m, fuel).entries.len() && j != t2 ==> (
                    #[trigger] spec_evict_fuel(m, fuel).entries[j]).ordinal < spec_evict_fuel(
                        m,
                        fuel,
                    ).entries[t2].ordinal
            },
    decreases fuel,
{
    if m.total > m.max && m.entries.len() > 1 {
        lemma_min_ordinal_in_range(m.entries);
        let i = min_ordinal_index(m.entries);
        // some other entry has a smaller ordinal, so the minimum is not `t`
        if m.entries.len() > 1 {
            let witness: int = if t == 0 {
                1
            } else {
                0
            };
            assert(m.entries[witness].ordinal < m.entries[t].ordinal);
            assert(m.entries[i].ordinal <= m.entries[witness].ordinal);
            assert(i != t);
        }
        let m2 = spec_evict_one(m);
        lemma_sum_remove(m.entries, i);
        m.entries.remove_ensures(i);
        let t1: int = if t < i {
            t
        } else {
            t - 1
        };
        assert(m2.entries[t1] == m.entries[t]);
        assert(forall|p: int, q: int|
            0 <= p < q < m2.entries.len() ==> m2.entries[p].key != m2.entries[q].key);
        assert(forall|j: int|
            0 <= j < m2.entries.len() && j != t1 ==> (#[trigger] m2.entries[j]).ordinal
                < m2.entries[t1].ordinal);
        lemma_evict_keeps_newest(m2, (fuel - 1) as nat, t1);
        let r = spec_evict_fuel(m2, (fuel - 1) as nat);
        assert(spec_evict_fuel(m, fuel) == r);
    } else {
        let r = spec_evict_fuel(m, fuel);
        assert(r == m);
        assert(0 <= t < r.entries.len() && r.entries[t] == m.entries[t]);
    }
}

/// Law: write-through visibility. As long as the access counter has not
/// saturated, a value just stored in a well-formed cache is readable under
/// its key afterwards: the entry inserted last is never the one evicted,
/// even when it alone exceeds the budget.
pub proof fn lemma_insert_then_lookup(m: LruModel, k: Seq<char>, v: Seq<u8>, sz: nat)
    requires
        m.wf(),
        m.counter < u64::MAX,
    ensures
        spec_insert(m, k, v, sz).lookup(k) == Some(v),
{
    let c = spec_bump(m.counter);
    let e = EntryModel { key: k, value: v, size: sz, ordinal: c };
    let entries1 = if m.has_key(k) {
        m.entries.update(m.index_of(k), e)
    } else {
        m.entries.push(e)
    };
    let m1 = LruModel { entries: entries1, total: sum_sizes(entries1), max: m.max, counter: c };
    let t: int = if m.has_key(k) {
        m.index_of(k)
    } else {
        m.entries.len() as int
    };
    if m.has_key(k) {
        let i = m.index_of(k);
        assert(0 <= i < m.entries.len() && m.entries[i].key == k);
        assert(forall|p: int, q: int|
            0 <= p < q < entries1.len() ==> entries1[p].key != entries1[q].key);
    } else {
        assert(entries1[entries1.len() - 1] == e);
        assert(forall|p: int, q: int|
            0 <= p < q < entries1.len() ==> entries1[p].key != entries1[q].key);
    }
    assert(entries1[t] == e);
    assert(forall|j: int|
        0 <= j < entries1.len() && j != t ==> (#[trigger] entries1[j]).ordinal < c);
    lemma_evict_keeps_newest(m1, m1.entries.len(), t);
    lemma_evict_fuel_props(m1, m1.entries.len());
    let r = spec_evict_fuel(m1, m1.entries.len());
    let t2 = choose|t2: int|
        {
            &&& 0 <= t2 < spec_evict_fuel(m1, m1.entries.len()).entries.len()
            &&& #[trigger] spec_evict_fuel(m1, m1.entries.len()).entries[t2] == m1.entries[t]
            &&& forall|j: int|
                0 <= j < spec_evict_fuel(m1, m1.entries.len()).entries.len() && j != t2 ==> (
                #[trigger] spec_evict_fuel(m1, m1.entries.len()).entries[j]).ordinal
                    < spec_evict_fuel(m1, m1.entries.len()).entries[t2].ordinal
        };
    assert(r.entries[t2] == e);
    lemma_unique_index(r, k, t2);
    assert(r.lookup(k) == Some(v));
    assert(spec_insert(m, k, v, sz) == r);
}

/// Law: recency. Starting from an empty cache whose budget admits three
/// five-byte entries and one fifteen-byte entry after a single eviction,
/// inserting distinct keys `a`, `b`, `c` (five bytes each), touching `a`
/// with a `get`, and then inserting a fifteen-byte entry under a fourth key
/// `d` evicts exactly `b` — the least recently used key — and keeps `a`
/// (with its original value), `c`, and `d`.
pub proof fn lemma_recency(
    a: Seq<char>,
    b: Seq<char>,
    c: Seq<char>,
    d: Seq<char>,
    va: Seq<u8>,
    vb: Seq<u8>,
    vc: Seq<u8>,
    vd: Seq<u8>,
    budget: nat,
)
    requires
        a != b,
        a != c,
        a != d,
        b != c,
        b != d,
        c != d,
        25 <= budget < 30,
        budget <= usize::MAX,
    ensures
        ({
            let m = spec_insert(
                spec_touch(
                    spec_insert(
                        spec_insert(spec_insert(spec_new_lru(budget), a, va, 5), b, vb, 5),
                        c,
                        vc,
                        5,
                    ),
                    a,
                ),
                d,
                vd,
                15,
            );
            &&& m.has_key(a) && m.has_key(c) && m.has_key(d)
            &&& !m.has_key(b)
            &&& m.lookup(a) == Some(va)
        }),
{
    let ea = EntryModel { key: a, value: va, size: 5, ordinal: 1 };
    let eb = EntryModel { key: b, value: vb, size: 5, ordinal: 2 };
    let ec = EntryModel { key: c, value: vc, size: 5, ordinal: 3 };
    let ea4 = EntryModel { key: a, value: va, size: 5, ordinal: 4 };
    let ed = EntryModel { key: d, value: vd, size: 15, ordinal: 5 };

    let m0 = spec_new_lru(budget);
    assert(!m0.has_key(a));
    let s1 = Seq::<EntryModel>::empty().push(ea);
    assert(s1 =~= seq![ea]);
    lemma_sum_push(Seq::<EntryModel>::empty(), ea);
    let m1 = LruModel { entries: seq![ea], total: 5, max: budget, counter: 1 };
    assert(spec_evict_fuel(m1, 1) == m1);
    assert(spec_insert(m0, a, va, 5) == m1);

    assert(!m1.has_key(b)) by {
        assert(forall|i: int| 0 <= i < 1 ==> seq![ea][i].key != b) by {
            assert(seq![ea][0].key == a);
        }
    }
    let s2 = seq![ea].push(eb);
    assert(s2 =~= seq![ea, eb]);
    lemma_sum_push(seq![ea], eb);
    assert(sum_sizes(seq![ea]) == 5) by {
        assert(seq![ea].drop_first() =~= Seq::<EntryModel>::empty());
    }
    let m2 = LruModel { entries: seq![ea, eb], total: 10, max: budget, counter: 2 };
    assert(spec_evict_fuel(m2, 2) == m2);
    assert(spec_insert(m1, b, vb, 5) == m2);

    assert(!m2.has_key(c)) by {
        assert(forall|i: int| 0 <= i < 2 ==> seq![ea, eb][i].key != c) by {
            assert(seq![ea, eb][0].key == a && seq![ea, eb][1].key == b);
        }
    }
    let s3 = seq![ea, eb].push(ec);
    assert(s3 =~= seq![ea, eb, ec]);
    lemma_sum_push(seq![ea, eb], ec);
    let m3 = LruModel { entries: seq![ea, eb, ec], total: 15, max: budget, counter: 3 };
    assert(spec_evict_fuel(m3, 3) == m3);
    assert(spec_insert(m2, c, vc, 5) == m3);

    // the get on `a` restamps its entry with the new counter
    assert(m3.entries[0].key == a);
    lemma_unique_index(m3, a, 0);
    let s4 = seq![ea, eb, ec].update(0, ea4);
    assert(s4 =~= seq![ea4, eb, ec]);
    let m4 = LruModel { entries: seq![ea4, eb, ec], total: 15, max: budget, counter: 4 };
    assert(spec_touch(m3, a) == m4);

    assert(!m4.has_key(d)) by {
        assert(forall|i: int| 0 <= i < 3 ==> seq![ea4, eb, ec][i].key != d) by {
            assert(seq![ea4, eb, ec][0].key == a && seq![ea4, eb, ec][1].key == b && seq![ea4, eb, ec][2].key
                == c);
        }
    }
    let s5 = seq![ea4, eb, ec].push(ed);
    assert(s5 =~= seq![ea4, eb, ec, ed]);
    lemma_sum_push(seq![ea4, eb, ec], ed);
    assert(sum_sizes(seq![ea4, eb, ec]) == 15) by {
        assert(seq![ea4, eb, ec][0] == ea4);
        assert(seq![eb, ec][0] == eb);
        assert(seq![ec][0] == ec);
        assert(seq![ea4, eb, ec].drop_first() =~= seq![eb, ec]);
        assert(seq![eb, ec].drop_first() =~= seq![ec]);
        assert(seq![ec].drop_first() =~= Seq::<EntryModel>::empty());
        assert(sum_sizes(Seq::<EntryModel>::empty()) == 0);
        assert(sum_sizes(seq![ec]) == 5);
        assert(sum_sizes(seq![eb, ec]) == 10);
    }
    let m5pre = LruModel { entries: seq![ea4, eb, ec, ed], total: 30, max: budget, counter: 5 };

    // the least-recently-used entry of the four is `b`, with ordinal 2
    assert(min_ordinal_index(seq![ea4, eb, ec, ed]) == 1) by {
        assert(seq![ea4, eb, ec, ed].drop_last() =~= seq![ea4, eb, ec]);
        assert(seq![ea4, eb, ec].drop_last() =~= seq![ea4, eb]);
        assert(seq![ea4, eb].drop_last() =~= seq![ea4]);
        assert(min_ordinal_index(seq![ea4]) == 0);
        assert(min_ordinal_index(seq![ea4, eb]) == 1);
        assert(min_ordinal_index(seq![ea4, eb, ec]) == 1);
    }
    let s6 = seq![ea4, eb, ec, ed].remove(1);
    assert(s6 =~= seq![ea4, ec, ed]);
    let m5 = LruModel { entries: seq![ea4, ec, ed], total: 25, max: budget, counter: 5 };
    assert(spec_evict_one(m5pre) == m5);
    assert(spec_evict_fuel(m5pre, 4) == spec_evict_fuel(m5, 3));
    assert(spec_evict_fuel(m5, 3) == m5);
    assert(spec_insert(m4, d, vd, 15) == m5);

    assert(m5.has_key(a)) by {
        assert(seq![ea4, ec, ed][0].key == a);
    }
    assert(m5.has_key(c)) by {
        assert(seq![ea4, ec, ed][1].key == c);
    }
    assert(m5.has_key(d)) by {
        assert(seq![ea4, ec, ed][2].key == d);
    }
    assert(!m5.has_key(b)) by {
        assert(forall|i: int| 0 <= i < 3 ==> seq![ea4, ec, ed][i].key != b) by {
            assert(seq![ea4, ec, ed][0].key == a && seq![ea4, ec, ed][1].key == c && seq![ea4, ec, ed][2].key
                == d);
        }
    }
    lemma_unique_index(m5, a, 0);
    assert(m5.lookup(a) == Some(va));
}

/// A `get` keeps the cache well-formed.
proof fn lemma_touch_preserves_wf(m: LruModel, k: Seq<char>)
    requires
        m.wf(),
    ensures
        spec_touch(m, k).wf(),
{
    if m.has_key(k) {
        let i = m.index_of(k);
        assert(0 <= i < m.entries.len() && m.entries[i].key == k);
        let c = spec_bump(m.counter);
        let e = m.entries[i];
        let e2 = EntryModel { key: e.key, value: e.value, size: e.size, ordinal: c };
        lemma_sum_update_same_size(m.entries, i, e2);
        lemma_largest_update_same_size(m.entries, i, e2);
        let m2 = spec_touch(m, k);
        assert(forall|p: int, q: int|
            0 <= p < q < m2.entries.len() ==> m2.entries[p].key != m2.entries[q].key);
    }
}

} // verus!
