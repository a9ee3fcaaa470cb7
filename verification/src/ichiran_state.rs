//! What an ichiran client keeps between requests: the cache of segments
//! already romanized, per query text, and the allocator of custom-entry
//! seqs; and how adding or deleting custom entries invalidates the cache.

use lru::LruCache;
use vstd::prelude::*;

use crate::dict::{CustomSeqAllocator, CUSTOM_SEQ_BASE};

verus! {

#[verifier::external_type_specification]
#[verifier::external_body]
#[verifier::reject_recursive_types(K)]
#[verifier::reject_recursive_types(V)]
#[verifier::reject_recursive_types(S)]
pub struct ExLruCache<K, V, S>(lru::LruCache<K, V, S>);

#[verifier::external_type_specification]
#[verifier::external_body]
pub struct ExLruHasher(lru::DefaultHasher);

/// The entries of a segment cache: query text to the segment's JSON text.
pub uninterp spec fn lru_entries(c: LruCache<String, String>) -> Map<Seq<char>, Seq<char>>;

/// The number of entries a segment cache was made to hold.
pub uninterp spec fn lru_capacity(c: LruCache<String, String>) -> nat;

/// `LruCache::new(cap)`: an empty cache holding at most `cap` entries.
#[verifier::external_body]
fn lru_new(cap: usize) -> (c: LruCache<String, String>)
    requires
        cap > 0,
    ensures
        lru_entries(c).dom() == Set::<Seq<char>>::empty(),
        lru_capacity(c) == cap,
{
    LruCache::new(std::num::NonZeroUsize::new(cap).unwrap())
}

/// `LruCache::get(k)`, cloned: the entry for `k`, if any. It only marks
/// the entry as recently used, so the entries stay as they are.
#[verifier::external_body]
fn lru_get(c: &mut LruCache<String, String>, k: &str) -> (r: Option<String>)
    ensures
        lru_entries(*final(c)) == lru_entries(*old(c)),
        lru_capacity(*final(c)) == lru_capacity(*old(c)),
        match r {
            Some(v) => lru_entries(*old(c)).contains_key(k@) && lru_entries(*old(c))[k@] == v@,
            None => !lru_entries(*old(c)).contains_key(k@),
        },
{
    c.get(k).cloned()
}

/// `LruCache::push(k, v)`: `k` now maps to `v`. When `k` was new and the
/// cache was full, one other entry (the least recently used) is evicted;
/// otherwise every other entry stays.
#[verifier::external_body]
fn lru_push(c: &mut LruCache<String, String>, k: String, v: String)
    ensures
        lru_capacity(*final(c)) == lru_capacity(*old(c)),
        ({
            let before = lru_entries(*old(c));
            let after = lru_entries(*final(c));
            ||| after == before.insert(k@, v@)
            ||| (!before.contains_key(k@) && before.len() == lru_capacity(*old(c)) && exists|e: Seq<char>|
                before.contains_key(e) && e != k@ && after == before.insert(k@, v@).remove(e))
        }),
{
    c.push(k, v);
}

/// `LruCache::clear()`: every entry is removed.
#[verifier::external_body]
fn lru_clear(c: &mut LruCache<String, String>)
    ensures
        lru_entries(*final(c)).dom() == Set::<Seq<char>>::empty(),
        lru_capacity(*final(c)) == lru_capacity(*old(c)),
{
    c.clear();
}

/// How many romanized segments the client keeps.
pub const SEGMENT_CACHE_CAPACITY: usize = 512;

/// The state an ichiran client keeps between requests.
pub struct IchiranState {
    segment_cache: LruCache<String, String>,
    custom_seqs: CustomSeqAllocator,
}

impl IchiranState {
    /// The cached segments, by query text.
    pub closed spec fn segments(&self) -> Map<Seq<char>, Seq<char>> {
        lru_entries(self.segment_cache)
    }

    /// The seq the next custom entry gets.
    pub closed spec fn next_custom_seq(&self) -> u32 {
        self.custom_seqs.next
    }

    /// A fresh client: nothing cached, custom seqs from [`CUSTOM_SEQ_BASE`].
    pub fn new() -> (s: Self)
        ensures
            s.segments().dom() == Set::<Seq<char>>::empty(),
            s.next_custom_seq() == CUSTOM_SEQ_BASE,
    {
        IchiranState { segment_cache: lru_new(SEGMENT_CACHE_CAPACITY), custom_seqs: CustomSeqAllocator::new() }
    }

    /// The cached segment of each query, in the queries' order; the cache
    /// keeps its entries.
    pub fn cached_segments(&mut self, queries: &Vec<String>) -> (r: Vec<Option<String>>)
        ensures
            final(self).segments() == old(self).segments(),
            final(self).next_custom_seq() == old(self).next_custom_seq(),
            r@.len() == queries@.len(),
            forall|k: int|
                #![trigger r@[k]]
                0 <= k < queries@.len() ==> match r@[k] {
                    Some(v) => old(self).segments().contains_key(queries@[k]@) && old(self).segments()[queries@[k]@]
                        == v@,
                    None => !old(self).segments().contains_key(queries@[k]@),
                },
    {
        let mut r: Vec<Option<String>> = Vec::new();
        let mut k: usize = 0;
        while k < queries.len()
            invariant
                k <= queries@.len(),
                r@.len() == k,
                self.segments() == old(self).segments(),
                self.next_custom_seq() == old(self).next_custom_seq(),
                forall|j: int|
                    #![trigger r@[j]]
                    0 <= j < k ==> match r@[j] {
                        Some(v) => old(self).segments().contains_key(queries@[j]@) && old(self).segments()[queries@[j]@]
                            == v@,
                        None => !old(self).segments().contains_key(queries@[j]@),
                    },
            decreases queries@.len() - k,
        {
            let found = lru_get(&mut self.segment_cache, queries[k].as_str());
            r.push(found);
            k = k + 1;
        }
        r
    }

    /// Keeps the segment ichiran gave for `query`.
    pub fn store_segment(&mut self, query: String, segment: String)
        ensures
            final(self).next_custom_seq() == old(self).next_custom_seq(),
            final(self).segments().contains_key(query@),
            final(self).segments()[query@] == segment@,
            forall|t: Seq<char>|
                #![trigger final(self).segments().contains_key(t)]
                t != query@ && final(self).segments().contains_key(t) ==> old(self).segments().contains_key(t)
                    && final(self).segments()[t] == old(self).segments()[t],
    {
        lru_push(&mut self.segment_cache, query, segment);
    }

    /// The seq the next custom entry gets.
    pub fn next_seq(&self) -> (n: u32)
        ensures
            n == self.next_custom_seq(),
    {
        self.custom_seqs.next
    }

    /// A custom entry is about to be loaded: the seq it gets. Seqs come
    /// one after another from [`CUSTOM_SEQ_BASE`].
    pub fn allocate_custom_seq(&mut self) -> (seq: u32)
        requires
            old(self).next_custom_seq() < u32::MAX,
        ensures
            seq == old(self).next_custom_seq(),
            final(self).next_custom_seq() == old(self).next_custom_seq() + 1,
            final(self).segments() == old(self).segments(),
    {
        self.custom_seqs.allocate()
    }

    /// A custom entry was loaded into the dictionary: no cached segment
    /// can be trusted any more, so the cache is emptied; later romanize
    /// requests see the entry.
    pub fn custom_entry_loaded(&mut self)
        ensures
            final(self).segments().dom() == Set::<Seq<char>>::empty(),
            final(self).next_custom_seq() == old(self).next_custom_seq(),
    {
        lru_clear(&mut self.segment_cache);
    }

    /// Every custom entry was deleted: seqs start over at the base and the
    /// cache is emptied.
    pub fn custom_entries_cleared(&mut self)
        ensures
            final(self).segments().dom() == Set::<Seq<char>>::empty(),
            final(self).next_custom_seq() == CUSTOM_SEQ_BASE,
    {
        self.custom_seqs.reset();
        lru_clear(&mut self.segment_cache);
    }
}

} // verus!
