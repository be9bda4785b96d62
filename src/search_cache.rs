use vstd::prelude::*;

use crate::text::{copy_bytes, copy_string, same_text};

verus! {

/// Largest number of entries the search cache holds.
pub const MAX_CACHE_SIZE: usize = 30;

/// A remembered semantic search: the query, the provider that embedded it,
/// the query's vector and the ids it found, best first.
#[derive(Debug)]
pub struct CacheEntry {
    pub query: String,
    pub provider: String,
    pub embedding: Vec<u8>,
    pub result_ids: Vec<String>,
    pub created_at: i64,
}

pub struct CacheEntryView {
    pub query: Seq<char>,
    pub provider: Seq<char>,
    pub embedding: Seq<u8>,
    pub result_ids: Seq<String>,
    pub created_at: i64,
}

impl View for CacheEntry {
    type V = CacheEntryView;

    open spec fn view(&self) -> CacheEntryView {
        CacheEntryView {
            query: self.query@,
            provider: self.provider@,
            embedding: self.embedding@,
            result_ids: self.result_ids@,
            created_at: self.created_at,
        }
    }
}

impl CacheEntryView {
    pub open spec fn answers(self, query: Seq<char>, provider: Seq<char>) -> bool {
        self.query == query && self.provider == provider
    }
}

/// Entries oldest first, never more than the bound.
pub open spec fn cache_wf(t: Seq<CacheEntryView>) -> bool {
    &&& t.len() <= MAX_CACHE_SIZE
    &&& forall|i: int, j: int| 0 <= i < j < t.len() ==> t[i].created_at <= t[j].created_at
}

pub open spec fn has_entry(t: Seq<CacheEntryView>, query: Seq<char>, provider: Seq<char>) -> bool {
    exists|k: int| 0 <= k < t.len() && (#[trigger] t[k]).answers(query, provider)
}

/// Where a new entry goes: after every entry created no later than it.
pub open spec fn insert_position(t: Seq<CacheEntryView>, created_at: i64) -> int
    decreases t.len(),
{
    if t.len() == 0 {
        0
    } else if t.last().created_at <= created_at {
        t.len() as int
    } else {
        insert_position(t.drop_last(), created_at)
    }
}

/// Drops the oldest entries beyond the bound.
pub open spec fn evicted(t: Seq<CacheEntryView>) -> Seq<CacheEntryView> {
    if t.len() > MAX_CACHE_SIZE {
        t.subrange(t.len() - MAX_CACHE_SIZE, t.len() as int)
    } else {
        t
    }
}

/// The cache after a new entry is added.
pub open spec fn inserted(t: Seq<CacheEntryView>, e: CacheEntryView) -> Seq<CacheEntryView> {
    evicted(t.insert(insert_position(t, e.created_at), e))
}

/// What a search finds in the cache.
pub enum CacheLookup {
    /// The newest entry for the query: its position and its stored vector.
    Hit { index: usize, embedding: Vec<u8> },
    /// No entry: the query's vector must be requested.
    Miss,
}

/// The semantic search cache: exact match on query text and provider.
pub struct SearchCache {
    entries: Vec<CacheEntry>,
}

impl View for SearchCache {
    type V = Seq<CacheEntryView>;

    closed spec fn view(&self) -> Seq<CacheEntryView> {
        self.entries@.map_values(|e: CacheEntry| e@)
    }
}

proof fn lemma_insert_position(t: Seq<CacheEntryView>, c: i64)
    requires
        cache_wf(t),
    ensures
        0 <= insert_position(t, c) <= t.len(),
        forall|i: int| 0 <= i < insert_position(t, c) ==> #[trigger] t[i].created_at <= c,
        forall|i: int| insert_position(t, c) <= i < t.len() ==> #[trigger] t[i].created_at > c,
    decreases t.len(),
{
    if t.len() > 0 {
        let u = t.drop_last();
        assert(cache_wf(u)) by {
            assert forall|i: int, j: int| 0 <= i < j < u.len() implies u[i].created_at <= u[j].created_at by {
                assert(u[i] == t[i] && u[j] == t[j]);
            }
        }
        lemma_insert_position(u, c);
        if t.last().created_at > c {
            assert forall|i: int| insert_position(t, c) <= i < t.len() implies #[trigger] t[i].created_at > c by {
                if i < u.len() {
                    assert(u[i] == t[i]);
                }
            }
            assert forall|i: int| 0 <= i < insert_position(t, c) implies #[trigger] t[i].created_at <= c by {
                assert(u[i] == t[i]);
            }
        }
    }
}

/// Adding an entry keeps the cache ordered and within its bound.
pub proof fn law_cache_bounded(t: Seq<CacheEntryView>, e: CacheEntryView)
    requires
        cache_wf(t),
    ensures
        cache_wf(inserted(t, e)),
{
    let p = insert_position(t, e.created_at);
    lemma_insert_position(t, e.created_at);
    let s = t.insert(p, e);
    assert forall|i: int, j: int| 0 <= i < j < s.len() implies s[i].created_at <= s[j].created_at by {
        if j < p {
            assert(s[i] == t[i] && s[j] == t[j]);
        } else if j == p {
            assert(s[i] == t[i]);
        } else if i < p {
            assert(s[i] == t[i] && s[j] == t[j - 1]);
        } else if i == p {
            assert(s[j] == t[j - 1]);
        } else {
            assert(s[i] == t[i - 1] && s[j] == t[j - 1]);
        }
    }
    let r = evicted(s);
    assert forall|i: int, j: int| 0 <= i < j < r.len() implies r[i].created_at <= r[j].created_at by {
        if s.len() > MAX_CACHE_SIZE {
            let d = s.len() - MAX_CACHE_SIZE;
            assert(r[i] == s[i + d] && r[j] == s[j + d]);
        }
    }
}

/// A search that missed and was recorded, at a time no earlier than any
/// entry's, is found by the same query and provider afterwards.
pub proof fn law_miss_then_hit(t: Seq<CacheEntryView>, e: CacheEntryView)
    requires
        cache_wf(t),
        forall|i: int| 0 <= i < t.len() ==> #[trigger] t[i].created_at <= e.created_at,
    ensures
        has_entry(inserted(t, e), e.query, e.provider),
{
    lemma_insert_position(t, e.created_at);
    let p = insert_position(t, e.created_at);
    assert(p == t.len());
    let s = t.insert(p, e);
    assert(s[p] == e);
    let r = inserted(t, e);
    assert(r[r.len() - 1] == e);
}

impl SearchCache {
    pub open spec fn wf(&self) -> bool {
        cache_wf(self@)
    }

    /// An empty cache.
    pub fn new() -> (r: SearchCache)
        ensures
            r@ == Seq::<CacheEntryView>::empty(),
            r.wf(),
    {
        let r = SearchCache { entries: Vec::new() };
        assert(r@ =~= Seq::<CacheEntryView>::empty());
        r
    }

    pub fn len(&self) -> (r: usize)
        ensures
            r == self@.len(),
    {
        self.entries.len()
    }

    /// The entry at position `i`, oldest first.
    pub fn get(&self, i: usize) -> (r: &CacheEntry)
        requires
            i < self@.len(),
        ensures
            r@ == self@[i as int],
    {
        &self.entries[i]
    }

    /// Looks a query up: a hit hands back the newest entry's vector, so that
    /// no embedding is requested; a miss means one must be.
    pub fn lookup(&self, query: &str, provider: &str) -> (r: CacheLookup)
        ensures
            r is Miss <==> !has_entry(self@, query@, provider@),
            r matches CacheLookup::Hit { index, embedding } ==> {
                &&& index < self@.len()
                &&& self@[index as int].answers(query@, provider@)
                &&& forall|j: int|
                    index < j < self@.len() ==> !(#[trigger] self@[j]).answers(query@, provider@)
                &&& embedding@ == self@[index as int].embedding
            },
    {
        let mut i: usize = self.entries.len();
        while i > 0
            invariant
                i <= self.entries.len(),
                forall|j: int| i <= j < self@.len() ==> !(#[trigger] self@[j]).answers(query@, provider@),
            decreases i,
        {
            let e = &self.entries[i - 1];
            if same_text(e.query.as_str(), query) && same_text(e.provider.as_str(), provider) {
                assert(self@[i - 1].answers(query@, provider@));
                return CacheLookup::Hit { index: i - 1, embedding: copy_bytes(&e.embedding) };
            }
            i = i - 1;
        }
        CacheLookup::Miss
    }

    /// After a hit: the search ran again on the current corpus, and its
    /// results replace the stored ones.
    pub fn refresh_results(&mut self, index: usize, result_ids: Vec<String>)
        requires
            old(self).wf(),
            index < old(self)@.len(),
        ensures
            final(self).wf(),
            final(self)@ == old(self)@.update(
                index as int,
                CacheEntryView { result_ids: result_ids@, ..old(self)@[index as int] },
            ),
    {
        let e = &self.entries[index];
        let updated = CacheEntry {
            query: copy_string(&e.query),
            provider: copy_string(&e.provider),
            embedding: copy_bytes(&e.embedding),
            result_ids,
            created_at: e.created_at,
        };
        let ghost before = self@;
        self.entries.set(index, updated);
        proof {
            assert(self@ =~= before.update(
                index as int,
                CacheEntryView { result_ids: result_ids@, ..before[index as int] },
            ));
        }
    }

    /// After a miss: records the search, then drops the oldest entries
    /// beyond the bound.
    pub fn insert(&mut self, entry: CacheEntry)
        requires
            old(self).wf(),
        ensures
            final(self).wf(),
            final(self)@ == inserted(old(self)@, entry@),
    {
        let ghost t = self@;
        let ghost e = entry@;
        proof {
            lemma_insert_position(t, e.created_at);
            law_cache_bounded(t, e);
        }
        let mut p: usize = self.entries.len();
        while p > 0 && self.entries[p - 1].created_at > entry.created_at
            invariant
                p <= self.entries.len(),
                t == self@,
                cache_wf(t),
                forall|i: int| p <= i < t.len() ==> #[trigger] t[i].created_at > e.created_at,
                e == entry@,
            decreases p,
        {
            p = p - 1;
        }
        proof {
            let q = insert_position(t, e.created_at);
            if p < q {
                assert(t[p as int].created_at <= e.created_at);
            }
            if p > q {
                assert(self@[p - 1] == self.entries[p - 1]@);
                assert(t[p - 1].created_at > e.created_at);
            }
        }
        self.entries.insert(p, entry);
        assert(self@ =~= t.insert(p as int, e));
        if self.entries.len() > MAX_CACHE_SIZE {
            let ghost s = self@;
            self.entries.remove(0);
            assert(self@ =~= s.subrange(1, s.len() as int));
        }
    }
}

} // verus!
