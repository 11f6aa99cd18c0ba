//! A cache of ranked result lists, keyed by everything that distinguishes one
//! query from another. Entries carry the time at which they were stored and
//! the time they may be served for; an entry older than that is a miss, though
//! nothing removes it. The caller supplies the time of each operation.

use crate::models::aggregation_models::{names_view, results_view, SearchResult, SearchResultView};
use crate::models::engine_models::{QueryTypes, TimeRelavancy};
use crate::sequences::{first_match, lemma_first_match, lemma_first_match_is_first};
use vstd::prelude::*;

verus! {

/// Everything that distinguishes one query from another.
#[derive(Debug)]
pub struct CacheKey {
    /// The text searched for.
    pub query: String,
    /// The kinds of result asked for.
    pub query_types: QueryTypes,
    /// The page of results asked for.
    pub page: u32,
    /// How recent the results must be.
    pub time_relevance: Option<TimeRelavancy>,
    /// The safe-search level.
    pub safe_search: u8,
    /// The engines the query was restricted to, if it was.
    pub engine_names: Option<Vec<String>>,
}

/// The mathematical value of a [`CacheKey`]. Two keys are the same key exactly
/// when their values are equal.
pub struct CacheKeyView {
    pub query: Seq<char>,
    pub query_types: QueryTypes,
    pub page: u32,
    pub time_relevance: Option<TimeRelavancy>,
    pub safe_search: u8,
    pub engine_names: Option<Seq<Seq<char>>>,
}

impl View for CacheKey {
    type V = CacheKeyView;

    open spec fn view(&self) -> CacheKeyView {
        CacheKeyView {
            query: self.query@,
            query_types: self.query_types,
            page: self.page,
            time_relevance: self.time_relevance,
            safe_search: self.safe_search,
            engine_names: match self.engine_names {
                Some(names) => Some(names_view(names@)),
                None => None,
            },
        }
    }
}

/// Whether the two lists hold the same names in the same order.
pub fn same_names(a: &Vec<String>, b: &Vec<String>) -> (same: bool)
    ensures
        same == (names_view(a@) == names_view(b@)),
{
    if a.len() != b.len() {
        assert(names_view(a@).len() != names_view(b@).len());
        return false;
    }
    let mut i: usize = 0;
    while i < a.len()
        invariant
            i <= a.len(),
            a.len() == b.len(),
            forall|j: int| 0 <= j < i ==> a@[j]@ == b@[j]@,
        decreases a.len() - i,
    {
        if a[i] != b[i] {
            assert(names_view(a@)[i as int] != names_view(b@)[i as int]);
            return false;
        }
        i += 1;
    }
    assert(names_view(a@) =~= names_view(b@));
    true
}

impl CacheKey {
    /// Whether this key and `other` are the same key: whether the two queries
    /// agree in every field.
    pub fn matches(&self, other: &CacheKey) -> (same: bool)
        ensures
            same == (self@ == other@),
    {
        let same_time = match (self.time_relevance, other.time_relevance) {
            (Some(a), Some(b)) => a == b,
            (None, None) => true,
            _ => false,
        };
        let same_engines = match (&self.engine_names, &other.engine_names) {
            (Some(a), Some(b)) => same_names(a, b),
            (None, None) => true,
            _ => false,
        };
        self.query == other.query && self.query_types == other.query_types && self.page
            == other.page && same_time && self.safe_search == other.safe_search && same_engines
    }
}

/// One stored answer.
#[derive(Debug)]
pub struct CacheEntry {
    /// The key the answer was stored under.
    pub key: CacheKey,
    /// The ranked results.
    pub results: Vec<SearchResult>,
    /// The time at which the answer was stored.
    pub created: u64,
    /// For how long after `created` the answer may be served.
    pub ttl: u64,
}

/// What the cache holds under one key.
pub struct StoredView {
    pub results: Seq<SearchResultView>,
    pub created: u64,
    pub ttl: u64,
}

impl StoredView {
    /// Whether the answer may still be served at time `now`: whether no more
    /// than `ttl` has passed since it was stored.
    pub open spec fn is_fresh(self, now: u64) -> bool {
        now <= self.created || now - self.created <= self.ttl
    }
}

/// The mathematical value of a [`CacheEntry`].
pub struct CacheEntryView {
    pub key: CacheKeyView,
    pub stored: StoredView,
}

impl View for CacheEntry {
    type V = CacheEntryView;

    open spec fn view(&self) -> CacheEntryView {
        CacheEntryView {
            key: self.key@,
            stored: StoredView {
                results: results_view(self.results@),
                created: self.created,
                ttl: self.ttl,
            },
        }
    }
}

/// What a lookup of `key` at time `now` gives in a cache that holds `slots`.
pub open spec fn served(slots: Map<CacheKeyView, StoredView>, key: CacheKeyView, now: u64) -> Option<
    Seq<SearchResultView>,
> {
    if slots.contains_key(key) && slots[key].is_fresh(now) {
        Some(slots[key].results)
    } else {
        None
    }
}

/// The value of an optional list of results.
pub open spec fn found_view(found: Option<Vec<SearchResult>>) -> Option<Seq<SearchResultView>> {
    match found {
        Some(results) => Some(results_view(results@)),
        None => None,
    }
}

/// A copy of `results`.
pub fn clone_results(results: &Vec<SearchResult>) -> (copy: Vec<SearchResult>)
    ensures
        results_view(copy@) == results_view(results@),
{
    let mut copy: Vec<SearchResult> = Vec::new();
    let mut i: usize = 0;
    while i < results.len()
        invariant
            i <= results.len(),
            copy@.len() == i,
            forall|j: int| 0 <= j < i ==> copy@[j]@ == results@[j]@,
        decreases results.len() - i,
    {
        copy.push(results[i].duplicate());
        i += 1;
    }
    assert(results_view(copy@) =~= results_view(results@));
    copy
}

/// The cache: at most one answer per key.
pub struct Cache {
    entries: Vec<CacheEntry>,
}

/// The values of a sequence of entries.
pub open spec fn entries_view(entries: Seq<CacheEntry>) -> Seq<CacheEntryView> {
    entries.map_values(|entry: CacheEntry| entry@)
}

/// The position of the first entry stored under `key`, or the number of
/// entries if there is none.
pub open spec fn entry_position(entries: Seq<CacheEntryView>, key: CacheKeyView) -> int {
    first_match(entries, |entry: CacheEntryView| entry.key == key)
}

/// The answers that `entries` hold, by key.
pub open spec fn slots_of(entries: Seq<CacheEntryView>) -> Map<CacheKeyView, StoredView> {
    Map::new(
        |key: CacheKeyView| entry_position(entries, key) < entries.len(),
        |key: CacheKeyView| entries[entry_position(entries, key)].stored,
    )
}

impl View for Cache {
    type V = Map<CacheKeyView, StoredView>;

    closed spec fn view(&self) -> Map<CacheKeyView, StoredView> {
        slots_of(entries_view(self.entries@))
    }
}

impl Cache {
    /// A cache that holds nothing.
    pub fn new() -> (cache: Cache)
        ensures
            cache@ == Map::<CacheKeyView, StoredView>::empty(),
    {
        let cache = Cache { entries: Vec::new() };
        assert(cache@ =~= Map::<CacheKeyView, StoredView>::empty());
        cache
    }

    /// Finds the first entry stored under `key`.
    fn find(&self, key: &CacheKey) -> (at: usize)
        ensures
            at == entry_position(entries_view(self.entries@), key@),
            at <= self.entries@.len(),
    {
        let ghost under = |entry: CacheEntryView| entry.key == key@;
        let mut i: usize = 0;
        while i < self.entries.len() && !self.entries[i].key.matches(key)
            invariant
                i <= self.entries.len(),
                under == |entry: CacheEntryView| entry.key == key@,
                forall|j: int| 0 <= j < i ==> !under(#[trigger] entries_view(self.entries@)[j]),
            decreases self.entries.len() - i,
        {
            i += 1;
        }
        proof {
            lemma_first_match(entries_view(self.entries@), under, i as int);
        }
        i
    }

    /// The answer stored under `key`, unless there is none or it is older at
    /// time `now` than it may be served for. The cache is left as it is.
    pub fn lookup(&self, key: &CacheKey, now: u64) -> (found: Option<Vec<SearchResult>>)
        ensures
            found_view(found) == served(self@, key@, now),
    {
        let at = self.find(key);
        if at < self.entries.len() {
            let entry = &self.entries[at];
            if now <= entry.created || now - entry.created <= entry.ttl {
                return Some(clone_results(&entry.results));
            }
        }
        None
    }

    /// Stores `results` under `key` at time `now`, to be served for `ttl`. An
    /// answer already stored under `key` is replaced; every other key keeps
    /// what it had.
    pub fn store(&mut self, key: CacheKey, results: Vec<SearchResult>, now: u64, ttl: u64)
        ensures
            final(self)@ == old(self)@.insert(
                key@,
                StoredView { results: results_view(results@), created: now, ttl },
            ),
    {
        let ghost before = entries_view(self.entries@);
        let ghost stored = StoredView { results: results_view(results@), created: now, ttl };
        let ghost wanted = key@;
        let at = self.find(&key);
        let entry = CacheEntry { key, results, created: now, ttl };
        if at < self.entries.len() {
            self.entries.set(at, entry);
        } else {
            self.entries.push(entry);
        }
        proof {
            let after = entries_view(self.entries@);
            assert(after =~= if at < before.len() {
                before.update(at as int, entry@)
            } else {
                before.push(entry@)
            });
            lemma_first_match_is_first(before, |entry: CacheEntryView| entry.key == wanted);
            assert forall|other: CacheKeyView|
                #![trigger slots_of(after).contains_key(other)]
                #![trigger slots_of(after)[other]]
                {
                    &&& slots_of(after).contains_key(other) == slots_of(before).insert(
                        wanted,
                        stored,
                    ).contains_key(other)
                    &&& slots_of(after).contains_key(other) ==> slots_of(after)[other]
                        == slots_of(before).insert(wanted, stored)[other]
                } by {
                let under = |entry: CacheEntryView| entry.key == other;
                lemma_first_match_is_first(before, under);
                let was = entry_position(before, other);
                if other == wanted {
                    lemma_first_match(after, under, at as int);
                } else if was < before.len() {
                    lemma_first_match(after, under, was);
                } else {
                    lemma_first_match(after, under, after.len() as int);
                }
            }
            assert(slots_of(after) =~= slots_of(before).insert(wanted, stored));
        }
    }
}

/// An answer looked up at the time it was stored is returned as it was stored,
/// whatever the time it may be served for.
pub proof fn lemma_store_then_lookup(
    slots: Map<CacheKeyView, StoredView>,
    key: CacheKeyView,
    results: Seq<SearchResultView>,
    now: u64,
    ttl: u64,
)
    ensures
        served(slots.insert(key, StoredView { results, created: now, ttl }), key, now) == Some(
            results,
        ),
{
}

/// A key under which nothing was stored gives nothing.
pub proof fn lemma_unused_key_gives_nothing(
    slots: Map<CacheKeyView, StoredView>,
    key: CacheKeyView,
    now: u64,
)
    requires
        !slots.contains_key(key),
    ensures
        served(slots, key, now) is None,
        served(Map::<CacheKeyView, StoredView>::empty(), key, now) is None,
{
}

/// An answer is served up to `ttl` after it was stored and no longer, though it
/// is still held.
pub proof fn lemma_expiry(
    slots: Map<CacheKeyView, StoredView>,
    key: CacheKeyView,
    results: Seq<SearchResultView>,
    created: u64,
    ttl: u64,
    now: u64,
)
    ensures
        now > created + ttl ==> served(
            slots.insert(key, StoredView { results, created, ttl }),
            key,
            now,
        ) is None,
        created <= now <= created + ttl ==> served(
            slots.insert(key, StoredView { results, created, ttl }),
            key,
            now,
        ) == Some(results),
        slots.insert(key, StoredView { results, created, ttl }).contains_key(key),
{
}

/// Storing under one key changes nothing that is served under another.
pub proof fn lemma_store_leaves_other_keys(
    slots: Map<CacheKeyView, StoredView>,
    key: CacheKeyView,
    stored: StoredView,
    other: CacheKeyView,
    now: u64,
)
    requires
        other != key,
    ensures
        served(slots.insert(key, stored), other, now) == served(slots, other, now),
{
}

} // verus!
