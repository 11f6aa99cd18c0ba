//! Who fetches on a miss. When several requests miss the same key at once, one
//! of them asks the engines and the others wait for its answer: a key is in
//! flight from the moment a request is told to fetch it until that request
//! reports that it is done.

use crate::cache::cacher::{served, Cache, CacheKey, CacheKeyView};
use crate::models::aggregation_models::{results_view, SearchResult};
use vstd::prelude::*;

verus! {

/// The keys whose answers are being fetched.
pub struct InFlight {
    keys: Vec<CacheKey>,
}

/// The keys that `keys` holds.
pub open spec fn key_set(keys: Seq<CacheKey>) -> Set<CacheKeyView> {
    Set::new(|key: CacheKeyView| exists|i: int| 0 <= i < keys.len() && (#[trigger] keys[i])@ == key)
}

impl View for InFlight {
    type V = Set<CacheKeyView>;

    closed spec fn view(&self) -> Set<CacheKeyView> {
        key_set(self.keys@)
    }
}

/// What a request is told to do with its query.
#[derive(Debug)]
pub enum Claim {
    /// The cache holds the answer: serve it.
    Hit(Vec<SearchResult>),
    /// Nobody is fetching the answer: fetch it, store it, and report that the
    /// key is done.
    Fetch,
    /// Another request is fetching the answer: wait, then claim again.
    Wait,
}

impl InFlight {
    /// No key is in flight.
    pub fn new() -> (flights: InFlight)
        ensures
            flights@ == Set::<CacheKeyView>::empty(),
    {
        let flights = InFlight { keys: Vec::new() };
        assert(flights@ =~= Set::<CacheKeyView>::empty());
        flights
    }

    /// Whether `key` is in flight.
    pub fn contains(&self, key: &CacheKey) -> (found: bool)
        ensures
            found == self@.contains(key@),
    {
        let mut i: usize = 0;
        while i < self.keys.len()
            invariant
                i <= self.keys.len(),
                forall|j: int| 0 <= j < i ==> (#[trigger] self.keys@[j])@ != key@,
            decreases self.keys.len() - i,
        {
            if self.keys[i].matches(key) {
                return true;
            }
            i += 1;
        }
        false
    }

    /// Puts `key` in flight and says whether it was not in flight before.
    pub fn begin(&mut self, key: CacheKey) -> (first: bool)
        ensures
            first == !old(self)@.contains(key@),
            final(self)@ == old(self)@.insert(key@),
    {
        let ghost before = self.keys@;
        if self.contains(&key) {
            assert(key_set(before) =~= key_set(before).insert(key@));
            false
        } else {
            self.keys.push(key);
            assert(key_set(self.keys@) =~= key_set(before).insert(key@)) by {
                assert(self.keys@[before.len() as int] == key);
                assert forall|other: CacheKeyView|
                    key_set(before).insert(key@).contains(other) implies key_set(
                    self.keys@,
                ).contains(other) by {
                    if other != key@ {
                        let i = choose|i: int| 0 <= i < before.len() && (#[trigger] before[i])@ == other;
                        assert(self.keys@[i]@ == other);
                    }
                }
                assert forall|other: CacheKeyView| key_set(self.keys@).contains(other) implies key_set(
                    before,
                ).insert(key@).contains(other) by {
                    let i = choose|i: int|
                        0 <= i < self.keys@.len() && (#[trigger] self.keys@[i])@ == other;
                    if i < before.len() {
                        assert(before[i]@ == other);
                    }
                }
            }
            true
        }
    }

    /// Takes `key` out of flight.
    pub fn finish(&mut self, key: &CacheKey)
        ensures
            final(self)@ == old(self)@.remove(key@),
    {
        let ghost before = self.keys@;
        let mut i: usize = 0;
        while i < self.keys.len()
            invariant
                i <= self.keys.len(),
                forall|j: int| 0 <= j < i ==> (#[trigger] self.keys@[j])@ != key@,
                key_set(self.keys@).remove(key@) == key_set(before).remove(key@),
            decreases self.keys.len() - i,
        {
            if self.keys[i].matches(key) {
                let ghost held = self.keys@;
                self.keys.remove(i);
                assert(key_set(self.keys@).remove(key@) =~= key_set(held).remove(key@)) by {
                    assert forall|other: CacheKeyView|
                        key_set(held).remove(key@).contains(other) implies key_set(
                        self.keys@,
                    ).contains(other) by {
                        let k = choose|k: int| 0 <= k < held.len() && (#[trigger] held[k])@ == other;
                        if k < i {
                            assert(self.keys@[k] == held[k]);
                        } else {
                            assert(self.keys@[k - 1] == held[k]);
                        }
                    }
                    assert forall|other: CacheKeyView|
                        key_set(self.keys@).contains(other) implies key_set(held).contains(
                        other,
                    ) by {
                        let k = choose|k: int|
                            0 <= k < self.keys@.len() && (#[trigger] self.keys@[k])@ == other;
                        if k < i {
                            assert(held[k] == self.keys@[k]);
                        } else {
                            assert(held[k + 1] == self.keys@[k]);
                        }
                    }
                }
            } else {
                i += 1;
            }
        }
        assert(key_set(self.keys@) =~= key_set(before).remove(key@)) by {
            assert forall|other: CacheKeyView| key_set(self.keys@).contains(other) implies other
                != key@ by {
                let k = choose|k: int|
                    0 <= k < self.keys@.len() && (#[trigger] self.keys@[k])@ == other;
            }
        }
    }
}

/// Whether a request that has waited `waited` times, and may wait `patience`
/// times, waits once more for a key that `flights` holds or does not hold.
pub open spec fn must_wait(flights: Set<CacheKeyView>, key: CacheKeyView, waited: u32, patience: u32) -> bool {
    flights.contains(key) && waited < patience
}

impl Cache {
    /// Decides what the request for `key` does at time `now`, after it has
    /// waited `waited` times. An answer that the cache may serve is a hit and
    /// puts nothing in flight. Otherwise `key` is in flight afterwards, and
    /// the request waits if `key` was in flight already and it has waited
    /// fewer than `patience` times; else it fetches. So no request waits more
    /// than `patience` times, whatever became of the request it waits for.
    pub fn claim(
        &self,
        flights: &mut InFlight,
        key: CacheKey,
        now: u64,
        waited: u32,
        patience: u32,
    ) -> (claim: Claim)
        ensures
            match served(self@, key@, now) {
                Some(results) => {
                    &&& claim matches Claim::Hit(found) && results_view(found@) == results
                    &&& final(flights)@ == old(flights)@
                },
                None => {
                    &&& final(flights)@ == old(flights)@.insert(key@)
                    &&& claim is Wait <==> must_wait(old(flights)@, key@, waited, patience)
                    &&& claim is Fetch <==> !must_wait(old(flights)@, key@, waited, patience)
                },
            },
    {
        match self.lookup(&key, now) {
            Some(found) => Claim::Hit(found),
            None => {
                let first = flights.begin(key);
                if first || waited >= patience {
                    Claim::Fetch
                } else {
                    Claim::Wait
                }
            },
        }
    }
}

/// Of the requests that miss one key while it is in flight, only the first is
/// told to fetch as long as the others have patience: once a key is in flight
/// it stays in flight until it is finished, and a request that claims it then
/// waits unless it has waited `patience` times.
pub proof fn lemma_one_fetch_per_key(
    flights: Set<CacheKeyView>,
    key: CacheKeyView,
    waited: u32,
    patience: u32,
)
    ensures
        flights.insert(key).contains(key),
        flights.insert(key).insert(key) == flights.insert(key),
        !flights.insert(key).remove(key).contains(key),
        must_wait(flights.insert(key), key, waited, patience) <==> waited < patience,
        !must_wait(flights.insert(key).remove(key), key, waited, patience),
{
    assert(flights.insert(key).insert(key) =~= flights.insert(key));
}

} // verus!
