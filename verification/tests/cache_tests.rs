use anvesh::cache::cacher::{clone_results, same_names, Cache, CacheKey};
use anvesh::cache::flight::{Claim, InFlight};
use anvesh::models::aggregation_models::SearchResult;
use anvesh::models::engine_models::{QueryType, QueryTypes, TimeRelavancy};

fn engines(list: &[&str]) -> Vec<String> {
    list.iter().map(|name| name.to_string()).collect()
}

fn key(query: &str) -> CacheKey {
    CacheKey {
        query: query.to_string(),
        query_types: QueryTypes::only(QueryType::Text),
        page: 0,
        time_relevance: None,
        safe_search: 1,
        engine_names: None,
    }
}

fn answer(tag: &str) -> Vec<SearchResult> {
    vec![
        SearchResult::new(tag, "https://x.test/1", "one", &engines(&["searx", "brave"])),
        SearchResult::new("second", "https://x.test/2", "", &engines(&["brave"])),
    ]
}

fn titles(found: Option<Vec<SearchResult>>) -> Option<Vec<String>> {
    found.map(|results| results.into_iter().map(|r| r.title).collect())
}

#[test]
fn lookup_in_an_empty_cache_finds_nothing() {
    let cache = Cache::new();
    assert!(cache.lookup(&key("rust"), 0).is_none());
}

#[test]
fn store_then_lookup_returns_what_was_stored() {
    let mut cache = Cache::new();
    cache.store(key("rust"), answer("first"), 1_000, 60);
    let found = cache.lookup(&key("rust"), 1_000).unwrap();
    assert_eq!(found.len(), 2);
    assert_eq!(found[0].title, "first");
    assert_eq!(found[0].url, "https://x.test/1");
    assert_eq!(found[0].description, "one");
    assert_eq!(found[0].engine, engines(&["searx", "brave"]));
    assert_eq!(found[1].title, "second");
    assert_eq!(found[1].url, "https://x.test/2");
    assert_eq!(found[1].description, "");
    assert_eq!(found[1].engine, engines(&["brave"]));
}

#[test]
fn store_with_no_time_to_live_is_served_at_once_only() {
    let mut cache = Cache::new();
    cache.store(key("rust"), answer("first"), 1_000, 0);
    assert!(cache.lookup(&key("rust"), 1_000).is_some());
    assert!(cache.lookup(&key("rust"), 1_001).is_none());
}

#[test]
fn lookup_of_an_unused_key_finds_nothing() {
    let mut cache = Cache::new();
    cache.store(key("rust"), answer("first"), 1_000, 60);
    assert!(cache.lookup(&key("verus"), 1_000).is_none());
}

#[test]
fn lookup_after_the_time_to_live_finds_nothing() {
    let mut cache = Cache::new();
    cache.store(key("rust"), answer("first"), 1_000, 60);
    assert!(cache.lookup(&key("rust"), 1_059).is_some());
    assert!(cache.lookup(&key("rust"), 1_060).is_some());
    assert!(cache.lookup(&key("rust"), 1_061).is_none());
    assert!(cache.lookup(&key("rust"), u64::MAX).is_none());
}

#[test]
fn lookup_does_not_remove_or_refresh() {
    let mut cache = Cache::new();
    cache.store(key("rust"), answer("first"), 1_000, 60);
    assert!(cache.lookup(&key("rust"), 2_000).is_none());
    assert!(cache.lookup(&key("rust"), 1_030).is_some());
}

#[test]
fn lookup_before_the_time_of_storing_is_served() {
    let mut cache = Cache::new();
    cache.store(key("rust"), answer("first"), 1_000, 0);
    assert!(cache.lookup(&key("rust"), 999).is_some());
}

#[test]
fn time_to_live_near_the_largest_time_does_not_wrap() {
    let mut cache = Cache::new();
    cache.store(key("rust"), answer("first"), u64::MAX - 1, u64::MAX);
    assert!(cache.lookup(&key("rust"), u64::MAX).is_some());
    cache.store(key("rust"), answer("first"), 5, u64::MAX);
    assert!(cache.lookup(&key("rust"), u64::MAX).is_some());
}

#[test]
fn store_replaces_the_answer_of_the_same_key() {
    let mut cache = Cache::new();
    cache.store(key("rust"), answer("first"), 1_000, 10);
    cache.store(key("verus"), answer("other"), 1_000, 10);
    cache.store(key("rust"), answer("newer"), 1_020, 10);
    assert_eq!(
        titles(cache.lookup(&key("rust"), 1_025)),
        Some(vec!["newer".to_string(), "second".to_string()])
    );
    assert_eq!(
        titles(cache.lookup(&key("verus"), 1_005)),
        Some(vec!["other".to_string(), "second".to_string()])
    );
    assert!(cache.lookup(&key("verus"), 1_025).is_none());
}

#[test]
fn store_of_an_empty_answer_is_a_hit() {
    let mut cache = Cache::new();
    cache.store(key("rust"), Vec::new(), 7, 3);
    assert_eq!(titles(cache.lookup(&key("rust"), 9)), Some(Vec::new()));
}

#[test]
fn any_differing_field_is_another_key() {
    let base = key("rust");
    assert!(base.matches(&key("rust")));
    assert!(!base.matches(&key("Rust")));
    let mut other = key("rust");
    other.query_types = QueryTypes::only(QueryType::Text).with(QueryType::Image);
    assert!(!base.matches(&other));
    let mut other = key("rust");
    other.page = 1;
    assert!(!base.matches(&other));
    let mut other = key("rust");
    other.time_relevance = Some(TimeRelavancy::Anytime);
    assert!(!base.matches(&other));
    let mut other = key("rust");
    other.safe_search = 2;
    assert!(!base.matches(&other));
    let mut other = key("rust");
    other.engine_names = Some(Vec::new());
    assert!(!base.matches(&other));
}

#[test]
fn keys_compare_time_relevance_and_engine_names() {
    let mut a = key("rust");
    let mut b = key("rust");
    a.time_relevance = Some(TimeRelavancy::LastWeek);
    b.time_relevance = Some(TimeRelavancy::LastWeek);
    a.engine_names = Some(engines(&["searx", "brave"]));
    b.engine_names = Some(engines(&["searx", "brave"]));
    assert!(a.matches(&b));
    b.time_relevance = Some(TimeRelavancy::LastMonth);
    assert!(!a.matches(&b));
    b.time_relevance = Some(TimeRelavancy::LastWeek);
    b.engine_names = Some(engines(&["searx"]));
    assert!(!a.matches(&b));
    b.engine_names = Some(engines(&["searx", "Brave"]));
    assert!(!a.matches(&b));
}

#[test]
fn differing_keys_have_differing_slots() {
    let mut cache = Cache::new();
    let mut paged = key("rust");
    paged.page = 2;
    cache.store(key("rust"), answer("page0"), 0, 100);
    cache.store(paged, answer("page2"), 0, 100);
    let mut paged = key("rust");
    paged.page = 2;
    assert_eq!(titles(cache.lookup(&key("rust"), 1)).unwrap()[0], "page0");
    assert_eq!(titles(cache.lookup(&paged, 1)).unwrap()[0], "page2");
    paged.page = 3;
    assert!(cache.lookup(&paged, 1).is_none());
}

#[test]
fn same_names_compares_in_order() {
    assert!(same_names(&engines(&[]), &engines(&[])));
    assert!(same_names(&engines(&["a", "b"]), &engines(&["a", "b"])));
    assert!(!same_names(&engines(&["a", "b"]), &engines(&["b", "a"])));
    assert!(!same_names(&engines(&["a"]), &engines(&["a", "b"])));
}

#[test]
fn clone_results_copies_every_field() {
    let given = answer("first");
    let copy = clone_results(&given);
    assert_eq!(copy.len(), 2);
    assert_eq!(copy[0].title, "first");
    assert_eq!(copy[0].engine, engines(&["searx", "brave"]));
    assert_eq!(copy[1].url, "https://x.test/2");
}

#[test]
fn in_flight_begins_once_per_key() {
    let mut flights = InFlight::new();
    assert!(!flights.contains(&key("rust")));
    assert!(flights.begin(key("rust")));
    assert!(flights.contains(&key("rust")));
    assert!(!flights.begin(key("rust")));
    assert!(flights.begin(key("verus")));
    assert!(flights.contains(&key("rust")) && flights.contains(&key("verus")));
}

#[test]
fn in_flight_finish_frees_the_key_only() {
    let mut flights = InFlight::new();
    flights.begin(key("rust"));
    flights.begin(key("verus"));
    flights.finish(&key("rust"));
    assert!(!flights.contains(&key("rust")));
    assert!(flights.contains(&key("verus")));
    flights.finish(&key("rust"));
    flights.finish(&key("never"));
    assert!(flights.contains(&key("verus")));
    assert!(flights.begin(key("rust")));
}

#[test]
fn claim_on_a_miss_lets_one_request_fetch() {
    let cache = Cache::new();
    let mut flights = InFlight::new();
    assert!(matches!(cache.claim(&mut flights, key("rust"), 10, 0, 3), Claim::Fetch));
    assert!(matches!(cache.claim(&mut flights, key("rust"), 10, 0, 3), Claim::Wait));
    assert!(matches!(cache.claim(&mut flights, key("rust"), 11, 1, 3), Claim::Wait));
    assert!(matches!(cache.claim(&mut flights, key("verus"), 11, 0, 3), Claim::Fetch));
}

#[test]
fn claim_stops_waiting_when_patience_is_spent() {
    let cache = Cache::new();
    let mut flights = InFlight::new();
    assert!(matches!(cache.claim(&mut flights, key("rust"), 10, 0, 2), Claim::Fetch));
    assert!(matches!(cache.claim(&mut flights, key("rust"), 10, 1, 2), Claim::Wait));
    assert!(matches!(cache.claim(&mut flights, key("rust"), 10, 2, 2), Claim::Fetch));
    assert!(matches!(cache.claim(&mut flights, key("rust"), 10, 3, 2), Claim::Fetch));
    assert!(matches!(cache.claim(&mut flights, key("rust"), 10, 0, 0), Claim::Fetch));
    assert!(flights.contains(&key("rust")));
}

#[test]
fn claim_on_a_hit_serves_and_puts_nothing_in_flight() {
    let mut cache = Cache::new();
    let mut flights = InFlight::new();
    assert!(matches!(cache.claim(&mut flights, key("rust"), 10, 0, 3), Claim::Fetch));
    cache.store(key("rust"), answer("first"), 12, 5);
    flights.finish(&key("rust"));
    match cache.claim(&mut flights, key("rust"), 15, 0, 3) {
        Claim::Hit(found) => {
            assert_eq!(found.len(), 2);
            assert_eq!(found[0].title, "first");
        }
        _ => panic!("a stored answer was not served"),
    }
    assert!(!flights.contains(&key("rust")));
    assert!(matches!(cache.claim(&mut flights, key("rust"), 18, 0, 3), Claim::Fetch));
    assert!(flights.contains(&key("rust")));
}
