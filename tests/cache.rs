use moonshine_core::{CacheEntry, CacheLookup, SearchCache, MAX_CACHE_SIZE};

fn entry(query: &str, at: i64) -> CacheEntry {
    CacheEntry {
        query: query.to_string(),
        provider: "openai".to_string(),
        embedding: vec![at as u8, 0, 0, 0],
        result_ids: vec![format!("r{}", at)],
        created_at: at,
    }
}

#[test]
fn cache_never_exceeds_thirty_entries() {
    let mut cache = SearchCache::new();
    for i in 0..35 {
        cache.insert(entry(&format!("q{}", i), i));
        assert!(cache.len() <= 30);
    }
    assert_eq!(cache.len(), MAX_CACHE_SIZE);
    assert_eq!(cache.get(0).query, "q5");
    assert_eq!(cache.get(29).query, "q34");
    assert!(matches!(cache.lookup("q0", "openai"), CacheLookup::Miss));
}

#[test]
fn cache_evicts_oldest_by_creation_time() {
    let mut cache = SearchCache::new();
    for i in 0..30 {
        cache.insert(entry(&format!("q{}", i), 100 + i));
    }
    // An entry created before all others is the oldest, and goes at once.
    cache.insert(entry("late", 50));
    assert_eq!(cache.len(), 30);
    assert!(matches!(cache.lookup("late", "openai"), CacheLookup::Miss));
    assert!(matches!(cache.lookup("q0", "openai"), CacheLookup::Hit { .. }));
}

#[test]
fn repeated_query_misses_then_hits() {
    let mut cache = SearchCache::new();
    let mut embedding_requests = 0;
    for round in 0..2 {
        match cache.lookup("storage engine", "openai") {
            CacheLookup::Hit { index, embedding } => {
                assert_eq!(embedding, vec![7, 7, 7, 7]);
                cache.refresh_results(index, vec![format!("fresh{}", round)]);
            }
            CacheLookup::Miss => {
                embedding_requests += 1;
                cache.insert(CacheEntry {
                    query: "storage engine".into(),
                    provider: "openai".into(),
                    embedding: vec![7, 7, 7, 7],
                    result_ids: vec!["first".into()],
                    created_at: 10,
                });
            }
        }
    }
    assert_eq!(embedding_requests, 1);
    assert_eq!(cache.len(), 1);
    assert_eq!(cache.get(0).result_ids, vec!["fresh1".to_string()]);
}

#[test]
fn lookup_is_exact_on_query_and_provider() {
    let mut cache = SearchCache::new();
    cache.insert(entry("abc", 1));
    assert!(matches!(cache.lookup("abc", "gemini"), CacheLookup::Miss));
    assert!(matches!(cache.lookup("ab", "openai"), CacheLookup::Miss));
    assert!(matches!(cache.lookup("abc", "openai"), CacheLookup::Hit { index: 0, .. }));
}

#[test]
fn lookup_takes_the_newest_match() {
    let mut cache = SearchCache::new();
    cache.insert(entry("same", 1));
    cache.insert(entry("other", 2));
    cache.insert(entry("same", 3));
    match cache.lookup("same", "openai") {
        CacheLookup::Hit { index, embedding } => {
            assert_eq!(index, 2);
            assert_eq!(embedding, vec![3, 0, 0, 0]);
        }
        CacheLookup::Miss => panic!("expected a hit"),
    }
}
