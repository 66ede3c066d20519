use dynamic_cache::DynamicCacheLocal;
use std::collections::hash_map::RandomState;

#[test]
fn with_hasher_makes_an_empty_cache() {
    let cache: DynamicCacheLocal<u32, String, RandomState> =
        DynamicCacheLocal::with_hasher(10, RandomState::new());
    assert_eq!(cache.mem_len(), 10);
    assert_eq!(cache.size(), 0);
    assert_eq!(cache.key_count(), 0);
    assert_eq!(cache.window_len(), 0);
    assert_eq!(cache.hits(), 0);
    assert_eq!(cache.misses(), 0);
}

#[test]
fn with_hasher_clamps_the_window_length() {
    let cache: DynamicCacheLocal<u32, String, RandomState> =
        DynamicCacheLocal::with_hasher(1, RandomState::new());
    assert_eq!(cache.mem_len(), 2);
}

#[test]
fn with_hasher_cache_works_as_a_new_one() {
    let mut cache: DynamicCacheLocal<u32, u64, RandomState> =
        DynamicCacheLocal::with_hasher(3, RandomState::new());
    assert_eq!(*cache.get_or_insert(&7, || 70), 70);
    assert_eq!(*cache.get_or_insert(&7, || 71), 71);
    assert_eq!(*cache.get_or_insert(&7, || 72), 71);
    assert_eq!(cache.size(), 1);
    assert_eq!(cache.key_count(), 1);
}
