use dynamic_cache::DynamicCacheLocal;
use rand::distributions::Distribution;
use rand::distributions::WeightedIndex;
use rand::thread_rng;
use rand::Rng;
use std::cell::Cell;
use std::sync::Arc;

const A: u8 = b'A';
const B: u8 = b'B';
const C: u8 = b'C';
const D: u8 = b'D';

fn request(cache: &mut DynamicCacheLocal<u8, String>, key: u8, produced: &str) -> Arc<String> {
    cache.get_or_insert(&key, || produced.to_string())
}

#[test]
fn do_it() {
    let sample_size = 1 << 12;
    let mut cache = DynamicCacheLocal::new(128);

    let mut rng = thread_rng();

    let seq: Vec<u16> = vec![
        0, 0, 0, 0, 1, 1, 0, 1, 0, 1, 2, 0, 1, 2, 0, 1, 2, 0, 1, 2, 0, 1, 2, 0, 1, 2,
    ];

    for key in seq {
        println!("Write {}", key);
        let val = format!("{}", key);
        let cache_val = if let Some(v) = cache.get(&key) {
            println!("Hit");
            v
        } else {
            println!("Miss");
            cache.insert(&key, val.clone())
        };
        assert_eq!(val.as_str(), cache_val.as_str());
    }
    println!("Cache size: {}", cache.size());

    for i in (3..=9).rev() {
        let mut misses = 0;
        for _ in 0..sample_size {
            let key: u16 = rng.gen_range(0, 1 << i);
            let val = format!("{}", key);
            let cache_val = if let Some(v) = cache.get(&key) {
                v
            } else {
                misses += 1;
                cache.insert(&key, val.clone())
            };
            assert_eq!(val.as_str(), cache_val.as_str());
        }
        let hit_rate = 100.0 * f64::from(sample_size - misses) / f64::from(sample_size);
        println!(
            "With range of (0..{:3}), Cache size: {:3}, hit rate = {:4.1}%",
            (1 << i),
            cache.size(),
            hit_rate
        );
    }

    let mut misses = 0;
    for _ in 0..sample_size {
        let key: u16 = rng.gen();
        let val = format!("{}", key);
        let cache_val = if let Some(v) = cache.get(&key) {
            v
        } else {
            misses += 1;
            cache.insert(&key, val.clone())
        };
        assert_eq!(val.as_str(), cache_val.as_str());
    }
    let hit_rate = 100.0 * f64::from(sample_size - misses) / f64::from(sample_size);
    println!(
        "With range of full u16, Cache size: {:3}, hit rate = {:4.1}%",
        cache.size(),
        hit_rate
    );

    let weights: Vec<u32> = vec![16, 8, 4, 2, 1];
    let dist = WeightedIndex::new(&weights).unwrap();
    let mut misses = 0;
    for _ in 0..sample_size {
        let is_main = rng.gen_bool(0.5);
        let key: u16 = if is_main {
            dist.sample(&mut rng) as u16
        } else {
            rng.gen()
        };
        let val = format!("{}", key);
        let cache_val = if let Some(v) = cache.get(&key) {
            v
        } else {
            if is_main {
                misses += 1;
            }
            cache.insert(&key, val.clone())
        };
        assert_eq!(val.as_str(), cache_val.as_str());
    }
    let hit_rate = 100.0 * f64::from(sample_size - misses) / f64::from(sample_size);
    println!(
        "Random u16 with log2 frequent requests, Cache size: {:3}, hit rate for main data = {:4.1}%",
        cache.size(),
        hit_rate
    );
}

#[test]
fn fixed_sequence_hits_and_misses() {
    let mut cache: DynamicCacheLocal<u16, String> = DynamicCacheLocal::new(128);
    let seq: Vec<u16> = vec![
        0, 0, 0, 0, 1, 1, 0, 1, 0, 1, 2, 0, 1, 2, 0, 1, 2, 0, 1, 2, 0, 1, 2, 0, 1, 2,
    ];
    for key in seq {
        let val = format!("{}", key);
        let got = cache.get_or_insert(&key, || val.clone());
        assert_eq!(val.as_str(), got.as_str());
    }
    // each of the three keys misses twice, on its first and on its second request
    assert_eq!(cache.misses(), 6);
    assert_eq!(cache.hits(), 20);
    assert_eq!(cache.size(), 3);
    assert_eq!(cache.key_count(), 3);
    assert_eq!(cache.window_len(), 26);
}

#[test]
fn scenario_window_of_three() {
    let mut cache: DynamicCacheLocal<u8, String> = DynamicCacheLocal::new(3);
    request(&mut cache, A, "a");
    assert_eq!(cache.size(), 0);
    request(&mut cache, A, "a");
    assert_eq!(cache.size(), 1);
    assert_eq!(cache.window_len(), 2);

    request(&mut cache, B, "b");
    assert_eq!(cache.size(), 1);
    assert_eq!(cache.window_len(), 3);
    // the window is full: the older entry of A leaves it, A stays
    request(&mut cache, C, "c");
    assert_eq!(cache.size(), 1);
    assert!(cache.tracks(&A));
    // the latest entry of A leaves the window: A is forgotten
    request(&mut cache, D, "d");
    assert_eq!(cache.size(), 0);
    assert!(!cache.tracks(&A));
    assert_eq!(cache.window_len(), 3);
    assert_eq!(cache.key_count(), 3);
    assert!(cache.tracks(&B) && cache.tracks(&C) && cache.tracks(&D));
    assert_eq!(cache.hits(), 0);
    assert_eq!(cache.misses(), 5);
}

#[test]
fn first_request_is_not_cached() {
    let mut cache: DynamicCacheLocal<u8, String> = DynamicCacheLocal::new(8);
    let got = request(&mut cache, A, "one");
    assert_eq!(got.as_str(), "one");
    assert_eq!(cache.size(), 0);
    assert!(cache.tracks(&A));
    assert_eq!(cache.key_count(), 1);
    assert_eq!(cache.misses(), 1);
    assert_eq!(cache.hits(), 0);
    let got = request(&mut cache, B, "two");
    assert_eq!(got.as_str(), "two");
    assert_eq!(cache.size(), 0);
}

#[test]
fn second_request_promotes() {
    let mut cache: DynamicCacheLocal<u8, String> = DynamicCacheLocal::new(8);
    request(&mut cache, A, "first");
    let before = cache.size();
    let got = request(&mut cache, A, "second");
    assert_eq!(cache.size(), before + 1);
    assert_eq!(got.as_str(), "second");
    assert_eq!(cache.misses(), 2);
    // the value cached is the one produced at the second request
    let again = request(&mut cache, A, "third");
    assert_eq!(again.as_str(), "second");
    assert!(Arc::ptr_eq(&got, &again));
}

#[test]
fn second_request_that_forgets_another_value_keeps_size() {
    let mut cache: DynamicCacheLocal<u8, String> = DynamicCacheLocal::new(2);
    request(&mut cache, B, "b");
    request(&mut cache, B, "b");
    assert_eq!(cache.size(), 1);
    request(&mut cache, A, "a");
    assert_eq!(cache.size(), 1);
    // this request promotes A and drops the latest entry of B from the full window
    let got = request(&mut cache, A, "a2");
    assert_eq!(got.as_str(), "a2");
    assert_eq!(cache.size(), 1);
    assert!(!cache.tracks(&B));
    assert!(cache.tracks(&A));
}

#[test]
fn hits_share_the_stored_value() {
    let mut cache: DynamicCacheLocal<u8, String> = DynamicCacheLocal::new(4);
    let calls = Cell::new(0u32);
    let produce = |text: &str| {
        calls.set(calls.get() + 1);
        text.to_string()
    };
    cache.get_or_insert(&A, || produce("x"));
    let stored = cache.get_or_insert(&A, || produce("y"));
    assert_eq!(calls.get(), 2);
    for round in 0..10u64 {
        let got = cache.get_or_insert(&A, || produce("z"));
        assert!(Arc::ptr_eq(&stored, &got));
        assert_eq!(got.as_str(), "y");
        assert_eq!(cache.hits(), round + 1);
    }
    assert_eq!(calls.get(), 2);
    assert_eq!(cache.misses(), 2);
    assert_eq!(cache.size(), 1);
}

#[test]
fn window_aging_forgets_a_promoted_key() {
    let mem_len = 5usize;
    let mut cache: DynamicCacheLocal<u8, String> = DynamicCacheLocal::new(mem_len);
    request(&mut cache, A, "a");
    request(&mut cache, A, "a");
    assert_eq!(cache.size(), 1);
    // one request short of the window length: A is still cached
    for other in 0..(mem_len as u8 - 1) {
        request(&mut cache, other, "o");
    }
    assert!(cache.tracks(&A));
    assert_eq!(cache.size(), 1);
    // with one more the latest request for A leaves the window
    request(&mut cache, 100, "o");
    assert!(!cache.tracks(&A));
    assert_eq!(cache.size(), 0);

    // the next request for A is a miss that caches nothing, the one after it promotes
    let misses = cache.misses();
    let got = request(&mut cache, A, "fresh");
    assert_eq!(got.as_str(), "fresh");
    assert_eq!(cache.misses(), misses + 1);
    assert_eq!(cache.size(), 0);
    let got = request(&mut cache, A, "again");
    assert_eq!(got.as_str(), "again");
    assert_eq!(cache.size(), 1);
    let got = request(&mut cache, A, "unused");
    assert_eq!(got.as_str(), "again");
}

#[test]
fn a_request_renews_the_key() {
    let mut cache: DynamicCacheLocal<u8, String> = DynamicCacheLocal::new(3);
    request(&mut cache, A, "a");
    request(&mut cache, A, "a");
    request(&mut cache, B, "b");
    request(&mut cache, C, "c");
    // A is requested again just before its latest entry would leave the window
    assert_eq!(request(&mut cache, A, "x").as_str(), "a");
    request(&mut cache, D, "d");
    request(&mut cache, B, "b");
    assert!(cache.tracks(&A));
    assert_eq!(request(&mut cache, A, "y").as_str(), "a");
    assert_eq!(cache.hits(), 2);
}

#[test]
fn resize_never_increases_size() {
    let mut cache: DynamicCacheLocal<u8, String> = DynamicCacheLocal::new(16);
    for key in 0..6u8 {
        request(&mut cache, key, "v");
        request(&mut cache, key, "v");
    }
    assert_eq!(cache.size(), 6);
    assert_eq!(cache.window_len(), 12);
    let mut last = cache.size();
    for new_len in [14usize, 12, 11, 10, 7, 4, 3, 2] {
        cache.set_mem_len(new_len);
        assert_eq!(cache.mem_len(), new_len);
        assert!(cache.size() <= last);
        assert!(cache.window_len() <= new_len);
        last = cache.size();
    }
    assert_eq!(cache.size(), 1);
    assert_eq!(cache.key_count(), 1);
    assert!(cache.tracks(&5));
    cache.set_mem_len(64);
    assert_eq!(cache.size(), 1);
    assert_eq!(cache.mem_len(), 64);
    assert_eq!(cache.window_len(), 2);
}

#[test]
fn shrinking_forgets_several_values_at_once() {
    let mut cache: DynamicCacheLocal<u8, String> = DynamicCacheLocal::new(16);
    for key in 0..4u8 {
        request(&mut cache, key, "v");
        request(&mut cache, key, "v");
    }
    assert_eq!(cache.size(), 4);
    cache.set_mem_len(3);
    // the window keeps the two entries of key 3 and the later entry of key 2
    assert_eq!(cache.window_len(), 3);
    assert_eq!(cache.size(), 2);
    assert!(!cache.tracks(&0) && !cache.tracks(&1));
    assert!(cache.tracks(&2) && cache.tracks(&3));
    assert_eq!(cache.hits(), 0);
    assert_eq!(cache.misses(), 8);
}

#[test]
fn window_length_is_clamped() {
    let cache: DynamicCacheLocal<u8, String> = DynamicCacheLocal::new(0);
    assert_eq!(cache.mem_len(), 2);
    let cache: DynamicCacheLocal<u8, String> = DynamicCacheLocal::new(1);
    assert_eq!(cache.mem_len(), 2);
    let mut cache: DynamicCacheLocal<u8, String> = DynamicCacheLocal::new(2);
    assert_eq!(cache.mem_len(), 2);
    cache.set_mem_len(0);
    assert_eq!(cache.mem_len(), 2);
    cache.set_mem_len(1);
    assert_eq!(cache.mem_len(), 2);
    cache.set_mem_len(77);
    assert_eq!(cache.mem_len(), 77);
    cache.set_mem_len(usize::MAX);
    assert_eq!(cache.mem_len(), u32::MAX as usize);
    cache.set_mem_len(u32::MAX as usize);
    assert_eq!(cache.mem_len(), u32::MAX as usize);
}

#[test]
fn window_of_two_still_promotes() {
    let mut cache: DynamicCacheLocal<u8, String> = DynamicCacheLocal::new(0);
    request(&mut cache, A, "a");
    request(&mut cache, A, "a");
    assert_eq!(cache.size(), 1);
    request(&mut cache, B, "b");
    assert_eq!(cache.size(), 1);
    request(&mut cache, C, "c");
    assert_eq!(cache.size(), 0);
    assert_eq!(cache.window_len(), 2);
}

#[test]
fn metrics_add_up_and_reset() {
    let mut cache: DynamicCacheLocal<u8, String> = DynamicCacheLocal::new(4);
    let keys = [A, B, A, A, C, D, A, B, B, C, A, A];
    for (n, key) in keys.iter().enumerate() {
        request(&mut cache, *key, "v");
        assert_eq!(cache.hits() + cache.misses(), n as u64 + 1);
    }
    // the hits are the fourth, seventh, eleventh and twelfth request, all for A
    assert_eq!(cache.hits(), 4);
    assert_eq!(cache.misses(), 8);
    let size = cache.size();
    assert_eq!(size, 2);
    let keys_known = cache.key_count();
    let window = cache.window_len();
    cache.reset_metrics();
    assert_eq!(cache.hits(), 0);
    assert_eq!(cache.misses(), 0);
    assert_eq!(cache.size(), size);
    assert_eq!(cache.key_count(), keys_known);
    assert_eq!(cache.window_len(), window);
    request(&mut cache, A, "v");
    assert_eq!(cache.hits() + cache.misses(), 1);
}

#[test]
fn clear_cache_keeps_the_metrics() {
    let mut cache: DynamicCacheLocal<u8, String> = DynamicCacheLocal::new(4);
    request(&mut cache, A, "a");
    request(&mut cache, A, "a");
    request(&mut cache, A, "a");
    request(&mut cache, B, "b");
    cache.clear_cache();
    assert_eq!(cache.size(), 0);
    assert_eq!(cache.key_count(), 0);
    assert_eq!(cache.window_len(), 0);
    assert_eq!(cache.mem_len(), 4);
    assert_eq!(cache.hits(), 1);
    assert_eq!(cache.misses(), 3);
    assert!(!cache.tracks(&A));
    // A starts over
    assert_eq!(request(&mut cache, A, "new").as_str(), "new");
    assert_eq!(cache.size(), 0);
}

#[test]
fn get_records_the_request() {
    let mut cache: DynamicCacheLocal<u8, String> = DynamicCacheLocal::new(4);
    assert!(cache.get(&A).is_none());
    assert_eq!(cache.misses(), 1);
    assert!(cache.tracks(&A));
    assert_eq!(cache.window_len(), 1);
    assert!(cache.get(&A).is_none());
    assert_eq!(cache.misses(), 2);
    assert_eq!(cache.window_len(), 2);
    let stored = cache.insert(&A, "a".to_string());
    assert_eq!(cache.size(), 1);
    let found = cache.get(&A).unwrap();
    assert!(Arc::ptr_eq(&stored, &found));
    assert_eq!(cache.hits(), 1);
    assert_eq!(cache.misses(), 2);
    assert_eq!(cache.window_len(), 3);
}

#[test]
fn insert_at_the_first_request_stores_nothing() {
    let mut cache: DynamicCacheLocal<u8, String> = DynamicCacheLocal::new(4);
    assert!(cache.get(&A).is_none());
    let handle = cache.insert(&A, "a".to_string());
    assert_eq!(handle.as_str(), "a");
    assert_eq!(Arc::strong_count(&handle), 1);
    assert_eq!(cache.size(), 0);
    assert!(cache.get(&A).is_none());
}

#[test]
fn insert_hands_back_a_value_already_stored() {
    let mut cache: DynamicCacheLocal<u8, String> = DynamicCacheLocal::new(4);
    assert!(cache.get(&A).is_none());
    assert!(cache.get(&A).is_none());
    let stored = cache.insert(&A, "kept".to_string());
    assert_eq!(Arc::strong_count(&stored), 2);
    let again = cache.insert(&A, "dropped".to_string());
    assert_eq!(again.as_str(), "kept");
    assert!(Arc::ptr_eq(&stored, &again));
    assert_eq!(cache.size(), 1);
}

#[test]
fn handles_outlive_their_key() {
    let mut cache: DynamicCacheLocal<u8, String> = DynamicCacheLocal::new(2);
    request(&mut cache, A, "a");
    let held = request(&mut cache, A, "held");
    assert_eq!(Arc::strong_count(&held), 2);
    request(&mut cache, B, "b");
    request(&mut cache, C, "c");
    assert!(!cache.tracks(&A));
    assert_eq!(Arc::strong_count(&held), 1);
    assert_eq!(held.as_str(), "held");
    cache.clear_cache();
    assert_eq!(held.as_str(), "held");
}

#[test]
fn accepts_and_tracks_answer_for_the_key() {
    let mut cache: DynamicCacheLocal<u8, String> = DynamicCacheLocal::new(4);
    assert!(cache.accepts(&A));
    assert!(!cache.tracks(&A));
    request(&mut cache, A, "a");
    assert!(cache.accepts(&A));
    assert!(cache.tracks(&A));
    assert!(!cache.tracks(&B));
    assert!(cache.accepts(&B));
}
