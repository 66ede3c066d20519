//! The cache itself, for use by one owner at a time.

use crate::model::{clamp_len, CacheState, Slot};
use crate::wellformed::{
    lemma_empty, lemma_evict_back, lemma_insert, lemma_lookup, lemma_reset_metrics, lemma_resize,
    lemma_size_bound, lemma_touch,
};
use std::collections::hash_map::RandomState;
use std::collections::{HashMap, VecDeque};
use std::hash::Hash;
use std::sync::Arc;
use vstd::prelude::*;
use vstd::std_specs::hash::{builds_valid_hashers, obeys_key_model};

verus! {

/// What the cache holds for one tracked key.
struct Entry<V> {
    counter: u32,
    value: Option<Arc<V>>,
}

impl<V> Entry<V> {
    /// The entry as the model sees it.
    spec fn slot(self) -> Slot<V> {
        Slot {
            counter: self.counter as nat,
            value: match self.value {
                Some(held) => Some(*held),
                None => None,
            },
        }
    }
}

/// Whether keys of type `K` can be tracked by a cache whose map hashes with `S`: hashing
/// and equality follow vstd's model of a hash table key, the hash builder follows vstd's
/// model of one, and a clone of a key is that key.
pub open spec fn keys_are_exact<K: Clone, S>() -> bool {
    &&& obeys_key_model::<K>()
    &&& builds_valid_hashers::<S>()
    &&& forall|a: K, b: K| #[trigger] cloned::<K>(a, b) ==> a == b
}

/// A cache that holds a value only for a key requested more than once in recent memory.
/// A key requested once is tracked, not cached. A value stays cached until the latest
/// request for its key leaves the window of recent requests, whose length is set when the
/// cache is made and can be changed later.
#[verifier::reject_recursive_types(S)]
pub struct DynamicCacheLocal<K, V, S = RandomState> {
    map: HashMap<K, Entry<V>, S>,
    list: VecDeque<(K, u32)>,
    mem_len: usize,
    size: usize,
    hits: u64,
    misses: u64,
}

impl<K, V, S> View for DynamicCacheLocal<K, V, S> {
    type V = CacheState<K, V>;

    closed spec fn view(&self) -> CacheState<K, V> {
        CacheState {
            slots: self.map@.map_values(|e: Entry<V>| e.slot()),
            window: self.list@.map_values(|p: (K, u32)| (p.0, p.1 as nat)),
            mem_len: self.mem_len as nat,
            size: self.size as nat,
            hits: self.hits as nat,
            misses: self.misses as nat,
        }
    }
}

/// Calls `Arc::clone`. Assumed of it, not proved: the handle that comes back refers to the
/// value that `handle` refers to.
#[verifier::external_body]
fn share<V>(handle: &Arc<V>) -> (shared: Arc<V>)
    ensures
        *shared == **handle,
{
    Arc::clone(handle)
}

/// Of `HashMap::with_hasher`, assumed and not proved: the map that it makes holds no key.
pub assume_specification<K, V, S>[ HashMap::<K, V, S>::with_hasher ](hash_builder: S) -> (made: HashMap<K, V, S>)
    ensures
        made@.is_empty(),
;

/// Brings a requested window length into the range from two to the largest 32-bit number.
fn clamp_mem_len(mem_len: usize) -> (clamped: usize)
    ensures
        clamped == clamp_len(mem_len as nat),
{
    if mem_len < 2 {
        2
    } else if mem_len > u32::MAX as usize {
        u32::MAX as usize
    } else {
        mem_len
    }
}

impl<K: Clone + Eq + Hash, V, S> DynamicCacheLocal<K, V, S> {
    /// Whether the cache is in a consistent state, and its keys are fit to be tracked.
    pub open spec fn wf(&self) -> bool {
        &&& self@.wf()
        &&& keys_are_exact::<K, S>()
    }


    /// Creates an empty cache whose window holds `mem_len` requests, or the nearest
    /// length between two and the largest 32-bit number, and whose keys are hashed with
    /// `hash_builder`.
    pub fn with_hasher(mem_len: usize, hash_builder: S) -> (cache: DynamicCacheLocal<K, V, S>)
        requires
            keys_are_exact::<K, S>(),
        ensures
            cache.wf(),
            cache@ == CacheState::<K, V>::empty(clamp_len(mem_len as nat)),
    {
        let mem_len = clamp_mem_len(mem_len);
        let cache = DynamicCacheLocal {
            map: HashMap::with_hasher(hash_builder),
            list: VecDeque::with_capacity(mem_len),
            mem_len,
            size: 0,
            hits: 0,
            misses: 0,
        };
        proof {
            assert(cache@.slots =~= Map::empty());
            assert(cache@.window =~= Seq::empty());
            lemma_empty(cache@);
        }
        cache
    }

    /// The number of values currently cached.
    pub fn size(&self) -> (size: usize)
        ensures
            size == self@.size,
    {
        self.size
    }

    /// The length limit of the window of recent requests.
    pub fn mem_len(&self) -> (mem_len: usize)
        ensures
            mem_len == self@.mem_len,
    {
        self.mem_len
    }

    /// The number of tracked keys.
    pub fn key_count(&self) -> (count: usize)
        requires
            self.wf(),
        ensures
            count == self@.slots.dom().len(),
    {
        assert(self@.slots.dom() =~= self.map@.dom());
        self.map.len()
    }

    /// The number of requests in the window.
    pub fn window_len(&self) -> (len: usize)
        ensures
            len == self@.window.len(),
    {
        self.list.len()
    }
}

impl<K: Clone + Eq + Hash, V> DynamicCacheLocal<K, V> {
    /// Creates an empty cache whose window holds `mem_len` requests, or the nearest
    /// length between two and the largest 32-bit number.
    pub fn new(mem_len: usize) -> (cache: Self)
        requires
            keys_are_exact::<K, RandomState>(),
        ensures
            cache.wf(),
            cache@ == CacheState::<K, V>::empty(clamp_len(mem_len as nat)),
    {
        let mem_len = clamp_mem_len(mem_len);
        let cache = DynamicCacheLocal {
            map: HashMap::new(),
            list: VecDeque::with_capacity(mem_len),
            mem_len,
            size: 0,
            hits: 0,
            misses: 0,
        };
        proof {
            assert(cache@.slots =~= Map::empty());
            assert(cache@.window =~= Seq::empty());
            lemma_empty(cache@);
        }
        cache
    }

    /// Drops the oldest request from the window and, if its key was not requested again
    /// since, forgets the key and its value.
    fn evict_back(&mut self, Ghost(pending): Ghost<Option<K>>)
        requires
            old(self)@.inv(pending),
            keys_are_exact::<K, RandomState>(),
            old(self)@.window.len() > 0,
        ensures
            final(self)@ == old(self)@.evict_back(),
            final(self)@.inv(pending),
    {
        proof {
            lemma_evict_back(self@, pending);
        }
        let ghost before = self@;
        let (key, last_count) = self.list.pop_back().unwrap();
        assert(before.window.last() == (key, last_count as nat));
        assert(before.tracks(key));
        let entry = self.map.get(&key).unwrap();
        let expired = entry.counter == last_count;
        let cached = entry.value.is_some();
        assert(entry.slot() == before.slots[key]);
        if expired {
            if cached {
                self.size -= 1;
            }
            self.map.remove(&key);
        }
        proof {
            assert(self@.window =~= before.window.drop_last());
            assert(self@.slots =~= before.evict_back().slots);
        }
    }

    /// Records a request for the key and returns the value cached for it, if there is one.
    ///
    /// A key seen for the first time becomes tracked; the request counter of a tracked key
    /// advances. If the window is full, its oldest request is dropped, and the key of that
    /// request is forgotten, with its value, if it was not requested again since. The
    /// request is written to the window, and a hit or a miss is counted.
    pub fn get(&mut self, key: &K) -> (found: Option<Arc<V>>)
        requires
            old(self).wf(),
            old(self)@.accepts(*key),
        ensures
            final(self).wf(),
            final(self)@ == old(self)@.lookup(*key),
            match found {
                Some(handle) => old(self)@.cached(*key) == Some(*handle),
                None => old(self)@.cached(*key) is None,
            },
    {
        let ghost before = self@;
        proof {
            lemma_touch(before, *key);
            lemma_lookup(before, *key);
        }
        let (counter, value) = match self.map.remove(key) {
            Some(entry) => {
                assert(entry.slot() == before.slots[*key]);
                (entry.counter + 1, entry.value)
            },
            None => (0, None),
        };
        let found = match &value {
            Some(held) => Some(share(held)),
            None => None,
        };
        let map_key = key.clone();
        assert(cloned::<K>(*key, map_key));
        self.map.insert(map_key, Entry { counter, value });
        proof {
            assert(self@.slots =~= before.touch(*key).slots);
            assert(self@ == before.touch(*key));
        }
        if self.list.len() == self.mem_len {
            self.evict_back(Ghost(Some(*key)));
        }
        let ghost trimmed = self@;
        let list_key = key.clone();
        assert(cloned::<K>(*key, list_key));
        self.list.push_front((list_key, counter));
        if found.is_some() {
            self.hits += 1;
        } else {
            self.misses += 1;
        }
        proof {
            assert(self@.window =~= seq![(*key, counter as nat)] + trimmed.window);
            assert(self@ == before.lookup(*key));
        }
        found
    }

    /// Offers a value produced for the key after a miss, and returns a handle to the
    /// value that the caller is to use.
    ///
    /// The value of a key requested for the first time is handed back without being
    /// stored. The value of a key requested before is stored, which makes the key cached.
    /// If the key has a value already, that one is handed back.
    pub fn insert(&mut self, key: &K, v: V) -> (handle: Arc<V>)
        requires
            old(self).wf(),
            old(self)@.tracks(*key),
        ensures
            final(self).wf(),
            final(self)@ == old(self)@.insert(*key, v),
            *handle == old(self)@.inserted(*key, v),
    {
        let ghost before = self@;
        proof {
            lemma_insert(before, *key, v);
            lemma_size_bound(before.insert(*key, v));
        }
        let entry = self.map.get(key).unwrap();
        assert(entry.slot() == before.slots[*key]);
        if entry.counter == 0 {
            Arc::new(v)
        } else {
            match &entry.value {
                Some(held) => share(held),
                None => {
                    let counter = entry.counter;
                    let handle = Arc::new(v);
                    let map_key = key.clone();
                    assert(cloned::<K>(*key, map_key));
                    self.map.insert(map_key, Entry { counter, value: Some(share(&handle)) });
                    self.size += 1;
                    proof {
                        assert(self@.slots =~= before.insert(*key, v).slots);
                    }
                    handle
                },
            }
        }
    }

    /// Whether a request for the key can be recorded: `get` and `get_or_insert` ask for it.
    /// It cannot once the key's request counter, or the hit or miss counter that the
    /// request would advance, has reached the largest number it can hold.
    pub fn accepts(&self, key: &K) -> (accepted: bool)
        requires
            self.wf(),
        ensures
            accepted == self@.accepts(*key),
    {
        match self.map.get(key) {
            Some(entry) => {
                assert(entry.slot() == self@.slots[*key]);
                entry.counter < u32::MAX && if entry.value.is_some() {
                    self.hits < u64::MAX
                } else {
                    self.misses < u64::MAX
                }
            },
            None => self.misses < u64::MAX,
        }
    }

    /// Whether the key is tracked: `insert` asks for it.
    pub fn tracks(&self, key: &K) -> (known: bool)
        requires
            self.wf(),
        ensures
            known == self@.tracks(*key),
    {
        self.map.contains_key(key)
    }

    /// Whether the key has a cached value.
    fn holds(&self, key: &K) -> (held: bool)
        requires
            self.wf(),
        ensures
            held == self@.cached(*key) is Some,
    {
        match self.map.get(key) {
            Some(entry) => {
                assert(entry.slot() == self@.slots[*key]);
                entry.value.is_some()
            },
            None => false,
        }
    }

    /// Fetches the value for the key through the cache: the cached value if there is one,
    /// else the value that `f` produces, which is stored if the key was requested before
    /// within the window. The request is recorded as `get` records it.
    ///
    /// `f` is called only when no value is cached, and before anything is recorded.
    pub fn get_or_insert<F: FnOnce() -> V>(&mut self, key: &K, f: F) -> (handle: Arc<V>)
        requires
            old(self).wf(),
            old(self)@.accepts(*key),
            old(self)@.cached(*key) is None ==> f.requires(()),
        ensures
            final(self).wf(),
            final(self)@ == old(self)@.request(*key, *handle),
            *handle == old(self)@.response(*key, *handle),
            old(self)@.cached(*key) is None ==> f.ensures((), *handle),
            !old(self)@.tracks(*key) ==> final(self)@.size <= old(self)@.size,
            old(self)@.cached(*key) is Some ==> final(self)@.hits == old(self)@.hits + 1,
            final(self)@.hits + final(self)@.misses == old(self)@.hits + old(self)@.misses + 1,
    {
        proof {
            lemma_lookup(self@, *key);
        }
        let produced = if self.holds(key) {
            None
        } else {
            Some(f())
        };
        match self.get(key) {
            Some(handle) => handle,
            None => self.insert(key, produced.unwrap()),
        }
    }

    /// Changes the length of the window of recent requests to `new_len`, or the nearest
    /// length between two and the largest 32-bit number. If the window holds more requests
    /// than that, the oldest are dropped, and with each the key that was not requested
    /// again since, and its value.
    pub fn set_mem_len(&mut self, new_len: usize)
        requires
            old(self).wf(),
        ensures
            final(self).wf(),
            final(self)@ == old(self)@.resize(new_len as nat),
            final(self)@.size <= old(self)@.size,
            final(self)@.mem_len == clamp_len(new_len as nat),
            final(self)@.window.len() == if old(self)@.window.len() > clamp_len(new_len as nat) {
                clamp_len(new_len as nat)
            } else {
                old(self)@.window.len()
            },
    {
        let new_len = clamp_mem_len(new_len);
        proof {
            lemma_resize(self@, new_len as nat);
        }
        while self.list.len() > new_len
            invariant
                self.wf(),
                self@.shrink(new_len as nat) == old(self)@.shrink(new_len as nat),
            decreases self.list.len(),
        {
            self.evict_back(Ghost(None));
        }
        self.mem_len = new_len;
        proof {
            assert(self@ == old(self)@.resize(new_len as nat));
        }
    }

    /// Forgets every key, every cached value and every request. The hit and miss counters
    /// stay as they are.
    pub fn clear_cache(&mut self)
        requires
            old(self).wf(),
        ensures
            final(self).wf(),
            final(self)@ == old(self)@.clear(),
    {
        self.size = 0;
        self.map.clear();
        self.list.clear();
        proof {
            assert(self@.slots =~= Map::empty());
            assert(self@.window =~= Seq::empty());
            lemma_empty(old(self)@);
        }
    }

    /// The number of requests so far that found a cached value.
    pub fn hits(&self) -> (hits: u64)
        ensures
            hits == self@.hits,
    {
        self.hits
    }

    /// The number of requests so far that found no cached value.
    pub fn misses(&self) -> (misses: u64)
        ensures
            misses == self@.misses,
    {
        self.misses
    }

    /// Sets the hit and miss counters to zero. The cache's contents stay as they are.
    pub fn reset_metrics(&mut self)
        ensures
            final(self)@ == old(self)@.reset_metrics(),
            old(self).wf() ==> final(self).wf(),
    {
        self.hits = 0;
        self.misses = 0;
        proof {
            if old(self).wf() {
                lemma_reset_metrics(old(self)@);
            }
        }
    }
}

} // verus!
