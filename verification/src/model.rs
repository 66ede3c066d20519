//! The mathematical model of the cache: what a cache is, and how each operation changes it.
//!
//! A cache is described by a [`CacheState`]: the tracked keys with their request counters and
//! cached values, the window of recent requests, the window's length limit, and the
//! bookkeeping counters. Every operation of the executable cache is specified as a function
//! from one `CacheState` to the next.

use vstd::prelude::*;

verus! {

/// What is known of one tracked key.
pub struct Slot<V> {
    /// How many requests came for the key since the first one that made it tracked.
    pub counter: nat,
    /// The cached value, once the key was promoted.
    pub value: Option<V>,
}

/// The state of a cache.
#[verifier::ext_equal]
#[verifier::reject_recursive_types(K)]
pub struct CacheState<K, V> {
    /// The tracked keys.
    pub slots: Map<K, Slot<V>>,
    /// The recent requests, most recent first: each is the requested key and the value
    /// that the key's counter had just after the request.
    pub window: Seq<(K, nat)>,
    /// The largest number of requests the window holds.
    pub mem_len: nat,
    /// The number of cached values.
    pub size: nat,
    /// The number of requests that found a cached value.
    pub hits: nat,
    /// The number of requests that found none.
    pub misses: nat,
}

/// The window length that a requested length stands for: the nearest one between two and
/// the largest 32-bit number.
pub open spec fn clamp_len(len: nat) -> nat {
    if len < 2 {
        2
    } else if len > u32::MAX {
        u32::MAX as nat
    } else {
        len
    }
}

impl<K, V> CacheState<K, V> {
    /// The state of a new cache with the given window length.
    pub open spec fn empty(mem_len: nat) -> Self {
        CacheState {
            slots: Map::empty(),
            window: Seq::empty(),
            mem_len,
            size: 0,
            hits: 0,
            misses: 0,
        }
    }

    /// Whether the key is tracked.
    pub open spec fn tracks(self, key: K) -> bool {
        self.slots.contains_key(key)
    }

    /// The value cached for the key, if there is one.
    pub open spec fn cached(self, key: K) -> Option<V> {
        if self.tracks(key) {
            self.slots[key].value
        } else {
            None
        }
    }

    /// The keys that have a cached value.
    pub open spec fn cached_keys(self) -> Set<K> {
        self.slots.dom().filter(|k: K| self.slots[k].value is Some)
    }

    /// Whether the window holds the latest request for the key.
    pub open spec fn anchored(self, key: K) -> bool {
        exists|i: int|
            0 <= i < self.window.len() && #[trigger] self.window[i] == (
                key,
                self.slots[key].counter,
            )
    }

    /// The consistency of the tracked keys with the window, but for one key, `pending`,
    /// whose request is being recorded: its counter is already advanced and its window entry
    /// not yet written.
    pub open spec fn inv(self, pending: Option<K>) -> bool {
        &&& 2 <= self.mem_len <= u32::MAX
        &&& self.window.len() <= self.mem_len
        &&& self.slots.dom().finite()
        &&& self.size == self.cached_keys().len()
        &&& forall|i: int|
            0 <= i < self.window.len() ==> self.tracks((#[trigger] self.window[i]).0)
                && self.window[i].1 <= self.slots[self.window[i].0].counter
        &&& forall|i: int, j: int|
            0 <= i < j < self.window.len() && (#[trigger] self.window[i]).0 == (
            #[trigger] self.window[j]).0 ==> self.window[i].1 > self.window[j].1
        &&& forall|k: K| #[trigger] self.tracks(k) && pending != Some(k) ==> self.anchored(k)
        &&& match pending {
            Some(k) => self.tracks(k) && forall|i: int|
                0 <= i < self.window.len() && (#[trigger] self.window[i]).0 == k
                    ==> self.window[i].1 < self.slots[k].counter,
            None => true,
        }
    }

    /// Well-formedness: the window length limit is between two and the largest 32-bit
    /// number and the window keeps to it; `size` is the number of cached values; every
    /// key in the window is tracked, with a counter that no window entry exceeds; of two
    /// window entries for one key the more recent has the greater counter; and the latest
    /// request for every tracked key is in the window.
    pub open spec fn wf(self) -> bool {
        self.inv(None)
    }

    /// The first step of a lookup: a key seen for the first time becomes tracked, with
    /// counter zero and no value; the counter of a tracked key advances.
    pub open spec fn touch(self, key: K) -> Self {
        let slot = if self.tracks(key) {
            Slot { counter: self.slots[key].counter + 1, value: self.slots[key].value }
        } else {
            Slot { counter: 0, value: None }
        };
        CacheState { slots: self.slots.insert(key, slot), ..self }
    }

    /// Whether dropping the oldest window entry forgets its key: it does when the key was
    /// not requested again since that entry was written.
    pub open spec fn back_expires(self) -> bool {
        &&& self.window.len() > 0
        &&& self.tracks(self.window.last().0)
        &&& self.slots[self.window.last().0].counter == self.window.last().1
    }

    /// Drops the oldest window entry, and forgets its key, with its value, if the key was
    /// not requested again since.
    pub open spec fn evict_back(self) -> Self
        recommends
            self.window.len() > 0,
    {
        let key = self.window.last().0;
        if self.back_expires() {
            CacheState {
                slots: self.slots.remove(key),
                window: self.window.drop_last(),
                size: if self.slots[key].value is Some {
                    (self.size - 1) as nat
                } else {
                    self.size
                },
                ..self
            }
        } else {
            CacheState { window: self.window.drop_last(), ..self }
        }
    }

    /// A lookup of the key: the key is touched, the oldest window entry is dropped if the
    /// window is full, the request is written to the front of the window, and a hit or a
    /// miss is counted.
    pub open spec fn lookup(self, key: K) -> Self {
        let touched = self.touch(key);
        let trimmed = if touched.window.len() == touched.mem_len {
            touched.evict_back()
        } else {
            touched
        };
        CacheState {
            window: seq![(key, touched.slots[key].counter)] + trimmed.window,
            hits: if self.cached(key) is Some {
                self.hits + 1
            } else {
                self.hits
            },
            misses: if self.cached(key) is Some {
                self.misses
            } else {
                self.misses + 1
            },
            ..trimmed
        }
    }

    /// Whether a request for the key forgets the cached value of another key: the window
    /// is full, and its oldest entry is the latest request for a key that has a value.
    pub open spec fn displaces_cached(self, key: K) -> bool {
        &&& self.window.len() == self.mem_len
        &&& self.touch(key).back_expires()
        &&& self.cached(self.window.last().0) is Some
    }

    /// Whether a value offered for the key is stored: it is when the key was requested
    /// before its latest request and has no value yet.
    pub open spec fn promotes(self, key: K) -> bool {
        &&& self.tracks(key)
        &&& self.slots[key].counter > 0
        &&& self.slots[key].value is None
    }

    /// The offer of a value produced for the key after a miss: the value is stored if the
    /// key is due for promotion, and nothing changes otherwise.
    pub open spec fn insert(self, key: K, value: V) -> Self {
        if self.promotes(key) {
            CacheState {
                slots: self.slots.insert(
                    key,
                    Slot { counter: self.slots[key].counter, value: Some(value) },
                ),
                size: self.size + 1,
                ..self
            }
        } else {
            self
        }
    }

    /// The value handed back when `value` is offered for the key: a value already cached
    /// for a key requested more than once, else `value` itself.
    pub open spec fn inserted(self, key: K, value: V) -> V {
        if self.tracks(key) && self.slots[key].counter > 0 {
            match self.slots[key].value {
                Some(held) => held,
                None => value,
            }
        } else {
            value
        }
    }

    /// Whether a request for the key can be recorded without a counter running over: the
    /// key's request counter is a 32-bit number, the hit and the miss counter 64-bit ones.
    pub open spec fn accepts(self, key: K) -> bool {
        &&& self.tracks(key) ==> self.slots[key].counter < u32::MAX
        &&& self.cached(key) is Some ==> self.hits < u64::MAX
        &&& self.cached(key) is None ==> self.misses < u64::MAX
    }

    /// A request for the key, where `produced` is what the producer returns if it is
    /// called: a lookup, and after a miss the offer of `produced`.
    pub open spec fn request(self, key: K, produced: V) -> Self {
        if self.cached(key) is Some {
            self.lookup(key)
        } else {
            self.lookup(key).insert(key, produced)
        }
    }

    /// The value that a request for the key returns: the cached one after a hit, the
    /// produced one after a miss.
    pub open spec fn response(self, key: K, produced: V) -> V {
        match self.cached(key) {
            Some(held) => held,
            None => produced,
        }
    }

    /// Drops the oldest window entries, as `evict_back` does, until the window holds at
    /// most `len`.
    pub open spec fn shrink(self, len: nat) -> Self
        decreases self.window.len(),
    {
        if self.window.len() > len {
            self.evict_back().shrink(len)
        } else {
            self
        }
    }

    /// A change of the window length: the window is shrunk to the clamped length, which
    /// becomes the limit.
    pub open spec fn resize(self, new_len: nat) -> Self {
        CacheState { mem_len: clamp_len(new_len), ..self.shrink(clamp_len(new_len)) }
    }

    /// Forgets every key and every request; the hit and miss counters stay.
    pub open spec fn clear(self) -> Self {
        CacheState { slots: Map::empty(), window: Seq::empty(), size: 0, ..self }
    }

    /// Sets the hit and miss counters to zero; everything else stays.
    pub open spec fn reset_metrics(self) -> Self {
        CacheState { hits: 0, misses: 0, ..self }
    }

    /// The state after a sequence of requests, each a key with what its producer returns
    /// if called.
    pub open spec fn run(self, requests: Seq<(K, V)>) -> Self
        decreases requests.len(),
    {
        if requests.len() == 0 {
            self
        } else {
            self.run(requests.drop_last()).request(requests.last().0, requests.last().1)
        }
    }
}

} // verus!
