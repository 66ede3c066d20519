//! Every transition of the model keeps a well-formed state well-formed.

use crate::model::{clamp_len, CacheState};
use vstd::prelude::*;
use vstd::set_lib::*;

verus! {

/// The latest request for a key stays in the window when neither the window nor the key's
/// counter changes.
proof fn lemma_anchored_carries<K, V>(s: CacheState<K, V>, t: CacheState<K, V>, key: K)
    requires
        s.anchored(key),
        t.window == s.window,
        t.slots[key].counter == s.slots[key].counter,
    ensures
        t.anchored(key),
{
    let i = choose|i: int|
        0 <= i < s.window.len() && #[trigger] s.window[i] == (key, s.slots[key].counter);
    assert(t.window[i] == (key, t.slots[key].counter));
}

/// A new cache is well-formed if its window length is between two and the largest 32-bit
/// number, and so is a cleared one.
pub proof fn lemma_empty<K, V>(s: CacheState<K, V>)
    requires
        2 <= s.mem_len <= u32::MAX,
    ensures
        CacheState::<K, V>::empty(s.mem_len).wf(),
        s.clear().wf(),
{
    assert(CacheState::<K, V>::empty(s.mem_len).cached_keys() =~= Set::empty());
    assert(s.clear().cached_keys() =~= Set::empty());
}

/// Setting the hit and miss counters to zero keeps the state well-formed.
pub proof fn lemma_reset_metrics<K, V>(s: CacheState<K, V>)
    requires
        s.wf(),
    ensures
        s.reset_metrics().wf(),
{
    let t = s.reset_metrics();
    assert(t.cached_keys() =~= s.cached_keys());
    assert forall|k: K| #[trigger] t.tracks(k) implies t.anchored(k) by {
        assert(s.tracks(k));
        lemma_anchored_carries(s, t, k);
    }
}

/// The keys with a cached value are finitely many, and all of them are tracked.
pub proof fn lemma_cached_keys_finite<K, V>(s: CacheState<K, V>)
    requires
        s.slots.dom().finite(),
    ensures
        s.cached_keys().finite(),
        s.cached_keys().len() <= s.slots.dom().len(),
        forall|k: K| s.cached_keys().contains(k) <==> s.cached(k) is Some,
{
    s.slots.dom().lemma_len_filter(|k: K| s.slots[k].value is Some);
}

/// Touching a key leaves the state consistent but for that key.
pub proof fn lemma_touch<K, V>(s: CacheState<K, V>, key: K)
    requires
        s.wf(),
    ensures
        s.touch(key).inv(Some(key)),
        s.touch(key).size == s.size,
        s.touch(key).window == s.window,
{
    let t = s.touch(key);
    assert(t.cached_keys() =~= s.cached_keys());
    assert forall|k: K| #[trigger] t.tracks(k) && Some(key) != Some(k) implies t.anchored(k) by {
        assert(s.tracks(k));
        lemma_anchored_carries(s, t, k);
    }
}

/// Dropping the oldest window entry keeps the state as consistent as it was. The key of
/// that entry is tracked, `size` goes down by one if a cached value is forgotten and stays
/// otherwise, and a pending key keeps its slot.
pub proof fn lemma_evict_back<K, V>(s: CacheState<K, V>, pending: Option<K>)
    requires
        s.inv(pending),
        s.window.len() > 0,
    ensures
        s.evict_back().inv(pending),
        s.tracks(s.window.last().0),
        s.evict_back().size == if s.back_expires() && s.cached(s.window.last().0) is Some {
            s.size - 1
        } else {
            s.size as int
        },
        pending matches Some(k) ==> s.evict_back().slots[k] == s.slots[k],
        s.evict_back().mem_len == s.mem_len,
        s.evict_back().window.len() == s.window.len() - 1,
{
    let t = s.evict_back();
    let last = s.window.len() - 1;
    let kb = s.window[last].0;
    assert(s.tracks(s.window[last].0));
    lemma_cached_keys_finite(s);
    if s.back_expires() {
        assert(pending != Some(kb));
        assert forall|i: int| 0 <= i < t.window.len() implies (#[trigger] t.window[i]).0
            != kb by {
            assert(t.window[i] == s.window[i]);
            if s.window[i].0 == s.window[last].0 {
                assert(s.window[i].1 > s.window[last].1);
            }
        }
        assert forall|i: int| 0 <= i < t.window.len() implies t.tracks(
            (#[trigger] t.window[i]).0,
        ) && t.window[i].1 <= t.slots[t.window[i].0].counter by {
            assert(t.window[i] == s.window[i]);
        }
        if s.slots[kb].value is Some {
            assert(s.cached_keys().contains(kb));
            assert(t.cached_keys() =~= s.cached_keys().remove(kb));
        } else {
            assert(t.cached_keys() =~= s.cached_keys());
        }
    } else {
        assert(t.cached_keys() =~= s.cached_keys());
        assert forall|i: int| 0 <= i < t.window.len() implies t.tracks(
            (#[trigger] t.window[i]).0,
        ) && t.window[i].1 <= t.slots[t.window[i].0].counter by {
            assert(t.window[i] == s.window[i]);
        }
    }
    assert forall|i: int, j: int|
        0 <= i < j < t.window.len() && (#[trigger] t.window[i]).0 == (
        #[trigger] t.window[j]).0 implies t.window[i].1 > t.window[j].1 by {
        assert(t.window[i] == s.window[i]);
        assert(t.window[j] == s.window[j]);
    }
    assert forall|k: K| #[trigger] t.tracks(k) && pending != Some(k) implies t.anchored(k) by {
        assert(s.tracks(k));
        assert(s.anchored(k));
        let i = choose|i: int|
            0 <= i < s.window.len() && #[trigger] s.window[i] == (k, s.slots[k].counter);
        assert(i != last);
        assert(t.window[i] == (k, t.slots[k].counter));
    }
    match pending {
        Some(k) => {
            assert forall|i: int|
                0 <= i < t.window.len() && (#[trigger] t.window[i]).0 == k implies t.window[i].1
                < t.slots[k].counter by {
                assert(t.window[i] == s.window[i]);
            }
        },
        None => {},
    }
}

/// Writing the pending request to the front of a window with room for it makes the
/// state well-formed.
pub proof fn lemma_push_front<K, V>(s: CacheState<K, V>, key: K, t: CacheState<K, V>)
    requires
        s.inv(Some(key)),
        s.window.len() < s.mem_len,
        t.slots == s.slots,
        t.window == seq![(key, s.slots[key].counter)] + s.window,
        t.mem_len == s.mem_len,
        t.size == s.size,
    ensures
        t.wf(),
{
    assert(t.cached_keys() =~= s.cached_keys());
    assert forall|i: int| 0 <= i < t.window.len() implies t.tracks((#[trigger] t.window[i]).0)
        && t.window[i].1 <= t.slots[t.window[i].0].counter by {
        if i > 0 {
            assert(t.window[i] == s.window[i - 1]);
        }
    }
    assert forall|i: int, j: int|
        0 <= i < j < t.window.len() && (#[trigger] t.window[i]).0 == (
        #[trigger] t.window[j]).0 implies t.window[i].1 > t.window[j].1 by {
        assert(t.window[j] == s.window[j - 1]);
        if i > 0 {
            assert(t.window[i] == s.window[i - 1]);
        }
    }
    assert forall|k: K| #[trigger] t.tracks(k) implies t.anchored(k) by {
        if k == key {
            assert(t.window[0] == (k, t.slots[k].counter));
        } else {
            assert(s.tracks(k));
            assert(s.anchored(k));
            let i = choose|i: int|
                0 <= i < s.window.len() && #[trigger] s.window[i] == (k, s.slots[k].counter);
            assert(t.window[i + 1] == (k, t.slots[k].counter));
        }
    }
}

/// A lookup keeps the state well-formed. The key stays tracked, with the value it had; the
/// request stands at the front of the window, which has grown by one entry unless it was
/// full; `size` has not grown.
pub proof fn lemma_lookup<K, V>(s: CacheState<K, V>, key: K)
    requires
        s.wf(),
    ensures
        s.lookup(key).wf(),
        s.lookup(key).tracks(key),
        s.lookup(key).cached(key) == s.cached(key),
        s.lookup(key).slots[key] == s.touch(key).slots[key],
        s.lookup(key).window[0] == (key, s.lookup(key).slots[key].counter),
        s.lookup(key).window.len() == if s.window.len() == s.mem_len {
            s.mem_len
        } else {
            s.window.len() + 1
        },
        s.lookup(key).size <= s.size,
        s.lookup(key).mem_len == s.mem_len,
{
    let touched = s.touch(key);
    lemma_touch(s, key);
    if touched.window.len() == touched.mem_len {
        lemma_evict_back(touched, Some(key));
        lemma_push_front(touched.evict_back(), key, s.lookup(key));
    } else {
        lemma_push_front(touched, key, s.lookup(key));
    }
}

/// Offering a value keeps the state well-formed.
pub proof fn lemma_insert<K, V>(s: CacheState<K, V>, key: K, value: V)
    requires
        s.wf(),
    ensures
        s.insert(key, value).wf(),
        s.insert(key, value).mem_len == s.mem_len,
{
    let t = s.insert(key, value);
    if s.promotes(key) {
        lemma_cached_keys_finite(s);
        assert(!s.cached_keys().contains(key));
        assert(t.cached_keys() =~= s.cached_keys().insert(key));
        assert(t.slots.dom() =~= s.slots.dom());
        assert forall|k: K| #[trigger] t.tracks(k) implies t.anchored(k) by {
            assert(s.tracks(k));
            lemma_anchored_carries(s, t, k);
        }
    }
}

/// A request keeps the state well-formed.
pub proof fn lemma_request<K, V>(s: CacheState<K, V>, key: K, produced: V)
    requires
        s.wf(),
    ensures
        s.request(key, produced).wf(),
        s.request(key, produced).mem_len == s.mem_len,
{
    lemma_lookup(s, key);
    lemma_insert(s.lookup(key), key, produced);
}

/// Shrinking the window keeps the state well-formed and never raises `size`.
pub proof fn lemma_shrink<K, V>(s: CacheState<K, V>, len: nat)
    requires
        s.wf(),
    ensures
        s.shrink(len).wf(),
        s.shrink(len).size <= s.size,
        s.shrink(len).mem_len == s.mem_len,
        s.shrink(len).window.len() == if s.window.len() > len {
            len
        } else {
            s.window.len()
        },
    decreases s.window.len(),
{
    if s.window.len() > len {
        lemma_evict_back(s, None);
        lemma_shrink(s.evict_back(), len);
    }
}

/// A change of the window length keeps the state well-formed.
pub proof fn lemma_resize<K, V>(s: CacheState<K, V>, new_len: nat)
    requires
        s.wf(),
    ensures
        s.resize(new_len).wf(),
        s.resize(new_len).size <= s.size,
        s.resize(new_len).window.len() == if s.window.len() > clamp_len(new_len) {
            clamp_len(new_len)
        } else {
            s.window.len()
        },
{
    let len = clamp_len(new_len);
    lemma_shrink(s, len);
    let a = s.shrink(len);
    let b = s.resize(new_len);
    assert(b.cached_keys() =~= a.cached_keys());
    assert forall|k: K| #[trigger] b.tracks(k) implies b.anchored(k) by {
        assert(a.tracks(k));
        lemma_anchored_carries(a, b, k);
    }
}

/// The position in the window of the latest request for a tracked key.
pub open spec fn anchor<K, V>(s: CacheState<K, V>, key: K) -> int {
    choose|i: int| 0 <= i < s.window.len() && #[trigger] s.window[i] == (key, s.slots[key].counter)
}

/// No more keys are tracked than the window holds requests, and no more values are cached
/// than keys are tracked.
pub proof fn lemma_size_bound<K, V>(s: CacheState<K, V>)
    requires
        s.wf(),
    ensures
        s.size <= s.slots.dom().len() <= s.window.len(),
{
    lemma_cached_keys_finite(s);
    let keys = s.slots.dom();
    let f = |k: K| anchor(s, k);
    let places = keys.map(f);
    assert forall|a: K, b: K| keys.contains(a) && keys.contains(b) && f(a) == f(b) implies a
        == b by {
        assert(s.tracks(a));
        assert(s.anchored(a));
        assert(s.tracks(b));
        assert(s.anchored(b));
    }
    assert(vstd::relations::injective_on(f, keys));
    lemma_map_size(keys, places, f);
    let range = set_int_range(0, s.window.len() as int);
    lemma_int_range(0, s.window.len() as int);
    assert forall|i: int| places.contains(i) implies range.contains(i) by {
        let k = choose|k: K| keys.contains(k) && f(k) == i;
        assert(s.tracks(k));
        assert(s.anchored(k));
    }
    lemma_len_subset(places, range);
}

} // verus!
