//! What holds of every cache, proved of the model that the cache's operations are
//! specified by.

use crate::model::CacheState;
use crate::wellformed::{
    anchor, lemma_evict_back, lemma_lookup, lemma_request, lemma_resize, lemma_touch,
};
use vstd::prelude::*;

verus! {

/// Requests keep a well-formed state well-formed, and leave the window length limit as it
/// is.
pub proof fn lemma_run<K, V>(s: CacheState<K, V>, requests: Seq<(K, V)>)
    requires
        s.wf(),
    ensures
        s.run(requests).wf(),
        s.run(requests).mem_len == s.mem_len,
    decreases requests.len(),
{
    if requests.len() > 0 {
        lemma_run(s, requests.drop_last());
        lemma_request(s.run(requests.drop_last()), requests.last().0, requests.last().1);
    }
}

/// The first request for a key that is not tracked is a miss, returns what the producer
/// returns, and does not cache it: `size` does not grow, and the key has no value
/// afterwards.
pub proof fn law_first_request_not_cached<K, V>(s: CacheState<K, V>, key: K, produced: V)
    requires
        s.wf(),
        !s.tracks(key),
    ensures
        s.request(key, produced).size <= s.size,
        s.request(key, produced).cached(key) is None,
        s.request(key, produced).tracks(key),
        s.request(key, produced).slots[key].counter == 0,
        s.request(key, produced).misses == s.misses + 1,
        s.request(key, produced).hits == s.hits,
        s.response(key, produced) == produced,
{
    lemma_lookup(s, key);
}

/// Two requests in a row for a key that was not tracked cache the value produced at the
/// second one: after it the key holds that value, the second request returns it, and
/// `size` has grown by exactly one, unless the second request also forgets the cached
/// value of another key, whose latest request leaves the full window at that moment.
pub proof fn law_second_request_promotes<K, V>(
    s: CacheState<K, V>,
    key: K,
    first: V,
    second: V,
)
    requires
        s.wf(),
        !s.tracks(key),
        !s.request(key, first).displaces_cached(key),
    ensures
        s.request(key, first).request(key, second).size == s.request(key, first).size + 1,
        s.request(key, first).request(key, second).cached(key) == Some(second),
        s.request(key, first).response(key, second) == second,
{
    lemma_lookup(s, key);
    let once = s.request(key, first);
    assert(once == s.lookup(key));
    assert(once.wf());
    lemma_promotion(once, key, second);
}

/// A request for a key that is tracked without a value is a miss that caches the produced
/// value; `size` grows by one unless the request forgets the cached value of another key.
pub proof fn lemma_promotion<K, V>(s: CacheState<K, V>, key: K, produced: V)
    requires
        s.wf(),
        s.tracks(key),
        s.cached(key) is None,
    ensures
        s.request(key, produced).cached(key) == Some(produced),
        s.response(key, produced) == produced,
        s.request(key, produced).size == if s.displaces_cached(key) {
            s.size
        } else {
            s.size + 1
        },
{
    lemma_lookup(s, key);
    lemma_touch(s, key);
    let touched = s.touch(key);
    if touched.window.len() == touched.mem_len {
        lemma_evict_back(touched, Some(key));
        let last = touched.window.last().0;
        assert(touched.tracks(last));
        if touched.back_expires() {
            assert(last != key);
            assert(touched.cached(last) == s.cached(last));
        }
    }
}

/// A request for a key that has a cached value is a hit: it returns that value whatever
/// the producer would return, leaves the state as a lookup alone leaves it, counts one hit
/// and no miss, and the key keeps its value.
pub proof fn law_hit_returns_cached<K, V>(s: CacheState<K, V>, key: K, produced: V)
    requires
        s.wf(),
        s.cached(key) is Some,
    ensures
        s.response(key, produced) == s.cached(key)->0,
        s.request(key, produced) == s.lookup(key),
        s.request(key, produced).cached(key) == s.cached(key),
        s.request(key, produced).hits == s.hits + 1,
        s.request(key, produced).misses == s.misses,
{
    lemma_lookup(s, key);
}

/// Once a key has a cached value, any number of requests for that key in a row are hits:
/// each returns the cached value, the producers' values play no part, the hit counter
/// grows by one with each request, the miss counter stays, and the key keeps its value.
pub proof fn law_hit_after_promotion<K, V>(s: CacheState<K, V>, key: K, requests: Seq<(K, V)>)
    requires
        s.wf(),
        s.cached(key) is Some,
        forall|i: int| 0 <= i < requests.len() ==> (#[trigger] requests[i]).0 == key,
    ensures
        s.run(requests).cached(key) == s.cached(key),
        s.run(requests).hits == s.hits + requests.len(),
        s.run(requests).misses == s.misses,
        forall|i: int|
            0 <= i < requests.len() ==> s.run(requests.subrange(0, i)).response(
                key,
                (#[trigger] requests[i]).1,
            ) == s.cached(key)->0,
    decreases requests.len(),
{
    if requests.len() > 0 {
        let earlier = requests.drop_last();
        law_hit_after_promotion(s, key, earlier);
        lemma_run(s, earlier);
        law_hit_returns_cached(s.run(earlier), key, requests.last().1);
        assert forall|i: int| 0 <= i < requests.len() implies s.run(
            requests.subrange(0, i),
        ).response(key, (#[trigger] requests[i]).1) == s.cached(key)->0 by {
            if i < earlier.len() {
                assert(requests.subrange(0, i) =~= earlier.subrange(0, i));
                assert(requests[i] == earlier[i]);
            } else {
                assert(requests.subrange(0, i) =~= earlier);
            }
        }
    }
}

/// The latest request for a tracked key stands at one place in the window only.
proof fn lemma_anchor_unique<K, V>(s: CacheState<K, V>, key: K, i: int)
    requires
        s.wf(),
        s.tracks(key),
        0 <= i < s.window.len(),
        s.window[i] == (key, s.slots[key].counter),
    ensures
        anchor(s, key) == i,
{
    assert(s.anchored(key));
    let a = anchor(s, key);
    assert(s.window[a].0 == s.window[i].0);
    if a < i {
        assert(s.window[a].1 > s.window[i].1);
    } else if i < a {
        assert(s.window[i].1 > s.window[a].1);
    }
}

/// A request for another key moves the latest request for a tracked key one place towards
/// the end of the window, or forgets the key; it never makes an untracked key tracked.
proof fn lemma_request_ages<K, V>(s: CacheState<K, V>, key: K, other: K, produced: V)
    requires
        s.wf(),
        other != key,
    ensures
        s.request(other, produced).tracks(key) ==> s.tracks(key) && anchor(
            s.request(other, produced),
            key,
        ) == anchor(s, key) + 1,
{
    let after = s.request(other, produced);
    lemma_request(s, other, produced);
    lemma_touch(s, other);
    let touched = s.touch(other);
    if touched.window.len() == touched.mem_len {
        lemma_evict_back(touched, Some(other));
    }
    if after.tracks(key) {
        assert(s.tracks(key));
        assert(s.anchored(key));
        let i = anchor(s, key);
        assert(s.window[i] == (key, s.slots[key].counter));
        assert(after.slots[key] == s.slots[key]);
        assert(touched.window[i] == s.window[i]);
        assert(after.window[i + 1] == (key, after.slots[key].counter));
        lemma_anchor_unique(after, key, i + 1);
    }
}

/// While a key is tracked and only other keys are requested, the latest request for it
/// moves one place towards the end of the window with each request.
proof fn lemma_run_ages<K, V>(s: CacheState<K, V>, key: K, requests: Seq<(K, V)>)
    requires
        s.wf(),
        forall|i: int| 0 <= i < requests.len() ==> (#[trigger] requests[i]).0 != key,
    ensures
        s.run(requests).tracks(key) ==> s.tracks(key) && anchor(s.run(requests), key) == anchor(
            s,
            key,
        ) + requests.len(),
    decreases requests.len(),
{
    if requests.len() > 0 {
        let earlier = requests.drop_last();
        lemma_run_ages(s, key, earlier);
        lemma_run(s, earlier);
        lemma_request_ages(s.run(earlier), key, requests.last().0, requests.last().1);
    }
}

/// A key that is not requested during as many requests as the window holds, or more, is
/// forgotten with its value. The request for it that follows is a miss that returns what
/// its producer returns and caches nothing, as for a key never seen; the one after
/// that caches the value then produced.
pub proof fn law_window_aging<K, V>(
    s: CacheState<K, V>,
    key: K,
    requests: Seq<(K, V)>,
    first: V,
    second: V,
)
    requires
        s.wf(),
        requests.len() >= s.mem_len,
        forall|i: int| 0 <= i < requests.len() ==> (#[trigger] requests[i]).0 != key,
    ensures
        !s.run(requests).tracks(key),
        s.run(requests).cached(key) is None,
        s.run(requests).response(key, first) == first,
        s.run(requests).request(key, first).cached(key) is None,
        s.run(requests).request(key, first).request(key, second).cached(key) == Some(second),
{
    let aged = s.run(requests);
    lemma_run(s, requests);
    lemma_run_ages(s, key, requests);
    if aged.tracks(key) {
        assert(s.anchored(key));
        assert(aged.anchored(key));
    }
    law_first_request_not_cached(aged, key, first);
    lemma_request(aged, key, first);
    lemma_promotion(aged.request(key, first), key, second);
}

/// A change of the window length never raises `size`.
pub proof fn law_resize_never_grows<K, V>(s: CacheState<K, V>, new_len: nat)
    requires
        s.wf(),
    ensures
        s.resize(new_len).size <= s.size,
        s.resize(new_len).wf(),
{
    lemma_resize(s, new_len);
}

/// Every request counts as one hit or one miss: after a sequence of requests the two
/// counters together have grown by the number of requests. Setting them to zero changes
/// neither `size` nor anything else of the state, and a sequence of requests after that
/// leaves them with the number of requests as their sum.
pub proof fn law_metrics_additive<K, V>(s: CacheState<K, V>, requests: Seq<(K, V)>)
    ensures
        s.run(requests).hits + s.run(requests).misses == s.hits + s.misses + requests.len(),
        s.reset_metrics().hits == 0,
        s.reset_metrics().misses == 0,
        s.reset_metrics().size == s.size,
        s.reset_metrics().slots == s.slots,
        s.reset_metrics().window == s.window,
        s.reset_metrics().mem_len == s.mem_len,
        s.reset_metrics().run(requests).hits + s.reset_metrics().run(requests).misses
            == requests.len(),
    decreases requests.len(),
{
    if requests.len() > 0 {
        law_metrics_additive(s, requests.drop_last());
        law_metrics_additive(s.reset_metrics(), requests.drop_last());
    }
}

} // verus!
