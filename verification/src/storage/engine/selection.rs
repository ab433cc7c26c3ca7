//! Which key goes when memory runs out.
//!
//! The laws here speak of the keys in the store: how long each has been idle, how
//! much it is used and when it expires.

use vstd::prelude::*;

use crate::clock::Clock;
use crate::storage::engine::model::{
    candidate_of, sample_of, start_of, walk_from, EngineView,
};
use crate::storage::engine::room::{lemma_scope_members, lemma_victim_exists};
use crate::storage::entry::EntryView;
use crate::storage::eviction::{
    choice, considered, is_victim, law_lfu_takes_least_used, law_lru_takes_longest_idle,
    law_ttl_takes_soonest, samples_candidates, CandidateView, EvictionPolicy, EvictionScope,
};
use crate::storage::keyspace::{lemma_listed, sorted_keys};
use crate::storage::sieve::scope_keys;

verus! {

/// Whether a candidate tells the truth about a stored key.
pub open spec fn tells_of(c: CandidateView, store: Map<Seq<u8>, EntryView>) -> bool {
    &&& store.contains_key(c.key)
    &&& c.last_access == Some(store[c.key].last_access)
    &&& c.expire_at == store[c.key].expire_at
    &&& c.lfu_counter == store[c.key].lfu_counter
}

/// The candidates that the engine chooses from.
pub open spec fn sampled(s: EngineView) -> Seq<CandidateView> {
    sample_of(
        s.store,
        s.cfg.policy.scope_of(),
        s.cfg.samples as int,
        start_of(s.draw(), sorted_keys(s.store).len()),
    )
}

/// The engine chooses from stored keys, at most as many as the sample size says. A
/// policy for volatile keys sees only keys with a deadline, and a sample that is
/// large enough holds every key that the policy may evict.
pub proof fn law_sample_is_of_the_store(s: EngineView)
    requires
        s.store.dom().finite(),
    ensures
        sampled(s).len() <= s.cfg.samples,
        forall|i: int| 0 <= i < sampled(s).len() ==> tells_of(#[trigger] sampled(s)[i], s.store),
        s.cfg.policy.scope_of() == EvictionScope::Volatile ==> forall|i: int|
            0 <= i < sampled(s).len() ==> (#[trigger] sampled(s)[i]).expire_at is Some,
        s.cfg.samples >= s.store.dom().len() ==> forall|k: Seq<u8>| #[trigger]
            s.store.contains_key(k) && (s.cfg.policy.scope_of() == EvictionScope::Volatile
                ==> s.store[k].expire_at is Some) ==> exists|i: int|
                0 <= i < sampled(s).len() && (#[trigger] sampled(s)[i]).key == k,
{
    let scope = s.cfg.policy.scope_of();
    let keys = sorted_keys(s.store);
    lemma_listed(s.store);
    let start = start_of(s.draw(), keys.len());
    let walk = walk_from(keys, start);
    let seen = scope_keys(s.store, scope, walk);
    let sample = sampled(s);
    lemma_scope_members(s.store, scope, walk);
    lemma_scope_len(s.store, scope, walk);
    lemma_listed_len(s.store);
    assert forall|k: Seq<u8>| #[trigger] walk.contains(k) <==> s.store.contains_key(k) by {
        if walk.contains(k) {
            let i = choose|i: int| 0 <= i < walk.len() && walk[i] == k;
            let x = if i < keys.len() - start { i + start } else { i - (keys.len() - start) };
            assert(keys[x] == k);
        }
        if s.store.contains_key(k) {
            assert(keys.contains(k));
            let x = choose|x: int| 0 <= x < keys.len() && keys[x] == k;
            let i = if x >= start { x - start } else { keys.len() - start + x };
            assert(walk[i] == k);
        }
    }
    assert forall|i: int| 0 <= i < sample.len() implies tells_of(#[trigger] sample[i], s.store) && (
    scope == EvictionScope::Volatile ==> sample[i].expire_at is Some) by {
        assert(sample[i] == candidate_of(s.store, seen[i]));
        assert(seen.contains(seen[i]));
    }
    if s.cfg.samples >= s.store.dom().len() {
        assert(sample.len() == seen.len());
        assert forall|k: Seq<u8>| #[trigger] s.store.contains_key(k) && (scope
            == EvictionScope::Volatile ==> s.store[k].expire_at is Some) implies exists|i: int|
            0 <= i < sample.len() && (#[trigger] sample[i]).key == k by {
            assert(walk.contains(k));
            assert(seen.contains(k));
            let i = choose|i: int| 0 <= i < seen.len() && seen[i] == k;
            assert(sample[i] == candidate_of(s.store, seen[i]));
        }
    }
}

proof fn lemma_scope_len(
    store: Map<Seq<u8>, EntryView>,
    scope: EvictionScope,
    keys: Seq<Seq<u8>>,
)
    ensures
        scope_keys(store, scope, keys).len() <= keys.len(),
    decreases keys.len(),
{
    if keys.len() > 0 {
        lemma_scope_len(store, scope, keys.drop_last());
    }
}

proof fn lemma_listed_len(m: Map<Seq<u8>, EntryView>)
    requires
        m.dom().finite(),
    ensures
        sorted_keys(m).len() == m.dom().len(),
{
    let keys = sorted_keys(m);
    lemma_listed(m);
    assert forall|i: int, j: int|
        0 <= i < keys.len() && 0 <= j < keys.len() && i != j implies keys[i] != keys[j] by {
        crate::storage::keyspace::lemma_key_less_irreflexive(keys[i]);
        if i < j {
            assert(crate::storage::keyspace::key_less(keys[i], keys[j]));
        } else {
            assert(crate::storage::keyspace::key_less(keys[j], keys[i]));
        }
    }
    keys.unique_seq_to_set();
    assert(keys.to_set() =~= m.dom());
}

/// Whether a policy may evict a stored key: any key, or for the volatile policies
/// one with a deadline.
pub open spec fn evictable(s: EngineView, k: Seq<u8>) -> bool {
    s.store.contains_key(k) && (s.cfg.policy.scope_of() == EvictionScope::Volatile
        ==> s.store[k].expire_at is Some)
}

/// With a sample that holds every key, the right key goes. Under LRU no key that may
/// go has been idle longer, under LFU none is used less, and under `volatile-ttl`
/// none expires sooner. There is a victim whenever some key may go.
pub proof fn law_the_right_key_goes(s: EngineView, now: Clock)
    requires
        s.store.dom().finite(),
        s.cfg.samples >= s.store.dom().len(),
        samples_candidates(s.cfg.policy),
    ensures
        (exists|k: Seq<u8>| evictable(s, k)) ==> s.victim(now).0 is Some,
        s.victim(now).0 matches Some(v) ==> {
            &&& evictable(s, v)
            &&& forall|k: Seq<u8>| #[trigger]
                evictable(s, k) ==> match s.cfg.policy {
                    EvictionPolicy::AllKeysLru | EvictionPolicy::VolatileLru => {
                        s.store[v].last_access <= s.store[k].last_access
                    },
                    EvictionPolicy::AllKeysLfu | EvictionPolicy::VolatileLfu => {
                        ||| s.store[v].lfu_counter < s.store[k].lfu_counter
                        ||| s.store[v].lfu_counter == s.store[k].lfu_counter
                            && s.store[v].last_access <= s.store[k].last_access
                    },
                    EvictionPolicy::VolatileTtl => {
                        s.store[v].expire_at->0 <= s.store[k].expire_at->0
                    },
                    _ => true,
                }
        },
{
    let policy = s.cfg.policy;
    let sample = sampled(s);
    law_sample_is_of_the_store(s);
    if exists|k: Seq<u8>| evictable(s, k) {
        let k = choose|k: Seq<u8>| evictable(s, k);
        let i = choose|i: int| 0 <= i < sample.len() && (#[trigger] sample[i]).key == k;
        assert(tells_of(sample[i], s.store));
        assert(considered(policy, sample[i]));
        lemma_victim_exists(policy, sample, i);
    }
    if let Some(c) = choice(policy, sample) {
        let at = choose|i: int| is_victim(policy, sample, i);
        assert(c == sample[at] && tells_of(sample[at], s.store));
        if policy == EvictionPolicy::AllKeysLru || policy == EvictionPolicy::VolatileLru {
            law_lru_takes_longest_idle(policy, sample, c);
        } else if policy == EvictionPolicy::AllKeysLfu || policy == EvictionPolicy::VolatileLfu {
            law_lfu_takes_least_used(policy, sample, c);
        } else if policy == EvictionPolicy::VolatileTtl {
            law_ttl_takes_soonest(sample, c);
        }
        assert forall|k: Seq<u8>| #[trigger] evictable(s, k) implies exists|i: int|
            0 <= i < sample.len() && (#[trigger] sample[i]).key == k && tells_of(
                sample[i],
                s.store,
            ) by {
            assert(s.store.contains_key(k));
            let i = choose|i: int| 0 <= i < sample.len() && (#[trigger] sample[i]).key == k;
            assert(tells_of(sample[i], s.store));
        }
    }
}

} // verus!
