//! The invariant of the engine is kept by the steps that commands are made of.

use vstd::prelude::*;

use crate::clock::{law_xorshift_stays_nonzero, Clock};
use crate::storage::adaptive_climb::{
    law_climb_evicts_lru_end, lemma_eviction_keeps, lemma_list_follows,
};
use crate::storage::engine::model::{
    candidate_of, sample_of, start_of, walk_from, EngineView,
};
use crate::storage::eviction::{choice, is_victim, EvictionPolicy};
use crate::storage::keyspace::{lemma_listed, sorted_keys};
use crate::storage::sieve::{
    law_sieve_finds_victim, lemma_queue_follows, lemma_scope_keys, lemma_sweep_keeps, scope_keys,
};

verus! {

/// A key that a policy gives up is a key of the store, and asking for it keeps
/// the invariant.
pub proof fn lemma_victim_stored(s: EngineView, now: Clock)
    requires
        s.wf(),
    ensures
        s.victim(now).0 matches Some(k) ==> s.store.contains_key(k),
        s.victim(now).1.wf(),
        s.victim(now).1.store == s.store,
        s.victim(now).1.log == s.log,
{
    let policy = s.cfg.policy;
    let scope = policy.scope_of();
    law_xorshift_stays_nonzero(s.rng);
    if policy == EvictionPolicy::NoEviction {
    } else if policy.sieve() {
        let aware = policy.sieve_ttl_aware();
        let t = now.mono_ns as u128;
        law_sieve_finds_victim(s.sieve, s.store, scope, aware, t);
        lemma_sweep_keeps(s.sieve, s.store, scope, aware, t, s.sieve.items.len() + 1);
    } else if policy.adaptive_climb() {
        law_climb_evicts_lru_end(s.climb, s.store, scope);
        lemma_eviction_keeps(s.climb, s.store, scope);
    } else {
        let keys = sorted_keys(s.store);
        lemma_listed(s.store);
        let start = start_of(s.draw(), keys.len());
        let walk = walk_from(keys, start);
        let seen = scope_keys(s.store, scope, walk);
        let sample = sample_of(s.store, scope, s.cfg.samples as int, start);
        lemma_scope_keys(s.store, scope, walk);
        if let Some(c) = choice(policy, sample) {
            let i = choose|i: int| is_victim(policy, sample, i);
            assert(sample[i] == candidate_of(s.store, seen[i]));
            assert(walk.contains(seen[i]));
            let x = choose|x: int| 0 <= x < walk.len() && walk[x] == seen[i];
            let y = if x < keys.len() - start { x + start } else { x - (keys.len() - start) };
            assert(keys[y] == seen[i]);
            assert(keys.contains(seen[i]));
        }
    }
}

/// Removing a key keeps the invariant.
pub proof fn lemma_valid_without(s: EngineView, key: Seq<u8>)
    requires
        s.wf(),
    ensures
        s.forgotten(key).wf(),
        s.dropped(key).wf(),
{
    lemma_queue_follows(s.sieve, key);
    lemma_list_follows(s.climb, key);
}

/// Reading keeps the invariant.
pub proof fn lemma_valid_read(s: EngineView, key: Seq<u8>, now: Clock)
    requires
        s.wf(),
    ensures
        s.purged(key, now).wf(),
        s.fetched(key, now).1.wf(),
        s.tested(key, now).1.wf(),
{
    lemma_valid_without(s, key);
    law_xorshift_stays_nonzero(s.rng);
    lemma_queue_follows(s.sieve, key);
    lemma_list_follows(s.climb, key);
}

/// Making room keeps the invariant.
pub proof fn lemma_valid_room(s: EngineView, incoming: int, now: Clock, rounds: nat)
    requires
        s.wf(),
    ensures
        s.made_room(incoming, now, rounds).1.wf(),
    decreases rounds,
{
    if !s.fits(incoming) && rounds > 0 {
        lemma_victim_stored(s, now);
        let (victim, asked) = s.victim(now);
        if let Some(key) = victim {
            lemma_valid_without(asked, key);
            lemma_valid_room(asked.dropped(key), incoming, now, (rounds - 1) as nat);
        }
    }
}

} // verus!
