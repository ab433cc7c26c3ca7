//! When the memory limit refuses a write.

use vstd::prelude::*;

use crate::clock::Clock;
use crate::storage::adaptive_climb::{
    law_climb_evicts_lru_end, lemma_eviction_keeps, lemma_list_follows,
};
use crate::storage::engine::memory::lemma_total_remove;
use crate::storage::engine::model::{
    candidate_of, entry_cost, pair_error, sample_of, start_of, total_cost, walk_from, EngineView,
};
use crate::storage::entry::EntryView;
use crate::storage::eviction::{
    choice, considered, goes_before, is_victim, samples_candidates, CandidateView, EvictionConfig,
    EvictionPolicy, EvictionScope,
};
use crate::storage::keyspace::{
    ascending, key_less, lemma_key_less_irreflexive, lemma_listed, sorted_keys,
};
use crate::storage::queue::holds;
use crate::storage::sieve::{
    eligible, in_scope, law_sieve_finds_victim, lemma_queue_follows,
    lemma_sweep_keeps, scope_keys,
};

verus! {

/// Whether the policy may evict a key of this store.
pub open spec fn may_go(policy: EvictionPolicy, store: Map<Seq<u8>, EntryView>, key: Seq<u8>) -> bool {
    policy != EvictionPolicy::NoEviction && eligible(store, policy.scope_of(), key)
}

/// The part of the store that the policy may not evict.
pub open spec fn fixed(policy: EvictionPolicy, store: Map<Seq<u8>, EntryView>) -> Map<
    Seq<u8>,
    EntryView,
> {
    Map::new(
        |k: Seq<u8>| store.contains_key(k) && !may_go(policy, store, k),
        |k: Seq<u8>| store[k],
    )
}

/// Whether the policy can see every key that it may evict: its queue holds
/// them, or it takes samples.
pub open spec fn sees_all(s: EngineView) -> bool {
    if s.cfg.policy.sieve() {
        s.sieve.wf() && forall|k: Seq<u8>|
            may_go(s.cfg.policy, s.store, k) ==> #[trigger] holds(s.sieve.items, k)
    } else if s.cfg.policy.adaptive_climb() {
        s.climb.wf() && forall|k: Seq<u8>|
            may_go(s.cfg.policy, s.store, k) ==> #[trigger] s.climb.keys.contains(k)
    } else {
        s.cfg.samples > 0
    }
}

/// A sample with something to consider has a victim.
pub proof fn lemma_victim_exists(policy: EvictionPolicy, cs: Seq<CandidateView>, some: int)
    requires
        0 <= some < cs.len(),
        considered(policy, cs[some]),
    ensures
        exists|i: int| is_victim(policy, cs, i),
    decreases cs.len(),
{
    let front = cs.drop_last();
    let last = cs.len() - 1;
    assert forall|j: int| 0 <= j < front.len() implies front[j] == cs[j] by {}
    if exists|i: int| 0 <= i < front.len() && considered(policy, #[trigger] front[i]) {
        let other = choose|i: int| 0 <= i < front.len() && considered(policy, #[trigger] front[i]);
        lemma_victim_exists(policy, front, other);
        let b = choose|i: int| is_victim(policy, front, i);
        if considered(policy, cs[last]) && goes_before(policy, cs[last], cs[b]) {
            assert forall|j: int|
                0 <= j < cs.len() && considered(policy, #[trigger] cs[j]) implies !goes_before(
                policy,
                cs[j],
                cs[last],
            ) && (j < last ==> goes_before(policy, cs[last], cs[j])) by {
                if j < last {
                    assert(front[j] == cs[j]);
                    assert(!goes_before(policy, front[j], front[b]));
                }
            }
            assert(is_victim(policy, cs, last));
        } else {
            assert forall|j: int|
                0 <= j < cs.len() && considered(policy, #[trigger] cs[j]) implies !goes_before(
                policy,
                cs[j],
                cs[b],
            ) && (j < b ==> goes_before(policy, cs[b], cs[j])) by {
                if j < last {
                    assert(front[j] == cs[j]);
                }
            }
            assert(is_victim(policy, cs, b));
        }
    } else {
        assert forall|j: int| 0 <= j < last implies !considered(policy, #[trigger] cs[j]) by {
            assert(front[j] == cs[j]);
        }
        assert(is_victim(policy, cs, last));
    }
}

/// The keys in scope, whatever the order of the walk.
pub proof fn lemma_scope_members(
    store: Map<Seq<u8>, EntryView>,
    scope: EvictionScope,
    keys: Seq<Seq<u8>>,
)
    ensures
        forall|k: Seq<u8>|
            #[trigger] scope_keys(store, scope, keys).contains(k) <==> keys.contains(k) && in_scope(
                scope,
                store[k],
            ),
    decreases keys.len(),
{
    if keys.len() > 0 {
        let front = keys.drop_last();
        let last = keys.last();
        let rest = scope_keys(store, scope, front);
        let all = scope_keys(store, scope, keys);
        lemma_scope_members(store, scope, front);
        assert forall|k: Seq<u8>| #[trigger] all.contains(k) <==> keys.contains(k) && in_scope(
            scope,
            store[k],
        ) by {
            if all.contains(k) {
                let i = choose|i: int| 0 <= i < all.len() && all[i] == k;
                if i < rest.len() {
                    assert(rest[i] == k);
                    assert(rest.contains(k));
                    let x = choose|x: int| 0 <= x < front.len() && front[x] == k;
                    assert(keys[x] == k);
                } else {
                    assert(keys[keys.len() - 1] == k);
                }
            }
            if keys.contains(k) && in_scope(scope, store[k]) {
                let x = choose|x: int| 0 <= x < keys.len() && keys[x] == k;
                if x < front.len() {
                    assert(front[x] == k);
                    assert(rest.contains(k));
                    let i = choose|i: int| 0 <= i < rest.len() && rest[i] == k;
                    assert(all[i] == k);
                } else {
                    assert(all[all.len() - 1] == k);
                }
            }
        }
    }
}

/// A policy that takes samples finds a victim exactly when some key may go.
proof fn lemma_sample_finds(s: EngineView, now: Clock)
    requires
        s.store.dom().finite(),
        samples_candidates(s.cfg.policy),
        s.cfg.samples > 0,
    ensures
        s.victim(now).0 matches Some(k) ==> may_go(s.cfg.policy, s.store, k),
        (exists|k: Seq<u8>| may_go(s.cfg.policy, s.store, k)) ==> s.victim(now).0 is Some,
{
    let policy = s.cfg.policy;
    let scope = policy.scope_of();
    let keys = sorted_keys(s.store);
    lemma_listed(s.store);
    let start = start_of(s.draw(), keys.len());
    let walk = walk_from(keys, start);
    let seen = scope_keys(s.store, scope, walk);
    let sample = sample_of(s.store, scope, s.cfg.samples as int, start);
    lemma_scope_members(s.store, scope, walk);
    assert forall|k: Seq<u8>| #[trigger] walk.contains(k) <==> s.store.contains_key(k) by {
        if walk.contains(k) {
            let i = choose|i: int| 0 <= i < walk.len() && walk[i] == k;
            let x = if i < keys.len() - start { i + start } else { i - (keys.len() - start) };
            assert(keys[x] == k);
        }
        if s.store.contains_key(k) {
            assert(keys.contains(k));
            let x = choose|x: int| 0 <= x < keys.len() && keys[x] == k;
            let i = if x >= start { x - start } else { keys.len() - start + x };
            assert(walk[i] == k);
        }
    }
    assert forall|i: int| 0 <= i < sample.len() implies may_go(
        policy,
        s.store,
        (#[trigger] sample[i]).key,
    ) && considered(policy, sample[i]) by {
        assert(sample[i] == candidate_of(s.store, seen[i]));
        assert(seen.contains(seen[i]));
    }
    if exists|k: Seq<u8>| may_go(policy, s.store, k) {
        let k = choose|k: Seq<u8>| may_go(policy, s.store, k);
        assert(walk.contains(k));
        assert(seen.contains(k));
        assert(sample.len() > 0);
        assert(considered(policy, sample[0]));
        lemma_victim_exists(policy, sample, 0);
    }
    if let Some(c) = choice(policy, sample) {
        let i = choose|i: int| is_victim(policy, sample, i);
        assert(c == sample[i]);
    }
}

/// The victim may go, there is one whenever some key may go, and what may go
/// after it stays in sight.
pub proof fn lemma_victim(s: EngineView, now: Clock)
    requires
        s.store.dom().finite(),
        sees_all(s),
    ensures
        s.victim(now).0 matches Some(k) ==> may_go(s.cfg.policy, s.store, k) && sees_all(
            s.victim(now).1.dropped(k),
        ),
        (exists|k: Seq<u8>| may_go(s.cfg.policy, s.store, k)) ==> s.victim(now).0 is Some,
        s.victim(now).1.store == s.store,
        s.victim(now).1.cfg == s.cfg,
{
    let policy = s.cfg.policy;
    let scope = policy.scope_of();
    let (victim, asked) = s.victim(now);
    if policy == EvictionPolicy::NoEviction {
    } else if policy.sieve() {
        let aware = policy.sieve_ttl_aware();
        let t = now.mono_ns as u128;
        law_sieve_finds_victim(s.sieve, s.store, scope, aware, t);
        lemma_sweep_keeps(s.sieve, s.store, scope, aware, t, s.sieve.items.len() + 1);
        if exists|k: Seq<u8>| may_go(policy, s.store, k) {
            let k = choose|k: Seq<u8>| may_go(policy, s.store, k);
            assert(holds(s.sieve.items, k));
            let i = choose|i: int| 0 <= i < s.sieve.items.len() && (#[trigger] s.sieve.items[i]).0
                == k;
            assert(eligible(s.store, scope, s.sieve.items[i].0));
        }
        if let Some(key) = victim {
            lemma_queue_follows(asked.sieve, key);
            let after = asked.dropped(key);
            assert forall|k: Seq<u8>| may_go(policy, after.store, k) implies #[trigger] holds(
                after.sieve.items,
                k,
            ) by {
                assert(may_go(policy, s.store, k));
                assert(holds(s.sieve.items, k));
                assert(holds(asked.sieve.items, k));
            }
        }
    } else if policy.adaptive_climb() {
        law_climb_evicts_lru_end(s.climb, s.store, scope);
        lemma_eviction_keeps(s.climb, s.store, scope);
        if exists|k: Seq<u8>| may_go(policy, s.store, k) {
            let k = choose|k: Seq<u8>| may_go(policy, s.store, k);
            assert(s.climb.keys.contains(k));
            let i = choose|i: int| 0 <= i < s.climb.keys.len() && s.climb.keys[i] == k;
            assert(eligible(s.store, scope, s.climb.keys[i]));
        }
        if let Some(key) = victim {
            lemma_list_follows(asked.climb, key);
            let after = asked.dropped(key);
            assert forall|k: Seq<u8>| may_go(policy, after.store, k) implies #[trigger]
                after.climb.keys.contains(k) by {
                assert(may_go(policy, s.store, k));
                assert(s.climb.keys.contains(k));
                assert(asked.climb.keys.contains(k));
            }
        }
    } else {
        lemma_sample_finds(s, now);
    }
}

/// A part of a store is charged no more than the whole.
proof fn lemma_part_costs_less(part: Map<Seq<u8>, EntryView>, whole: Map<Seq<u8>, EntryView>)
    requires
        whole.dom().finite(),
        part.dom().finite(),
        forall|k: Seq<u8>| #[trigger]
            part.contains_key(k) ==> whole.contains_key(k) && part[k] == whole[k],
    ensures
        total_cost(part) <= total_cost(whole),
        total_cost(part) >= 0,
    decreases whole.dom().len(),
{
    if whole.dom().len() == 0 {
        assert(part.dom() =~= Set::empty()) by {
            assert forall|k: Seq<u8>| !part.dom().contains(k) by {
                if part.contains_key(k) {
                    assert(whole.dom().contains(k));
                }
            }
        }
    } else {
        let k = whole.dom().choose();
        assert(whole.dom().contains(k));
        lemma_total_remove(whole, k);
        if part.contains_key(k) {
            lemma_total_remove(part, k);
            lemma_part_costs_less(part.remove(k), whole.remove(k));
        } else {
            lemma_part_costs_less(part, whole.remove(k));
        }
    }
}

proof fn lemma_fixed(policy: EvictionPolicy, store: Map<Seq<u8>, EntryView>)
    requires
        store.dom().finite(),
    ensures
        fixed(policy, store).dom().finite(),
        total_cost(fixed(policy, store)) <= total_cost(store),
{
    let part = fixed(policy, store);
    assert(part.dom().subset_of(store.dom()));
    vstd::set_lib::lemma_set_subset_finite(store.dom(), part.dom());
    lemma_part_costs_less(part, store);
}

proof fn lemma_room(s: EngineView, incoming: int, now: Clock, rounds: nat)
    requires
        s.store.dom().finite(),
        sees_all(s),
        0 < s.cfg.max_memory < u64::MAX,
        incoming >= 0,
        rounds >= s.store.dom().len(),
    ensures
        s.made_room(incoming, now, rounds).0 <==> total_cost(fixed(s.cfg.policy, s.store))
            + incoming <= s.cfg.max_memory,
    decreases rounds,
{
    let policy = s.cfg.policy;
    lemma_fixed(policy, s.store);
    if !s.fits(incoming) {
        lemma_victim(s, now);
        let (victim, asked) = s.victim(now);
        match victim {
            Some(key) => {
                assert(s.store.dom().contains(key));
                let after = asked.dropped(key);
                assert(after.store =~= s.store.remove(key));
                assert(fixed(policy, after.store) =~= fixed(policy, s.store));
                lemma_room(after, incoming, now, (rounds - 1) as nat);
            },
            None => {
                assert(fixed(policy, s.store) =~= s.store);
            },
        }
    }
}

/// A write is refused for want of memory exactly when the keys that the policy
/// may not evict leave no room for it. Under a policy that may evict every key
/// this means: never, unless the write alone is larger than the limit. Under
/// `noeviction` it means: whenever the write does not fit as things stand.
pub proof fn law_refused_exactly_when_no_room(
    s: EngineView,
    key: Seq<u8>,
    value: Seq<u8>,
    now: Clock,
)
    requires
        s.wf(),
        sees_all(s),
        0 < s.cfg.max_memory < u64::MAX,
        pair_error(key, value) is None,
    ensures
        s.set(key, value, now).0 is Ok <==> total_cost(fixed(s.cfg.policy, s.store)) + s.growth(
            key,
            value.len(),
        ) <= s.cfg.max_memory,
        s.cfg.policy.scope_of() == EvictionScope::AllKeys && s.cfg.policy
            != EvictionPolicy::NoEviction && entry_cost(key, value.len()) <= s.cfg.max_memory
            ==> s.set(key, value, now).0 is Ok,
{
    lemma_room(s, s.growth(key, value.len()), now, s.rounds());
    if s.cfg.policy.scope_of() == EvictionScope::AllKeys && s.cfg.policy
        != EvictionPolicy::NoEviction {
        assert(fixed(s.cfg.policy, s.store) =~= Map::<Seq<u8>, EntryView>::empty());
    }
}

/// Choosing a policy builds its queue: from then on it sees every key that it
/// may evict.
pub proof fn law_new_policy_sees_all(s: EngineView, cfg: EvictionConfig)
    requires
        s.wf(),
        cfg.samples > 0,
    ensures
        sees_all(s.configured(cfg)),
{
    let keys = sorted_keys(s.store);
    let scope = cfg.policy.scope_of();
    let t = s.configured(cfg);
    lemma_listed(s.store);
    lemma_scope_members(s.store, scope, keys);
    let admitted = scope_keys(s.store, scope, keys);
    lemma_scope_distinct(s.store, scope, keys);
    if cfg.policy.sieve() {
        assert forall|k: Seq<u8>| may_go(cfg.policy, t.store, k) implies #[trigger] holds(
            t.sieve.items,
            k,
        ) by {
            assert(keys.contains(k));
            assert(admitted.contains(k));
            let i = choose|i: int| 0 <= i < admitted.len() && admitted[i] == k;
            assert(t.sieve.items[i].0 == k);
        }
        assert forall|i: int, j: int|
            0 <= i < t.sieve.items.len() && 0 <= j < t.sieve.items.len() && (
            #[trigger] t.sieve.items[i]).0 == (#[trigger] t.sieve.items[j]).0 implies i == j by {
            assert(admitted[i] == admitted[j]);
        }
    } else if cfg.policy.adaptive_climb() {
        assert forall|k: Seq<u8>| may_go(cfg.policy, t.store, k) implies #[trigger]
            t.climb.keys.contains(k) by {
            assert(keys.contains(k));
        }
    }
}

/// The keys in scope of a list without repeats do not repeat.
pub proof fn lemma_scope_distinct(
    store: Map<Seq<u8>, EntryView>,
    scope: EvictionScope,
    keys: Seq<Seq<u8>>,
)
    requires
        ascending(keys),
    ensures
        scope_keys(store, scope, keys).no_duplicates(),
    decreases keys.len(),
{
    if keys.len() > 0 {
        let front = keys.drop_last();
        lemma_scope_distinct(store, scope, front);
        lemma_scope_members(store, scope, front);
        let rest = scope_keys(store, scope, front);
        assert(!rest.contains(keys.last())) by {
            if rest.contains(keys.last()) {
                let x = choose|x: int| 0 <= x < front.len() && front[x] == keys.last();
                assert(key_less(keys[x], keys[keys.len() - 1]));
                lemma_key_less_irreflexive(keys[x]);
            }
        }
        let all = scope_keys(store, scope, keys);
        assert forall|i: int, j: int| 0 <= i < all.len() && 0 <= j < all.len() && i != j implies all[i]
            != all[j] by {
            if i < rest.len() {
                assert(rest.contains(rest[i]));
            }
            if j < rest.len() {
                assert(rest.contains(rest[j]));
            }
        }
    }
}

} // verus!
