//! The queues of the eviction policies follow the store.
//!
//! Under a policy that may evict every key, each operation keeps the policy's
//! queue complete, so that no key is ever out of its reach.

use vstd::prelude::*;

use crate::clock::Clock;
use crate::decimal::{dec_int, text_to_i64};
use crate::persistence::record::Record;
use crate::storage::adaptive_climb::{lemma_eviction_keeps, lemma_list_follows};
use crate::storage::engine::model::{deadline_of, epoch_of, put_records, EngineView};
use crate::storage::engine::operations::swept_once;
use crate::storage::engine::room::{lemma_victim, may_go, sees_all};
use crate::storage::entry::EntryView;
use crate::storage::eviction::EvictionScope;
use crate::storage::queue::holds;
use crate::storage::sieve::{lemma_queue_follows, lemma_sweep_keeps};

verus! {

/// Whether the policy may evict every key and sees all of them.
pub open spec fn in_sight(s: EngineView) -> bool {
    &&& s.store.dom().finite()
    &&& s.cfg.policy.scope_of() == EvictionScope::AllKeys
    &&& sees_all(s)
}

proof fn lemma_stored(s: EngineView, key: Seq<u8>, entry: EntryView)
    requires
        in_sight(s),
    ensures
        in_sight(s.stored(key, entry)),
{
    let t = s.stored(key, entry);
    if s.cfg.policy.sieve() {
        lemma_queue_follows(s.sieve, key);
        assert forall|k: Seq<u8>| may_go(t.cfg.policy, t.store, k) implies #[trigger] holds(
            t.sieve.items,
            k,
        ) by {
            assert(k == key || may_go(s.cfg.policy, s.store, k));
            assert(k != key ==> holds(s.sieve.items, k));
        }
    } else if s.cfg.policy.adaptive_climb() {
        lemma_list_follows(s.climb, key);
        assert forall|k: Seq<u8>| may_go(t.cfg.policy, t.store, k) implies #[trigger]
            t.climb.keys.contains(k) by {
            assert(k == key || may_go(s.cfg.policy, s.store, k));
            assert(k != key ==> s.climb.keys.contains(k));
        }
    }
}

proof fn lemma_forgotten(s: EngineView, key: Seq<u8>)
    requires
        in_sight(s),
    ensures
        in_sight(s.forgotten(key)),
{
    let t = s.forgotten(key);
    if s.cfg.policy.sieve() {
        lemma_queue_follows(s.sieve, key);
        assert forall|k: Seq<u8>| may_go(t.cfg.policy, t.store, k) implies #[trigger] holds(
            t.sieve.items,
            k,
        ) by {
            assert(may_go(s.cfg.policy, s.store, k));
            assert(holds(s.sieve.items, k));
        }
    } else if s.cfg.policy.adaptive_climb() {
        lemma_list_follows(s.climb, key);
        assert forall|k: Seq<u8>| may_go(t.cfg.policy, t.store, k) implies #[trigger]
            t.climb.keys.contains(k) by {
            assert(may_go(s.cfg.policy, s.store, k));
            assert(s.climb.keys.contains(k));
        }
    }
}

proof fn lemma_touched(s: EngineView, key: Seq<u8>, now: Clock)
    requires
        in_sight(s),
        s.store.contains_key(key),
    ensures
        in_sight(s.touched(key, now)),
{
    let t = s.touched(key, now);
    assert forall|k: Seq<u8>| may_go(t.cfg.policy, t.store, k) implies may_go(
        s.cfg.policy,
        s.store,
        k,
    ) by {}
    if s.cfg.policy.sieve() {
        lemma_queue_follows(s.sieve, key);
        assert forall|k: Seq<u8>| may_go(t.cfg.policy, t.store, k) implies #[trigger] holds(
            t.sieve.items,
            k,
        ) by {
            assert(holds(s.sieve.items, k));
        }
    } else if s.cfg.policy.adaptive_climb() {
        lemma_list_follows(s.climb, key);
        assert forall|k: Seq<u8>| may_go(t.cfg.policy, t.store, k) implies #[trigger]
            t.climb.keys.contains(k) by {
            assert(s.climb.keys.contains(k));
        }
    }
}

/// With the same queues, a store with no more keys stays in sight.
proof fn lemma_fewer_keys(s: EngineView, t: EngineView)
    requires
        in_sight(s),
        t.store.dom().finite(),
        t.cfg == s.cfg,
        t.sieve == s.sieve,
        t.climb == s.climb,
        forall|k: Seq<u8>| #[trigger] t.store.contains_key(k) ==> s.store.contains_key(k),
    ensures
        in_sight(t),
{
    assert forall|k: Seq<u8>| may_go(t.cfg.policy, t.store, k) implies #[trigger] may_go(
        s.cfg.policy,
        s.store,
        k,
    ) by {
        assert(t.store.contains_key(k));
    }
}

proof fn lemma_made_room(s: EngineView, incoming: int, now: Clock, rounds: nat)
    requires
        in_sight(s),
    ensures
        in_sight(s.made_room(incoming, now, rounds).1),
    decreases rounds,
{
    if !s.fits(incoming) && rounds > 0 {
        lemma_victim(s, now);
        let (victim, asked) = s.victim(now);
        match victim {
            Some(key) => lemma_made_room(asked.dropped(key), incoming, now, (rounds - 1) as nat),
            None => {
                lemma_nothing_to_give(s, now);
            },
        }
    }
}

/// A policy that gives up no key had none to give.
proof fn lemma_nothing_to_give(s: EngineView, now: Clock)
    requires
        in_sight(s),
        s.victim(now).0 is None,
    ensures
        in_sight(s.victim(now).1),
{
    lemma_victim(s, now);
    let t = s.victim(now).1;
    assert forall|k: Seq<u8>| !may_go(t.cfg.policy, t.store, k) by {
        assert(!may_go(s.cfg.policy, s.store, k));
    }
    if s.cfg.policy.sieve() {
        lemma_sweep_keeps(
            s.sieve,
            s.store,
            s.cfg.policy.scope_of(),
            s.cfg.policy.sieve_ttl_aware(),
            now.mono_ns as u128,
            s.sieve.items.len() + 1,
        );
    } else if s.cfg.policy.adaptive_climb() {
        lemma_eviction_keeps(
            s.climb,
            s.store,
            s.cfg.policy.scope_of(),
        );
    }
}

proof fn lemma_logged(s: EngineView, r: Record)
    requires
        in_sight(s),
    ensures
        in_sight(s.logged(r)),
{
    lemma_fewer_keys(s, s.logged(r));
}

proof fn lemma_purged(s: EngineView, key: Seq<u8>, now: Clock)
    requires
        in_sight(s),
    ensures
        in_sight(s.purged(key, now)),
{
    lemma_forgotten(s, key);
    lemma_logged(s.forgotten(key), Record::Del { key });
}

/// Reading keeps every key in sight.
pub proof fn law_reads_keep_keys_in_sight(s: EngineView, key: Seq<u8>, now: Clock)
    requires
        in_sight(s),
    ensures
        in_sight(s.fetched(key, now).1),
        in_sight(s.tested(key, now).1),
        in_sight(s.measured(key, now).1),
        in_sight(s.purged(key, now)),
{
    lemma_purged(s, key, now);
    if s.live(key, now) {
        lemma_touched(s, key, now);
        lemma_fewer_keys(s.touched(key, now), s.fetched(key, now).1);
        lemma_fewer_keys(s, s.tested(key, now).1);
    } else {
        lemma_fewer_keys(s.purged(key, now), s.fetched(key, now).1);
        lemma_fewer_keys(s.purged(key, now), s.tested(key, now).1);
    }
    lemma_fewer_keys(s, s.measured(key, now).1);
}

/// Reading several keys keeps every key in sight.
pub proof fn law_multi_reads_keep_keys_in_sight(s: EngineView, keys: Seq<Seq<u8>>, now: Clock)
    requires
        in_sight(s),
    ensures
        in_sight(s.mget(keys, now).1),
        in_sight(s.exists_many(keys, now).1),
    decreases keys.len(),
{
    if keys.len() > 0 {
        law_multi_reads_keep_keys_in_sight(s, keys.drop_last(), now);
        law_reads_keep_keys_in_sight(s.mget(keys.drop_last(), now).1, keys.last(), now);
        law_reads_keep_keys_in_sight(s.exists_many(keys.drop_last(), now).1, keys.last(), now);
    }
}

/// Writing one key keeps every key in sight, the new one with them.
pub proof fn law_writes_keep_keys_in_sight(
    s: EngineView,
    key: Seq<u8>,
    value: Seq<u8>,
    delta: i64,
    now: Clock,
)
    requires
        in_sight(s),
    ensures
        in_sight(s.set(key, value, now).1),
        in_sight(s.set_nx(key, value, now).1),
        in_sight(s.append(key, value, now).1),
        in_sight(s.incr_by(key, delta, now).1),
{
    lemma_written(s, key, value, now);
    lemma_forgotten(s, key);
    lemma_written(s.forgotten(key), key, value, now);
    lemma_purged(s, key, now);
    let held = s.peeked(key, now);
    let deadline = match held {
        Some(h) => h.1,
        None => None,
    };
    let appended = match held {
        Some(h) => h.0 + value,
        None => value,
    };
    let n = match held {
        Some(h) => text_to_i64(h.0),
        None => Some(0i64),
    };
    lemma_rewritten(s.purged(key, now), key, appended, deadline, now);
    if let Some(current) = n {
        lemma_rewritten(
            s.purged(key, now),
            key,
            dec_int(current + delta),
            deadline,
            now,
        );
    }
}

proof fn lemma_written(s: EngineView, key: Seq<u8>, value: Seq<u8>, now: Clock)
    requires
        in_sight(s),
    ensures
        in_sight(s.admitted(key, value.len(), now).1),
        in_sight(s.admitted(key, value.len(), now).1.written(key, value, now)),
{
    lemma_made_room(s, s.growth(key, value.len()), now, s.rounds());
    let t = s.admitted(key, value.len(), now).1;
    lemma_logged(t, Record::Put { key, value });
    lemma_stored(t.logged(Record::Put { key, value }), key, EntryView::fresh(value, None, now));
}

proof fn lemma_rewritten(
    s: EngineView,
    key: Seq<u8>,
    value: Seq<u8>,
    deadline: Option<u128>,
    now: Clock,
)
    requires
        in_sight(s),
    ensures
        in_sight(s.set_keep_ttl(key, value, deadline, now).1),
{
    lemma_made_room(s, s.growth(key, value.len()), now, s.rounds());
    let t = s.admitted(key, value.len(), now).1;
    let u = t.logged(Record::Put { key, value });
    lemma_logged(t, Record::Put { key, value });
    lemma_stored(u, key, EntryView::fresh(value, deadline, now));
    if let Some(d) = deadline {
        let r = Record::PExpireAt { key, at: epoch_of(d, now) };
        lemma_logged(u, r);
        lemma_stored(u.logged(r), key, EntryView::fresh(value, deadline, now));
    }
}

proof fn lemma_all_admitted(s: EngineView, pairs: Seq<(Seq<u8>, Seq<u8>)>, now: Clock)
    requires
        in_sight(s),
    ensures
        in_sight(s.admitted_all(pairs, now).1),
    decreases pairs.len(),
{
    if pairs.len() > 0 {
        let (key, value) = pairs[0];
        lemma_made_room(s, s.growth(key, value.len()), now, s.rounds());
        lemma_all_admitted(s.admitted(key, value.len(), now).1, pairs.skip(1), now);
    }
}

proof fn lemma_all_stored(s: EngineView, pairs: Seq<(Seq<u8>, Seq<u8>)>, now: Clock)
    requires
        in_sight(s),
    ensures
        in_sight(s.stored_all(pairs, now)),
    decreases pairs.len(),
{
    if pairs.len() > 0 {
        let entry = EntryView::fresh(pairs[0].1, None, now);
        lemma_stored(s, pairs[0].0, entry);
        lemma_all_stored(s.stored(pairs[0].0, entry), pairs.skip(1), now);
    }
}

/// Writing several keys keeps every key in sight.
pub proof fn law_multi_writes_keep_keys_in_sight(
    s: EngineView,
    pairs: Seq<(Seq<u8>, Seq<u8>)>,
    now: Clock,
)
    requires
        in_sight(s),
    ensures
        in_sight(s.mset(pairs, now).1),
{
    lemma_all_admitted(s, pairs, now);
    let t = s.admitted_all(pairs, now).1;
    let u = t.logged_batch(put_records(pairs));
    lemma_fewer_keys(t, u);
    lemma_all_stored(u, pairs, now);
}

proof fn lemma_all_forgotten(s: EngineView, keys: Seq<Seq<u8>>)
    requires
        in_sight(s),
    ensures
        in_sight(s.forgotten_all(keys)),
        in_sight(s.dropped_all(keys)),
        in_sight(s.logged_dels(keys)),
    decreases keys.len(),
{
    if keys.len() > 0 {
        lemma_all_forgotten(s, keys.drop_last());
        lemma_forgotten(s.forgotten_all(keys.drop_last()), keys.last());
        lemma_forgotten(s.dropped_all(keys.drop_last()), keys.last());
        lemma_logged(
            s.dropped_all(keys.drop_last()).forgotten(keys.last()),
            Record::Del { key: keys.last() },
        );
        lemma_logged(s.logged_dels(keys.drop_last()), Record::Del { key: keys.last() });
    }
}

/// Deleting, flushing and sweeping keep every key in sight.
pub proof fn law_removals_keep_keys_in_sight(
    s: EngineView,
    key: Seq<u8>,
    keys: Seq<Seq<u8>>,
    sample: usize,
    now: Clock,
)
    requires
        in_sight(s),
    ensures
        in_sight(s.deleted(key, now)),
        in_sight(s.del_many(keys, now).1),
        in_sight(s.cleared()),
        in_sight(swept_once(s, sample, now)),
{
    lemma_forgotten(s, key);
    lemma_logged(s.forgotten(key), Record::Del { key });
    lemma_all_forgotten(s, keys);
    lemma_all_forgotten(s.forgotten_all(keys), s.live_ones(keys, now));
    lemma_fewer_keys(s, s.drawn());
    lemma_all_forgotten(
        s.drawn(),
        s.swept_keys(sample as int).filter(|k: Seq<u8>| s.lapsed(k, now)),
    );
    assert forall|k: Seq<u8>| !may_go(s.cfg.policy, s.cleared().store, k) by {
        assert(!s.cleared().store.contains_key(k));
    }
}

/// Deadlines set or taken off keep every key in sight.
pub proof fn law_deadlines_keep_keys_in_sight(
    s: EngineView,
    key: Seq<u8>,
    abs_epoch_ms: i64,
    now: Clock,
)
    requires
        in_sight(s),
    ensures
        in_sight(s.expire_at(key, abs_epoch_ms, now).1),
        in_sight(s.persist(key, now).1),
{
    lemma_purged(s, key, now);
    lemma_forgotten(s, key);
    lemma_logged(s.forgotten(key), Record::Del { key });
    if s.live(key, now) {
        let deadline = Some(deadline_of(abs_epoch_ms, now));
        lemma_fewer_keys(s, s.with_deadline(key, deadline));
        lemma_logged(
            s.with_deadline(key, deadline),
            Record::PExpireAt { key, at: abs_epoch_ms },
        );
        lemma_fewer_keys(s, s.with_deadline(key, None));
        lemma_logged(s.with_deadline(key, None), Record::Persist { key });
    }
}

} // verus!
