//! Laws that relate the engine's commands.

use vstd::prelude::*;

use crate::clock::Clock;
use crate::decimal::{dec_int, lemma_dec_int_round_trip, text_to_i64};
use crate::error::ErrorView;
use crate::persistence::record::frames;
use crate::storage::engine::durability::{del_records, lemma_logged_dels};
use crate::storage::engine::memory::{lemma_total_insert, lemma_total_remove};
use crate::storage::engine::model::{
    deadline_of, first_error, key_error, pair_error, total_cost, EngineView, TtlStatus,
};
use crate::storage::entry::EntryView;
use crate::storage::eviction::EvictionPolicy;
use crate::storage::keyspace::{
    key_less, lemma_key_less_irreflexive, lemma_listed, sorted_keys,
};

verus! {

/// What an eviction run leaves in place: nothing is added or altered, and the
/// configuration stays.
pub open spec fn only_shrinks(s: EngineView, t: EngineView) -> bool {
    &&& t.store.dom().finite()
    &&& t.cfg == s.cfg
    &&& forall|k: Seq<u8>| #[trigger]
        t.store.contains_key(k) ==> s.store.contains_key(k) && t.store[k] == s.store[k]
}

pub proof fn lemma_room_shrinks(s: EngineView, incoming: int, now: Clock, rounds: nat)
    requires
        s.store.dom().finite(),
    ensures
        only_shrinks(s, s.made_room(incoming, now, rounds).1),
        s.made_room(incoming, now, rounds).0 ==> s.made_room(incoming, now, rounds).1.fits(
            incoming,
        ),
        s.fits(incoming) ==> s.made_room(incoming, now, rounds) == (true, s),
    decreases rounds,
{
    if !s.fits(incoming) && rounds > 0 {
        let (victim, asked) = s.victim(now);
        if let Some(key) = victim {
            lemma_room_shrinks(asked.dropped(key), incoming, now, (rounds - 1) as nat);
            let t = asked.dropped(key).made_room(incoming, now, (rounds - 1) as nat).1;
            assert forall|k: Seq<u8>| #[trigger] t.store.contains_key(k) implies s.store.contains_key(
                k,
            ) && t.store[k] == s.store[k] by {
                assert(asked.dropped(key).store.contains_key(k));
            }
        }
    }
}

/// Eviction only removes keys. A run that succeeds leaves room for the write.
pub proof fn law_eviction_makes_room(s: EngineView, incoming: int, now: Clock)
    requires
        s.wf(),
    ensures
        only_shrinks(s, s.made_room(incoming, now, s.rounds()).1),
        s.made_room(incoming, now, s.rounds()).0 ==> s.made_room(
            incoming,
            now,
            s.rounds(),
        ).1.fits(incoming),
{
    lemma_room_shrinks(s, incoming, now, s.rounds());
}

/// A read gives back what a write wrote, at any later time, and the key has no
/// deadline.
pub proof fn law_set_then_get(
    s: EngineView,
    key: Seq<u8>,
    value: Seq<u8>,
    now: Clock,
    later: Clock,
)
    requires
        s.set(key, value, now).0 is Ok,
    ensures
        s.set(key, value, now).1.fetched(key, later).0 == Some(value),
        s.set(key, value, now).1.tested(key, later).0,
        s.set(key, value, now).1.ttl(key, later) == TtlStatus::NoExpire,
{
}

/// Without a memory limit a write succeeds exactly when its key and value are
/// within their limits, and it leaves every other key alone.
pub proof fn law_set_succeeds(s: EngineView, key: Seq<u8>, value: Seq<u8>, now: Clock)
    requires
        s.wf(),
        s.cfg.max_memory == 0,
    ensures
        s.set(key, value, now).0 is Ok <==> pair_error(key, value) is None,
        forall|k: Seq<u8>|
            k != key ==> (#[trigger] s.set(key, value, now).1.store.contains_key(k)
                <==> s.store.contains_key(k)) && s.set(key, value, now).1.store[k] == s.store[k],
{
    lemma_room_shrinks(s, s.growth(key, value.len()), now, s.rounds());
}

/// A refused write changes nothing.
pub proof fn law_refused_set_changes_nothing(
    s: EngineView,
    key: Seq<u8>,
    value: Seq<u8>,
    now: Clock,
)
    requires
        pair_error(key, value) is Some,
    ensures
        s.set(key, value, now).1 == s,
        s.set_nx(key, value, now).1 == s,
{
}

/// `SETNX` stores where nothing live stands and otherwise changes nothing.
pub proof fn law_set_nx(
    s: EngineView,
    key: Seq<u8>,
    value: Seq<u8>,
    now: Clock,
    later: Clock,
)
    ensures
        s.set_nx(key, value, now).0 == Ok::<bool, ErrorView>(true) ==> !s.live(key, now)
            && s.set_nx(key, value, now).1.fetched(key, later).0 == Some(value),
        s.set_nx(key, value, now).0 == Ok::<bool, ErrorView>(false) ==> s.live(key, now)
            && s.set_nx(key, value, now).1 == s,
{
}

proof fn lemma_stored_all_keys(s: EngineView, pairs: Seq<(Seq<u8>, Seq<u8>)>, now: Clock, i: int)
    requires
        0 <= i < pairs.len(),
        forall|j: int| i < j < pairs.len() ==> (#[trigger] pairs[j]).0 != pairs[i].0,
    ensures
        s.stored_all(pairs, now).store.contains_key(pairs[i].0),
        s.stored_all(pairs, now).store[pairs[i].0] == EntryView::fresh(pairs[i].1, None, now),
    decreases pairs.len(),
{
    let t = s.stored(pairs[0].0, EntryView::fresh(pairs[0].1, None, now));
    if i == 0 {
        lemma_stored_all_frame(t, pairs.skip(1), now, pairs[0].0);
    } else {
        assert(pairs.skip(1)[i - 1] == pairs[i]);
        assert forall|j: int| i - 1 < j < pairs.skip(1).len() implies (#[trigger] pairs.skip(
            1,
        )[j]).0 != pairs.skip(1)[i - 1].0 by {
            assert(pairs.skip(1)[j] == pairs[j + 1]);
        }
        lemma_stored_all_keys(t, pairs.skip(1), now, i - 1);
    }
}

proof fn lemma_stored_all_frame(
    s: EngineView,
    pairs: Seq<(Seq<u8>, Seq<u8>)>,
    now: Clock,
    key: Seq<u8>,
)
    requires
        forall|j: int| 0 <= j < pairs.len() ==> (#[trigger] pairs[j]).0 != key,
    ensures
        s.stored_all(pairs, now).store.contains_key(key) <==> s.store.contains_key(key),
        s.stored_all(pairs, now).store[key] == s.store[key],
    decreases pairs.len(),
{
    if pairs.len() > 0 {
        assert forall|j: int| 0 <= j < pairs.skip(1).len() implies (#[trigger] pairs.skip(1)[j]).0
            != key by {
            assert(pairs.skip(1)[j] == pairs[j + 1]);
        }
        lemma_stored_all_frame(
            s.stored(pairs[0].0, EntryView::fresh(pairs[0].1, None, now)),
            pairs.skip(1),
            now,
            key,
        );
    }
}

/// `MSET` is all or nothing: a batch with a refused pair changes nothing, and
/// after a successful one each key holds the last value given for it.
pub proof fn law_mset_all_or_nothing(
    s: EngineView,
    pairs: Seq<(Seq<u8>, Seq<u8>)>,
    now: Clock,
    later: Clock,
)
    ensures
        first_error(pairs) is Some ==> s.mset(pairs, now).1 == s && s.mset(pairs, now).0 is Err,
        s.mset(pairs, now).0 is Ok ==> forall|i: int|
            0 <= i < pairs.len() && (forall|j: int|
                i < j < pairs.len() ==> (#[trigger] pairs[j]).0 != pairs[i].0) ==> s.mset(
                pairs,
                now,
            ).1.fetched((#[trigger] pairs[i]).0, later).0 == Some(pairs[i].1),
{
    if s.mset(pairs, now).0 is Ok {
        let t = s.mset(pairs, now).1;
        assert forall|i: int|
            0 <= i < pairs.len() && (forall|j: int|
                i < j < pairs.len() ==> (#[trigger] pairs[j]).0 != pairs[i].0) implies t.fetched(
            (#[trigger] pairs[i]).0,
            later,
        ).0 == Some(pairs[i].1) by {
            let (room, u) = s.admitted_all(pairs, now);
            lemma_stored_all_keys(
                u.logged_batch(crate::storage::engine::model::put_records(pairs)),
                pairs,
                now,
                i,
            );
        }
    }
}

/// A deleted key is gone.
pub proof fn law_del_then_get(s: EngineView, key: Seq<u8>, now: Clock, later: Clock)
    ensures
        s.deleted(key, now).fetched(key, later).0 is None,
        !s.deleted(key, now).tested(key, later).0,
        s.deleted(key, now).ttl(key, later) == TtlStatus::Missing,
{
}

/// After `FLUSHDB` nothing is stored and nothing is charged.
pub proof fn law_flushdb(s: EngineView, key: Seq<u8>, later: Clock)
    ensures
        s.cleared().fetched(key, later).0 is None,
        total_cost(s.cleared().store) == 0,
{
}

/// An expired key is absent for every command that reads it, and the first one
/// to meet it removes it.
pub proof fn law_expired_is_absent(s: EngineView, key: Seq<u8>, now: Clock)
    requires
        s.lapsed(key, now),
    ensures
        s.fetched(key, now).0 is None,
        !s.tested(key, now).0,
        s.ttl(key, now) == TtlStatus::Missing,
        s.peeked(key, now) is None,
        s.live_value(key, now) is None,
        !s.expire_at(key, i64::MAX, now).0,
        !s.persist(key, now).0,
        s.measured(key, now).0 is None,
        !s.fetched(key, now).1.store.contains_key(key),
        !s.tested(key, now).1.store.contains_key(key),
        !s.purged(key, now).store.contains_key(key),
        !s.measured(key, now).1.store.contains_key(key),
{
}

/// A deadline in the future shows as exactly the time until it; one that is not
/// in the future removes the key at once.
pub proof fn law_expire_then_ttl(s: EngineView, key: Seq<u8>, abs_epoch_ms: i64, now: Clock)
    requires
        s.live(key, now),
        now.epoch_ms >= 0,
    ensures
        s.expire_at(key, abs_epoch_ms, now).0,
        abs_epoch_ms > now.epoch_ms ==> s.expire_at(key, abs_epoch_ms, now).1.ttl(key, now)
            == TtlStatus::Millis((abs_epoch_ms - now.epoch_ms) as i64),
        abs_epoch_ms <= now.epoch_ms ==> s.expire_at(key, abs_epoch_ms, now).1.ttl(key, now)
            == TtlStatus::Missing,
{
    if abs_epoch_ms > now.epoch_ms {
        let d = deadline_of(abs_epoch_ms, now);
        assert(d == now.mono_ns + (abs_epoch_ms - now.epoch_ms) * 1_000_000);
        assert(((d - now.mono_ns) as u128) / 1_000_000 == abs_epoch_ms - now.epoch_ms);
    }
}

/// `PERSIST` succeeds exactly on a live key with a deadline, and leaves none.
pub proof fn law_persist_then_ttl(s: EngineView, key: Seq<u8>, now: Clock)
    ensures
        s.persist(key, now).0 <==> s.live(key, now) && s.store[key].expire_at is Some,
        s.live(key, now) ==> s.persist(key, now).1.ttl(key, now) == TtlStatus::NoExpire,
        !s.persist(key, now).1.persist(key, now).0,
{
}

/// `INCRBY` that succeeds stores the sum, returns it, and keeps the deadline.
pub proof fn law_incr_keeps_ttl(s: EngineView, key: Seq<u8>, delta: i64, now: Clock)
    requires
        s.incr_by(key, delta, now).0 is Ok,
    ensures
        ({
            let (r, t) = s.incr_by(key, delta, now);
            let before = match s.live_value(key, now) {
                Some(v) => text_to_i64(v)->0,
                None => 0,
            };
            &&& r->Ok_0 == before + delta
            &&& t.live_value(key, now) == Some(dec_int(before + delta))
            &&& text_to_i64(t.live_value(key, now)->0) == Some(r->Ok_0)
            &&& t.store[key].expire_at == (if s.live(key, now) {
                s.store[key].expire_at
            } else {
                None
            })
        }),
{
    let r = s.incr_by(key, delta, now).0;
    lemma_dec_int_round_trip(r->Ok_0);
}

/// `INCRBY` fails with the integer error exactly when the value is no integer or
/// the sum does not fit, and then leaves the value as it was.
pub proof fn law_incr_refuses(s: EngineView, key: Seq<u8>, delta: i64, now: Clock)
    requires
        key_error(key) is None,
        s.live(key, now),
        match text_to_i64(s.store[key].data) {
            Some(n) => !(i64::MIN <= n + delta <= i64::MAX),
            None => true,
        },
    ensures
        s.incr_by(key, delta, now).0 == Err::<i64, ErrorView>(
            crate::storage::engine::model::not_an_integer(),
        ),
        s.incr_by(key, delta, now).1 == s,
{
}

/// `APPEND` that succeeds stores the old value followed by the suffix and keeps
/// the deadline.
pub proof fn law_append_keeps_ttl(s: EngineView, key: Seq<u8>, suffix: Seq<u8>, now: Clock)
    requires
        s.append(key, suffix, now).0 is Ok,
    ensures
        ({
            let (r, t) = s.append(key, suffix, now);
            let before = match s.live_value(key, now) {
                Some(v) => v,
                None => Seq::empty(),
            };
            &&& r->Ok_0 == before.len() + suffix.len()
            &&& t.live_value(key, now) == Some(before + suffix)
            &&& t.store[key].expire_at == (if s.live(key, now) {
                s.store[key].expire_at
            } else {
                None
            })
        }),
{
    if !s.live(key, now) {
        assert(Seq::<u8>::empty() + suffix =~= suffix);
    }
}

/// A write that succeeds leaves the store within its memory limit.
///
/// The key itself must not be among the evicted: its old value was counted as
/// freed already, so the store may then exceed the limit by its size.
pub proof fn law_set_respects_memory_limit(
    s: EngineView,
    key: Seq<u8>,
    value: Seq<u8>,
    now: Clock,
)
    requires
        s.wf(),
        0 < s.cfg.max_memory < u64::MAX,
        s.store.contains_key(key) ==> s.admitted(key, value.len(), now).1.store.contains_key(key),
        s.set(key, value, now).0 is Ok,
    ensures
        total_cost(s.set(key, value, now).1.store) <= s.cfg.max_memory,
{
    let (room, t) = s.admitted(key, value.len(), now);
    lemma_room_shrinks(s, s.growth(key, value.len()), now, s.rounds());
    lemma_total_insert(t.store, key, EntryView::fresh(value, None, now));
}

/// Under `noeviction` a write that does not fit fails and evicts nothing.
pub proof fn law_noeviction_refuses(s: EngineView, key: Seq<u8>, value: Seq<u8>, now: Clock)
    requires
        s.cfg.policy == EvictionPolicy::NoEviction,
        pair_error(key, value) is None,
        !s.fits(s.growth(key, value.len())),
    ensures
        s.set(key, value, now).0 == Err::<Option<Seq<u8>>, ErrorView>(ErrorView::OutOfMemory),
        s.set(key, value, now).1 == s,
{
}

/// The charge of a key is what the store sheds when the key is removed.
pub proof fn law_memory_usage(s: EngineView, key: Seq<u8>, now: Clock)
    requires
        s.wf(),
        s.live(key, now),
    ensures
        s.measured(key, now).0 == Some(
            total_cost(s.store) - total_cost(s.deleted(key, now).store),
        ),
{
    lemma_total_remove(s.store, key);
}

/// The keys among `keys` that are live, each once.
pub open spec fn live_among(s: EngineView, keys: Seq<Seq<u8>>, now: Clock) -> Set<Seq<u8>> {
    keys.to_set().filter(|k: Seq<u8>| s.live(k, now))
}

/// `DEL` of several keys takes away exactly these keys. It counts each live one
/// once, however often it is named: that is by how much the number of live keys
/// falls, and how many removals are logged.
pub proof fn law_del_many_removes(s: EngineView, keys: Seq<Seq<u8>>, now: Clock)
    requires
        s.wf(),
    ensures
        ({
            let (count, t) = s.del_many(keys, now);
            let removed = s.live_ones(keys, now);
            &&& count == live_among(s, keys, now).len()
            &&& s.live_keys(sorted_keys(s.store), now).len() == t.live_keys(
                sorted_keys(t.store),
                now,
            ).len() + count
            &&& forall|k: Seq<u8>| #[trigger]
                t.store.contains_key(k) <==> s.store.contains_key(k) && !keys.contains(k)
            &&& forall|k: Seq<u8>| #[trigger]
                t.store.contains_key(k) ==> t.store[k] == s.store[k]
            &&& removed.len() == count
            &&& removed.no_duplicates()
            &&& removed.to_set() == live_among(s, keys, now)
            &&& match (s.log, t.log) {
                (Some(a), Some(b)) => b.pending == a.pending + frames(del_records(removed)),
                (None, None) => true,
                _ => false,
            }
        }),
{
    let (count, t) = s.del_many(keys, now);
    let removed = s.live_ones(keys, now);
    lemma_live_ones(s, keys, now);
    lemma_logged_dels(s.forgotten_all(keys), removed);
    removed.unique_seq_to_set();
    lemma_live_count(s, now);
    vstd::set_lib::lemma_len_subset(t.store.dom(), s.store.dom());
    lemma_live_count(t, now);
    let before = s.store.dom().filter(|k: Seq<u8>| s.live(k, now));
    let after = t.store.dom().filter(|k: Seq<u8>| t.live(k, now));
    let gone = live_among(s, keys, now);
    assert(before =~= after + gone);
    assert(after.disjoint(gone));
    assert(gone == removed.to_set());
    s.store.dom().lemma_len_filter(|k: Seq<u8>| s.live(k, now));
    t.store.dom().lemma_len_filter(|k: Seq<u8>| t.live(k, now));
    vstd::set_lib::lemma_set_disjoint_lens(after, gone);
}

/// Of distinct keys, as many pass a test one by one as in their set.
pub proof fn lemma_filter_count(keys: Seq<Seq<u8>>, pred: spec_fn(Seq<u8>) -> bool)
    requires
        keys.no_duplicates(),
    ensures
        keys.to_set().filter(pred).finite(),
        keys.filter(pred).len() == keys.to_set().filter(pred).len(),
    decreases keys.len(),
{
    reveal(Seq::filter);
    if keys.len() == 0 {
        assert(keys.to_set().filter(pred) =~= Set::empty());
    } else {
        let front = keys.drop_last();
        let last = keys.last();
        lemma_filter_count(front, pred);
        assert(keys =~= front.push(last));
        assert forall|k: Seq<u8>| #[trigger] keys.contains(k) <==> front.contains(k) || k
            == last by {
            if front.contains(k) {
                let x = choose|x: int| 0 <= x < front.len() && front[x] == k;
                assert(keys[x] == k);
            }
            assert(keys[keys.len() - 1] == last);
        }
        assert(!front.contains(last)) by {
            if front.contains(last) {
                let x = choose|x: int| 0 <= x < front.len() && front[x] == last;
                assert(keys[x] == keys[keys.len() - 1]);
            }
        }
        let all = keys.to_set().filter(pred);
        let some = front.to_set().filter(pred);
        if pred(last) {
            assert(all =~= some.insert(last));
            assert(!some.contains(last));
        } else {
            assert(all =~= some);
        }
    }
}

/// `DBSIZE` counts the live keys of the store.
pub proof fn lemma_live_count(s: EngineView, now: Clock)
    requires
        s.store.dom().finite(),
    ensures
        s.live_keys(sorted_keys(s.store), now).len() == s.store.dom().filter(
            |k: Seq<u8>| s.live(k, now),
        ).len(),
{
    let keys = sorted_keys(s.store);
    lemma_listed(s.store);
    assert forall|i: int, j: int|
        0 <= i < keys.len() && 0 <= j < keys.len() && i != j implies keys[i] != keys[j] by {
        lemma_key_less_irreflexive(keys[i]);
        if i < j {
            assert(key_less(keys[i], keys[j]));
        } else {
            assert(key_less(keys[j], keys[i]));
        }
    }
    assert(keys.to_set() =~= s.store.dom());
    lemma_filter_count(keys, |k: Seq<u8>| s.live(k, now));
}

/// Removing keys one after the other meets each live one once.
pub proof fn lemma_live_ones(s: EngineView, keys: Seq<Seq<u8>>, now: Clock)
    ensures
        forall|k: Seq<u8>| #[trigger]
            s.forgotten_all(keys).store.contains_key(k) <==> s.store.contains_key(k)
                && !keys.contains(k),
        forall|k: Seq<u8>| #[trigger]
            s.forgotten_all(keys).store.contains_key(k) ==> s.forgotten_all(keys).store[k]
                == s.store[k],
        s.forgotten_all(keys).log == s.log,
        s.live_ones(keys, now).no_duplicates(),
        s.live_ones(keys, now).to_set() == live_among(s, keys, now),
    decreases keys.len(),
{
    let found = s.live_ones(keys, now);
    if keys.len() == 0 {
        assert(found.to_set() =~= live_among(s, keys, now));
    } else {
        let front = keys.drop_last();
        let last = keys.last();
        let sooner = s.live_ones(front, now);
        lemma_live_ones(s, front, now);
        assert forall|k: Seq<u8>| #[trigger] keys.contains(k) <==> front.contains(k) || k
            == last by {
            if front.contains(k) {
                let x = choose|x: int| 0 <= x < front.len() && front[x] == k;
                assert(keys[x] == k);
            }
            assert(keys[keys.len() - 1] == last);
            if keys.contains(k) && k != last {
                let x = choose|x: int| 0 <= x < keys.len() && keys[x] == k;
                assert(front[x] == k);
            }
        }
        assert forall|k: Seq<u8>| #[trigger] sooner.contains(k) <==> front.contains(k) && s.live(
            k,
            now,
        ) by {
            assert(sooner.to_set().contains(k) == live_among(s, front, now).contains(k));
        }
        if s.forgotten_all(front).live(last, now) {
            assert(!sooner.contains(last));
            assert(found == sooner.push(last));
            assert forall|k: Seq<u8>| #[trigger] found.contains(k) <==> sooner.contains(k) || k
                == last by {
                if sooner.contains(k) {
                    let x = choose|x: int| 0 <= x < sooner.len() && sooner[x] == k;
                    assert(found[x] == k);
                }
                assert(found[found.len() - 1] == last);
            }
        }
        assert forall|k: Seq<u8>| #[trigger] found.contains(k) <==> live_among(
            s,
            keys,
            now,
        ).contains(k) by {
            assert(keys.contains(k) == keys.to_set().contains(k));
            assert(s.forgotten_all(front).store.contains_key(last) == (s.store.contains_key(last)
                && !front.contains(last)));
            assert(sooner.contains(k) == (front.contains(k) && s.live(k, now)));
        }
        assert(found.to_set() =~= live_among(s, keys, now));
    }
}

} // verus!
