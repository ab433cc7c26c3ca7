//! What the store is charged with, and what sweeps and scans see of it.
//!
//! The laws here speak of the keys and values in the store and of moments on the clock.

use vstd::prelude::*;

use crate::clock::{xorshift, Clock};
use crate::error::ErrorView;
use crate::storage::engine::glob::glob;
use crate::storage::engine::memory::lemma_total_insert;
use crate::storage::engine::model::{
    deadline_of, deadline_read, epoch_of, first_error, pair_error, start_of, total_cost, walk_from,
    EngineView, TtlStatus,
};
use crate::storage::entry::EntryView;
use crate::storage::eviction::EvictionPolicy;
use crate::storage::expire::{swept_all, tick_went};
use crate::storage::keyspace::{ascending, lemma_listed, sorted_keys};

verus! {

/// An entry is charged with the bytes of its key and of its value and with 48 more, and
/// an empty store with nothing.
pub proof fn law_charge(store: Map<Seq<u8>, EntryView>, key: Seq<u8>, entry: EntryView)
    requires
        store.dom().finite(),
    ensures
        total_cost(Map::<Seq<u8>, EntryView>::empty()) == 0,
        !store.contains_key(key) ==> total_cost(store.insert(key, entry)) == total_cost(store)
            + key.len() + entry.data.len() + 48,
        store.contains_key(key) ==> total_cost(store.insert(key, entry)) == total_cost(store)
            + entry.data.len() - store[key].data.len(),
        store.contains_key(key) ==> total_cost(store.remove(key)) == total_cost(store) - key.len()
            - store[key].data.len() - 48,
{
    lemma_total_insert(store, key, entry);
    assert(Map::<Seq<u8>, EntryView>::empty().dom() =~= Set::<Seq<u8>>::empty());
}

/// A write evicts no key as long as the store with the new entry stays within the limit,
/// or there is none: it succeeds, and every other entry stays as it is.
pub proof fn law_no_needless_eviction(
    s: EngineView,
    key: Seq<u8>,
    value: Seq<u8>,
    now: Clock,
    other: Seq<u8>,
)
    requires
        s.wf(),
        1 <= key.len() <= 65_536,
        value.len() <= 16_777_216,
        s.cfg.max_memory == 0 || (total_cost(s.store) <= s.cfg.max_memory && total_cost(
            s.store.insert(key, EntryView::fresh(value, None, now)),
        ) <= s.cfg.max_memory),
        other != key,
    ensures
        ({
            let (r, t) = s.set(key, value, now);
            &&& r is Ok
            &&& t.store.contains_key(key)
            &&& t.store[key].data == value
            &&& t.store.contains_key(other) == s.store.contains_key(other)
            &&& s.store.contains_key(other) ==> t.store[other] == s.store[other]
        }),
{
    lemma_total_insert(s.store, key, EntryView::fresh(value, None, now));
}

/// Under `noeviction` a write that would take the store over its limit is refused, and
/// nothing changes.
pub proof fn law_noeviction_keeps_to_the_limit(
    s: EngineView,
    key: Seq<u8>,
    value: Seq<u8>,
    now: Clock,
)
    requires
        s.wf(),
        s.cfg.policy == EvictionPolicy::NoEviction,
        0 < s.cfg.max_memory < u64::MAX,
        total_cost(s.store) <= s.cfg.max_memory,
        total_cost(s.store.insert(key, EntryView::fresh(value, None, now))) > s.cfg.max_memory,
    ensures
        s.set(key, value, now).0 is Err,
        s.set(key, value, now).1 == s,
{
    lemma_total_insert(s.store, key, EntryView::fresh(value, None, now));
}

/// A key is there until the moment of its deadline and no longer, and its lifetime is the
/// time until then in whole milliseconds; a key without a deadline stays.
pub proof fn law_deadline_is_the_end(s: EngineView, key: Seq<u8>, now: Clock)
    requires
        s.store.contains_key(key),
    ensures
        match s.store[key].expire_at {
            Some(deadline) if now.mono_ns >= deadline => {
                &&& s.fetched(key, now).0 is None
                &&& !s.tested(key, now).0
                &&& s.ttl(key, now) == TtlStatus::Missing
            },
            Some(deadline) => {
                &&& s.fetched(key, now).0 == Some(s.store[key].data)
                &&& s.tested(key, now).0
                &&& deadline - now.mono_ns < 0x7fff_ffff_ffff_ffff ==> (s.ttl(key, now) matches
                    TtlStatus::Millis(ms) && 1_000_000 * ms <= deadline - now.mono_ns < 1_000_000 * (
                ms + 1))
            },
            None => {
                &&& s.fetched(key, now).0 == Some(s.store[key].data)
                &&& s.tested(key, now).0
                &&& s.ttl(key, now) == TtlStatus::NoExpire
            },
        },
{
}

/// A round of the sweeper looks at as many keys as it was told to, or at all where there
/// are fewer; each is a key of the store.
pub proof fn law_sweep_looks_at_keys(s: EngineView, sample: usize, i: int)
    requires
        s.store.dom().finite(),
    ensures
        s.swept_keys(sample as int).len() == if sorted_keys(s.store).len() <= sample {
            sorted_keys(s.store).len() as int
        } else {
            sample as int
        },
        0 <= i < s.swept_keys(sample as int).len() ==> s.store.contains_key(
            s.swept_keys(sample as int)[i],
        ),
{
    let keys = sorted_keys(s.store);
    lemma_listed(s.store);
    let start = start_of(s.draw(), keys.len());
    let walk = walk_from(keys, start);
    if 0 <= i < s.swept_keys(sample as int).len() {
        let x = if i < keys.len() - start {
            i + start
        } else {
            i - (keys.len() - start)
        };
        assert(walk[i] == keys[x]);
        assert(keys.contains(keys[x]));
    }
}

/// How many of these keys are past their deadlines.
pub open spec fn past_deadline(s: EngineView, keys: Seq<Seq<u8>>, now: Clock) -> nat
    decreases keys.len(),
{
    if keys.len() == 0 {
        0
    } else {
        let key = keys.last();
        let past = s.store.contains_key(key) && s.store[key].expire_at is Some
            && s.store[key].expire_at->0 <= now.mono_ns;
        past_deadline(s, keys.drop_last(), now) + if past {
            1nat
        } else {
            0
        }
    }
}

proof fn lemma_past_deadline(s: EngineView, keys: Seq<Seq<u8>>, now: Clock)
    ensures
        past_deadline(s, keys, now) == keys.filter(|k: Seq<u8>| s.lapsed(k, now)).len(),
    decreases keys.len(),
{
    reveal(Seq::filter);
    if keys.len() > 0 {
        lemma_past_deadline(s, keys.drop_last(), now);
    }
}

/// The sweeper goes on for as long as more than one in four of the keys that it looked at
/// were past their deadlines, for at most 16 rounds.
pub proof fn law_sweep_goes_on_past_a_quarter(
    s: EngineView,
    sample: usize,
    clocks: Seq<Clock>,
    after: EngineView,
    i: int,
)
    requires
        tick_went(s, sample, clocks, after),
        sample > 0,
        0 <= i < clocks.len(),
    ensures
        clocks.len() <= 16,
        ({
            let before = swept_all(s, sample, clocks.take(i));
            let seen = before.swept_keys(sample as int);
            let past = past_deadline(before, seen, clocks[i]);
            &&& i < clocks.len() - 1 ==> 4 * past > seen.len()
            &&& i == clocks.len() - 1 && clocks.len() < 16 ==> 4 * past <= seen.len()
        }),
{
    let before = swept_all(s, sample, clocks.take(i));
    lemma_past_deadline(before, before.swept_keys(sample as int), clocks[i]);
    if i == clocks.len() - 1 {
        assert(clocks.take(i) =~= clocks.drop_last());
    }
}

/// A scan gives live keys that match its pattern, at most 10000, in ascending order; where
/// fewer come, they are all there are.
pub proof fn law_scan(s: EngineView, pattern: Seq<u8>, now: Clock, key: Seq<u8>)
    requires
        s.store.dom().finite(),
    ensures
        s.scanned(pattern, now).len() <= 10_000,
        s.scanned(pattern, now).contains(key) ==> s.live(key, now) && glob(pattern, key),
        s.scanned(pattern, now).len() < 10_000 && s.live(key, now) && glob(pattern, key)
            ==> s.scanned(pattern, now).contains(key),
        ascending(s.scanned(pattern, now)),
{
    let keys = sorted_keys(s.store);
    lemma_listed(s.store);
    let wanted = |k: Seq<u8>| s.live(k, now) && glob(pattern, k);
    let found = keys.filter(wanted);
    let given = s.scanned(pattern, now);
    if given.contains(key) {
        let i = choose|i: int| 0 <= i < given.len() && given[i] == key;
        assert(found[i] == key);
        keys.lemma_filter_pred(wanted, i);
    }
    if s.live(key, now) && glob(pattern, key) {
        assert(keys.contains(key));
        keys.lemma_filter_contains_rev(wanted, key);
    }
    lemma_filter_ascending(keys, wanted);
}

proof fn lemma_filter_ascending(keys: Seq<Seq<u8>>, wanted: spec_fn(Seq<u8>) -> bool)
    requires
        ascending(keys),
    ensures
        ascending(keys.filter(wanted)),
        forall|k: Seq<u8>| keys.filter(wanted).contains(k) ==> #[trigger] keys.contains(k),
    decreases keys.len(),
{
    reveal(Seq::filter);
    if keys.len() > 0 {
        let front = keys.drop_last();
        lemma_filter_ascending(front, wanted);
        let kept = front.filter(wanted);
        let all = keys.filter(wanted);
        assert forall|i: int, j: int| 0 <= i < j < all.len() implies crate::storage::keyspace::key_less(
            #[trigger] all[i],
            #[trigger] all[j],
        ) by {
            if j == kept.len() {
                assert(kept.contains(kept[i]));
                assert(front.contains(kept[i]));
                let x = choose|x: int| 0 <= x < front.len() && front[x] == kept[i];
                assert(keys[x] == all[i]);
                assert(keys[keys.len() - 1] == all[j]);
            } else {
                assert(kept[i] == all[i] && kept[j] == all[j]);
            }
        }
        assert forall|k: Seq<u8>| all.contains(k) implies #[trigger] keys.contains(k) by {
            let i = choose|i: int| 0 <= i < all.len() && all[i] == k;
            if i < kept.len() {
                assert(kept[i] == k);
                assert(kept.contains(k));
                assert(front.contains(k));
                let x = choose|x: int| 0 <= x < front.len() && front[x] == k;
                assert(keys[x] == k);
            } else {
                assert(keys[keys.len() - 1] == k);
            }
        }
    }
}

/// A new engine is empty: it has no limit and no password and has counted nothing. Its
/// slow log records what takes more than 10000 microseconds and keeps 128 commands, and a
/// sample for eviction has five keys.
pub proof fn law_new_engine(rng: u32)
    ensures
        ({
            let s = EngineView::initial(rng);
            &&& s.store == Map::<Seq<u8>, EntryView>::empty()
            &&& s.log is None
            &&& s.password is None
            &&& s.hits == 0
            &&& s.misses == 0
            &&& s.cfg.max_memory == 0
            &&& s.cfg.samples == 5
            &&& s.cfg.policy == EvictionPolicy::NoEviction
            &&& s.slow.threshold_us == 10_000
            &&& s.slow.max_len == 128
            &&& s.slow.last_id == 0
            &&& s.slow.ring.len() == 0
        }),
{
}

/// A read of a live key counts as a hit and is the key's latest access; any other read
/// counts as a miss and takes away a key past its deadline. Testing for a key counts the
/// same, but is no access.
pub proof fn law_reads_are_counted(s: EngineView, key: Seq<u8>, now: Clock)
    requires
        s.hits < u64::MAX,
        s.misses < u64::MAX,
    ensures
        ({
            let t = s.fetched(key, now).1;
            let u = s.tested(key, now).1;
            &&& s.live(key, now) ==> {
                &&& t.hits == s.hits + 1 && t.misses == s.misses
                &&& u.hits == s.hits + 1 && u.misses == s.misses
                &&& t.store[key].last_access == now.mono_ns
                &&& t.store[key].data == s.store[key].data
                &&& t.store[key].expire_at == s.store[key].expire_at
                &&& u.store == s.store
            }
            &&& !s.live(key, now) ==> {
                &&& t.hits == s.hits && t.misses == s.misses + 1
                &&& u.hits == s.hits && u.misses == s.misses + 1
                &&& !t.store.contains_key(key)
                &&& !u.store.contains_key(key)
            }
        }),
{
}

/// Writing gives back the value that was there, if a live one was; without a limit.
pub proof fn law_set_gives_back(s: EngineView, key: Seq<u8>, value: Seq<u8>, now: Clock)
    requires
        s.cfg.max_memory == 0,
        1 <= key.len() <= 65_536,
        value.len() <= 16_777_216,
    ensures
        s.live(key, now) ==> s.set(key, value, now).0 == Ok::<
            Option<Seq<u8>>,
            ErrorView,
        >(Some(s.store[key].data)),
        !s.live(key, now) ==> s.set(key, value, now).0 == Ok::<
            Option<Seq<u8>>,
            ErrorView,
        >(None),
        s.set(key, value, now).1.hits == s.hits,
        s.set(key, value, now).1.misses == s.misses,
        s.set(key, value, now).1.store[key].last_access == now.mono_ns,
{
}

/// A draw is the upper 24 bits of the generator's next state.
pub proof fn law_draw(s: EngineView)
    ensures
        256 * s.draw() <= xorshift(s.rng) < 256 * (s.draw() + 1),
        s.draw() < 16_777_216,
        s.drawn().rng == xorshift(s.rng),
{
    let x = xorshift(s.rng);
    assert(x >> 8u32 == x / 256u32) by (bit_vector);
}

/// A deadline is written to the log as the moment that it was set to, and as the last one
/// that can be told where it lies behind that. Read back from the log it is the same
/// deadline, and one that has passed ends at once.
pub proof fn law_time_in_the_log(at: i64, deadline: u128, now: Clock)
    requires
        now.epoch_ms >= 0,
        deadline > now.mono_ns,
        (deadline - now.mono_ns) / 1_000_000 <= i64::MAX,
    ensures
        at > now.epoch_ms ==> epoch_of(deadline_of(at, now), now) == at,
        at > now.epoch_ms ==> deadline_read(at, now) == now.mono_ns + 1_000_000 * (at
            - now.epoch_ms),
        at <= now.epoch_ms ==> deadline_read(at, now) == now.mono_ns,
        now.epoch_ms + (deadline - now.mono_ns) / 1_000_000 > i64::MAX ==> epoch_of(deadline, now)
            == i64::MAX,
        now.epoch_ms + (deadline - now.mono_ns) / 1_000_000 <= i64::MAX ==> epoch_of(deadline, now)
            == now.epoch_ms + (deadline - now.mono_ns) / 1_000_000,
{
    if at > now.epoch_ms {
        let d = deadline_of(at, now);
        assert(d == now.mono_ns + (at - now.epoch_ms) * 1_000_000);
        assert(((d - now.mono_ns) as u128) / 1_000_000 == at - now.epoch_ms);
    }
}

/// Flushing leaves no key, neither in the store nor in what orders keys for eviction; the
/// counts and the settings stay.
pub proof fn law_flush_leaves_nothing(s: EngineView, key: Seq<u8>)
    ensures
        ({
            let t = s.cleared();
            &&& !t.store.contains_key(key)
            &&& t.sieve.items.len() == 0
            &&& t.climb.keys.len() == 0
            &&& t.hits == s.hits
            &&& t.misses == s.misses
            &&& t.cfg == s.cfg
            &&& t.password == s.password
            &&& t.slow == s.slow
        }),
{
}

proof fn lemma_first_error(
    good: Seq<(Seq<u8>, Seq<u8>)>,
    bad: (Seq<u8>, Seq<u8>),
    rest: Seq<(Seq<u8>, Seq<u8>)>,
)
    requires
        forall|i: int|
            0 <= i < good.len() ==> pair_error((#[trigger] good[i]).0, good[i].1) is None,
        pair_error(bad.0, bad.1) is Some,
    ensures
        first_error(good) is None,
        first_error(good.push(bad) + rest) == pair_error(bad.0, bad.1),
    decreases good.len() + rest.len(),
{
    let all = good.push(bad) + rest;
    if good.len() > 0 {
        let none = Seq::<(Seq<u8>, Seq<u8>)>::empty();
        let front = good.drop_last();
        assert forall|i: int| 0 <= i < front.len() implies pair_error(
            (#[trigger] front[i]).0,
            front[i].1,
        ) is None by {
            assert(front[i] == good[i]);
        }
        lemma_first_error(front, bad, none);
        assert(pair_error(good[good.len() - 1].0, good[good.len() - 1].1) is None);
    }
    if rest.len() > 0 {
        lemma_first_error(good, bad, rest.drop_last());
        assert(all.drop_last() =~= good.push(bad) + rest.drop_last());
    } else {
        assert(all =~= good.push(bad));
        assert(all.drop_last() =~= good);
    }
}

/// `MSET` with a pair that cannot be stored writes nothing and says why the first such
/// pair is refused: its key is empty or too long, or its value is too large.
pub proof fn law_mset_names_the_first_refusal(
    s: EngineView,
    good: Seq<(Seq<u8>, Seq<u8>)>,
    bad: (Seq<u8>, Seq<u8>),
    rest: Seq<(Seq<u8>, Seq<u8>)>,
    now: Clock,
)
    requires
        forall|i: int|
            0 <= i < good.len() ==> 1 <= (#[trigger] good[i]).0.len() <= 65_536 && good[i].1.len()
                <= 16_777_216,
        bad.0.len() == 0 || 65_536 < bad.0.len() <= usize::MAX || (bad.0.len() <= 65_536
            && 16_777_216 < bad.1.len() <= usize::MAX),
    ensures
        ({
            let (r, t) = s.mset(good.push(bad) + rest, now);
            &&& t == s
            &&& bad.0.len() == 0 ==> r == Err::<(), ErrorView>(
                ErrorView::ParseError("key must not be empty"@),
            )
            &&& bad.0.len() > 65_536 ==> r == Err::<(), ErrorView>(
                ErrorView::KeyTooLong { len: bad.0.len() as usize, max: 65_536 },
            )
            &&& 1 <= bad.0.len() <= 65_536 ==> r == Err::<(), ErrorView>(
                ErrorView::ValueTooLarge { len: bad.1.len() as usize, max: 16_777_216 },
            )
        }),
{
    lemma_first_error(good, bad, rest);
}

} // verus!
