//! Active expiry.
//!
//! A sweeper calls [`sweep_tick`] at regular intervals. A tick samples keys and
//! drops the lapsed ones; while more than a quarter of a sample had lapsed it
//! samples again at once, up to a limit.

use vstd::prelude::*;

use crate::clock::Clock;
use crate::storage::engine::model::{start_of, EngineView};
use crate::storage::engine::operations::{swept_once, SweepStats};
use crate::storage::engine::KvEngine;
use crate::storage::keyspace::{lemma_listed, sorted_keys};

verus! {

/// Keys that one round looks at, unless told otherwise.
pub const DEFAULT_SAMPLE: usize = 20;

/// Milliseconds between ticks, unless told otherwise.
pub const DEFAULT_INTERVAL_MS: u64 = 100;

/// The most rounds of one tick, so that a busy sweep starves nobody.
pub const MAX_ROUNDS: usize = 16;

/// Whether more than a quarter of a round's keys had lapsed.
pub open spec fn found_many(s: EngineView, sample: usize, now: Clock) -> bool {
    let keys = s.swept_keys(sample as int);
    sample > 0 && keys.len() > 0 && keys.filter(|k: Seq<u8>| s.lapsed(k, now)).len() * 4
        > keys.len()
}

/// The engine after several rounds, each at its own reading of the clock.
pub open spec fn swept_all(s: EngineView, sample: usize, clocks: Seq<Clock>) -> EngineView
    decreases clocks.len(),
{
    if clocks.len() == 0 {
        s
    } else {
        swept_once(swept_all(s, sample, clocks.drop_last()), sample, clocks.last())
    }
}

/// Whether a tick may have gone this way: every round but the last found many
/// lapsed keys, and the last did not, unless the rounds ran out.
pub open spec fn tick_went(
    s: EngineView,
    sample: usize,
    clocks: Seq<Clock>,
    after: EngineView,
) -> bool {
    &&& 1 <= clocks.len() <= MAX_ROUNDS
    &&& forall|i: int| 0 <= i < clocks.len() ==> (#[trigger] clocks[i]).epoch_ms >= 0
    &&& after == swept_all(s, sample, clocks)
    &&& forall|i: int|
        0 <= i < clocks.len() - 1 ==> found_many(
            swept_all(s, sample, #[trigger] clocks.take(i)),
            sample,
            clocks[i],
        )
    &&& clocks.len() < MAX_ROUNDS ==> !found_many(
        swept_all(s, sample, clocks.drop_last()),
        sample,
        clocks.last(),
    )
}

/// One tick of the sweeper.
pub fn sweep_tick(engine: &mut KvEngine, sample: usize)
    requires
        old(engine).wf(),
    ensures
        final(engine).wf(),
        exists|clocks: Seq<Clock>|
            #[trigger] tick_went(old(engine)@, sample, clocks, final(engine)@),
{
    let ghost s = engine@;
    let ghost mut clocks: Seq<Clock> = Seq::empty();
    let mut rounds: usize = 0;
    let mut more: bool = true;
    while rounds < MAX_ROUNDS && more
        invariant
            rounds <= MAX_ROUNDS,
            rounds == clocks.len(),
            forall|i: int| 0 <= i < clocks.len() ==> (#[trigger] clocks[i]).epoch_ms >= 0,
            rounds == 0 ==> more,
            engine.wf(),
            engine@ == swept_all(s, sample, clocks),
            forall|i: int|
                0 <= i < clocks.len() - 1 ==> found_many(
                    swept_all(s, sample, #[trigger] clocks.take(i)),
                    sample,
                    clocks[i],
                ),
            rounds > 0 ==> more == found_many(
                swept_all(s, sample, clocks.drop_last()),
                sample,
                clocks.last(),
            ),
        decreases MAX_ROUNDS - rounds,
    {
        let now: Clock = engine.now();
        let ghost before = engine@;
        let ghost earlier = clocks;
        let stats: SweepStats = engine.sweep_expired_at(sample, now);
        more = stats.should_continue();
        rounds += 1;
        proof {
            clocks = earlier.push(now);
            assert(clocks.drop_last() =~= earlier);
            assert(more == found_many(before, sample, now));
            assert forall|i: int| 0 <= i < clocks.len() - 1 implies found_many(
                swept_all(s, sample, #[trigger] clocks.take(i)),
                sample,
                clocks[i],
            ) by {
                assert(clocks.take(i) =~= earlier.take(i));
                if i == earlier.len() - 1 {
                    assert(earlier.take(i) =~= earlier.drop_last());
                }
            }
        }
    }
    assert(tick_went(s, sample, clocks, engine@));
}

/// Dropping keys leaves the others alone.
proof fn lemma_dropped_all(s: EngineView, keys: Seq<Seq<u8>>, key: Seq<u8>)
    requires
        !keys.contains(key),
    ensures
        s.dropped_all(keys).store.contains_key(key) == s.store.contains_key(key),
        s.dropped_all(keys).store[key] == s.store[key],
    decreases keys.len(),
{
    if keys.len() > 0 {
        let front = keys.drop_last();
        assert(!front.contains(key)) by {
            if front.contains(key) {
                let i = choose|i: int| 0 <= i < front.len() && front[i] == key;
                assert(keys[i] == key);
            }
        }
        assert(keys.last() != key) by {
            assert(keys.contains(keys.last()));
        }
        lemma_dropped_all(s, front, key);
    }
}

/// A sweep drops no live key: a key that is live keeps its value, its deadline
/// and everything else.
pub proof fn law_sweep_keeps_live_keys(s: EngineView, sample: usize, key: Seq<u8>, now: Clock)
    requires
        s.live(key, now),
    ensures
        swept_once(s, sample, now).live(key, now),
        swept_once(s, sample, now).store[key] == s.store[key],
{
    if sample > 0 {
        let walk = s.swept_keys(sample as int);
        let gone = |k: Seq<u8>| s.lapsed(k, now);
        assert(!walk.filter(gone).contains(key)) by {
            if walk.filter(gone).contains(key) {
                let i = choose|i: int|
                    0 <= i < walk.filter(gone).len() && walk.filter(gone)[i] == key;
                walk.lemma_filter_pred(gone, i);
            }
        }
        lemma_dropped_all(s.drawn(), walk.filter(gone), key);
    }
}

/// Dropping keys drops each of them.
proof fn lemma_all_dropped(s: EngineView, keys: Seq<Seq<u8>>, key: Seq<u8>)
    requires
        keys.contains(key),
    ensures
        !s.dropped_all(keys).store.contains_key(key),
    decreases keys.len(),
{
    if keys.last() != key {
        let front = keys.drop_last();
        let i = choose|i: int| 0 <= i < keys.len() && keys[i] == key;
        assert(front[i] == key);
        lemma_all_dropped(s, front, key);
    }
}

/// A sweep that looks at every key leaves no lapsed one behind.
pub proof fn law_full_sweep_drops_lapsed_keys(
    s: EngineView,
    sample: usize,
    key: Seq<u8>,
    now: Clock,
)
    requires
        s.wf(),
        0 < sample,
        sorted_keys(s.store).len() <= sample,
        s.lapsed(key, now),
    ensures
        !swept_once(s, sample, now).store.contains_key(key),
{
    let keys = sorted_keys(s.store);
    lemma_listed(s.store);
    let start = start_of(s.draw(), keys.len());
    let walk = s.swept_keys(sample as int);
    let gone = |k: Seq<u8>| s.lapsed(k, now);
    assert(walk =~= keys.skip(start) + keys.take(start));
    let i = choose|i: int| 0 <= i < keys.len() && keys[i] == key;
    if i >= start {
        assert(walk[i - start] == key);
    } else {
        assert(walk[keys.len() - start + i] == key);
    }
    walk.lemma_filter_contains_rev(gone, key);
    lemma_all_dropped(s.drawn(), walk.filter(gone), key);
}

/// A sweep through the whole store leaves exactly the live keys, each as it was.
pub proof fn law_sweep_through_leaves_live_keys(s: EngineView, key: Seq<u8>, now: Clock)
    requires
        s.store.dom().finite(),
    ensures
        s.swept_through(now).store.contains_key(key) <==> s.live(key, now),
        s.live(key, now) ==> s.swept_through(now).store[key] == s.store[key],
{
    let keys = sorted_keys(s.store);
    lemma_listed(s.store);
    if keys.len() > 0 {
        let start = start_of(s.draw(), keys.len());
        let walk = s.swept_keys(keys.len() as int);
        let gone = |k: Seq<u8>| s.lapsed(k, now);
        assert(walk =~= keys.skip(start) + keys.take(start));
        if s.lapsed(key, now) {
            let i = choose|i: int| 0 <= i < keys.len() && keys[i] == key;
            if i >= start {
                assert(walk[i - start] == key);
            } else {
                assert(walk[keys.len() - start + i] == key);
            }
            walk.lemma_filter_contains_rev(gone, key);
            lemma_all_dropped(s.drawn(), walk.filter(gone), key);
        } else {
            assert(!walk.filter(gone).contains(key)) by {
                if walk.filter(gone).contains(key) {
                    let i = choose|i: int|
                        0 <= i < walk.filter(gone).len() && walk.filter(gone)[i] == key;
                    walk.lemma_filter_pred(gone, i);
                }
            }
            lemma_dropped_all(s.drawn(), walk.filter(gone), key);
        }
    } else {
        assert(!keys.contains(key));
    }
}

} // verus!
