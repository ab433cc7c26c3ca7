//! How much room a command asks for.

use vstd::prelude::*;

use crate::clock::Clock;
use crate::decimal::{dec_int, format_i64, lemma_dec_int_len, parse_i64, text_to_i64};
use crate::protocol::frame::{Command, WireCommand};
use crate::storage::engine::memory::lemma_total_remove;
use crate::storage::engine::model::{
    first_error, key_error, pair_error, EngineView, VALUE_MAX_BYTES,
};
use crate::storage::engine::operations::pair_views;
use crate::storage::engine::{validate_key, validate_value, KvEngine};

verus! {

/// The largest growth among several pairs, each taken by itself.
pub open spec fn largest_growth(s: EngineView, pairs: Seq<(Seq<u8>, Seq<u8>)>) -> int
    decreases pairs.len(),
{
    if pairs.len() == 0 {
        0
    } else {
        let front = largest_growth(s, pairs.drop_last());
        let last = s.growth(pairs.last().0, pairs.last().1.len());
        if last > front {
            last
        } else {
            front
        }
    }
}

/// The number that `INCRBY` would write, if it would write one.
pub open spec fn sum_written(s: EngineView, key: Seq<u8>, delta: i64, now: Clock) -> Option<int> {
    let current: Option<i64> = match s.live_value(key, now) {
        Some(v) => text_to_i64(v),
        None => Some(0),
    };
    match current {
        Some(n) if i64::MIN <= n + delta <= i64::MAX => Some(n + delta),
        _ => None,
    }
}

/// The bytes for which a command has room made before it writes; zero for a
/// command that would not write. The pairs of `MSET` are admitted one by one, so
/// the largest counts.
pub open spec fn charge(s: EngineView, c: WireCommand, now: Clock) -> int {
    match c {
        WireCommand::SetKey { key, value } => if pair_error(key, value) is None {
            s.growth(key, value.len())
        } else {
            0
        },
        WireCommand::SetNx { key, value } => if pair_error(key, value) is None && !s.live(
            key,
            now,
        ) {
            s.purged(key, now).growth(key, value.len())
        } else {
            0
        },
        WireCommand::Append { key, value } => {
            let whole = match s.live_value(key, now) {
                Some(v) => v + value,
                None => value,
            };
            if pair_error(key, whole) is None {
                s.purged(key, now).growth(key, whole.len())
            } else {
                0
            }
        },
        WireCommand::IncrBy { key, delta } => match sum_written(s, key, delta, now) {
            Some(n) if key_error(key) is None => s.purged(key, now).growth(key, dec_int(n).len()),
            _ => 0,
        },
        WireCommand::MSet { pairs } => if first_error(pairs) is None {
            largest_growth(s, pairs)
        } else {
            0
        },
        _ => 0,
    }
}

fn accepts(key: &[u8], value: &[u8]) -> (yes: bool)
    ensures
        yes == (pair_error(key@, value@) is None),
{
    validate_key(key).is_ok() && validate_value(value).is_ok()
}

/// The bytes for which a command has room made before it writes.
pub fn growth_of(command: &Command, engine: &KvEngine, now: Clock) -> (n: u64)
    requires
        engine.wf(),
    ensures
        n == charge(engine@, command@, now),
{
    match command {
        Command::SetKey { key, value } => {
            if accepts(key.as_slice(), value.as_slice()) {
                engine.growth_of(key.as_slice(), value.len())
            } else {
                0
            }
        },
        Command::SetNx { key, value } => {
            if accepts(key.as_slice(), value.as_slice()) && engine.live_value_of(
                key.as_slice(),
                now,
            ).is_none() {
                engine.purged_growth_of(key.as_slice(), value.len(), now)
            } else {
                0
            }
        },
        Command::Append { key, value } => append_growth(
            engine,
            key.as_slice(),
            value.as_slice(),
            now,
        ),
        Command::IncrBy { key, delta } => incr_growth(engine, key.as_slice(), *delta, now),
        Command::MSet { pairs } => pairs_growth(engine, pairs.as_slice()),
        _ => 0,
    }
}

fn append_growth(engine: &KvEngine, key: &[u8], suffix: &[u8], now: Clock) -> (n: u64)
    requires
        engine.wf(),
    ensures
        n == charge(engine@, WireCommand::Append { key: key@, value: suffix@ }, now),
{
    proof {
        engine.law_valid_state();
    }
    if !accepts(key, suffix) {
        return 0;
    }
    let held: usize = match engine.live_value_of(key, now) {
        Some(v) => v.len(),
        None => 0,
    };
    if suffix.len() > VALUE_MAX_BYTES || held > VALUE_MAX_BYTES - suffix.len() {
        return 0;
    }
    engine.purged_growth_of(key, held + suffix.len(), now)
}

fn incr_growth(engine: &KvEngine, key: &[u8], delta: i64, now: Clock) -> (n: u64)
    requires
        engine.wf(),
    ensures
        n == charge(engine@, WireCommand::IncrBy { key: key@, delta }, now),
{
    if validate_key(key).is_err() {
        return 0;
    }
    let current: i64 = match engine.live_value_of(key, now) {
        Some(v) => match parse_i64(v.as_slice()) {
            Some(n) => n,
            None => {
                return 0;
            },
        },
        None => 0,
    };
    match current.checked_add(delta) {
        Some(sum) => {
            proof {
                lemma_dec_int_len(sum);
            }
            engine.purged_growth_of(key, format_i64(sum).len(), now)
        },
        None => 0,
    }
}

fn pairs_growth(engine: &KvEngine, pairs: &[(Vec<u8>, Vec<u8>)]) -> (n: u64)
    requires
        engine.wf(),
    ensures
        n == (if first_error(pair_views(pairs@)) is None {
            largest_growth(engine@, pair_views(pairs@))
        } else {
            0
        }),
{
    let ghost all = pair_views(pairs@);
    let mut most: u64 = 0;
    let mut i: usize = 0;
    while i < pairs.len()
        invariant
            i <= pairs.len(),
            engine.wf(),
            all == pair_views(pairs@),
            first_error(all.take(i as int)) is None,
            most == largest_growth(engine@, all.take(i as int)),
        decreases pairs.len() - i,
    {
        let ghost more = all.take(i as int + 1);
        proof {
            assert(more.drop_last() =~= all.take(i as int));
            assert(more.last() == all[i as int]);
            assert(all[i as int] == (pairs@[i as int].0@, pairs@[i as int].1@));
        }
        if !accepts(pairs[i].0.as_slice(), pairs[i].1.as_slice()) {
            proof {
                lemma_error_stays(all, i as int + 1);
            }
            return 0;
        }
        let growth: u64 = engine.growth_of(pairs[i].0.as_slice(), pairs[i].1.len());
        if growth > most {
            most = growth;
        }
        i += 1;
    }
    assert(all.take(i as int) =~= all);
    most
}

/// A refusal among the first pairs is one among all.
proof fn lemma_error_stays(pairs: Seq<(Seq<u8>, Seq<u8>)>, n: int)
    requires
        0 <= n <= pairs.len(),
        first_error(pairs.take(n)) is Some,
    ensures
        first_error(pairs) is Some,
    decreases pairs.len(),
{
    if n == pairs.len() {
        assert(pairs.take(n) =~= pairs);
    } else {
        assert(pairs.drop_last().take(n) =~= pairs.take(n));
        lemma_error_stays(pairs.drop_last(), n);
    }
}

/// A pair's growth is no more than the largest.
proof fn lemma_growth_within(s: EngineView, pairs: Seq<(Seq<u8>, Seq<u8>)>, i: int)
    requires
        0 <= i < pairs.len(),
    ensures
        s.growth(pairs[i].0, pairs[i].1.len()) <= largest_growth(s, pairs),
    decreases pairs.len(),
{
    if i < pairs.len() - 1 {
        lemma_growth_within(s, pairs.drop_last(), i);
    }
}

proof fn lemma_all_admitted(s: EngineView, pairs: Seq<(Seq<u8>, Seq<u8>)>, now: Clock)
    requires
        forall|i: int|
            0 <= i < pairs.len() ==> s.fits(s.growth((#[trigger] pairs[i]).0, pairs[i].1.len())),
    ensures
        s.admitted_all(pairs, now) == (true, s),
    decreases pairs.len(),
{
    if pairs.len() > 0 {
        assert(s.fits(s.growth(pairs[0].0, pairs[0].1.len())));
        let rest = pairs.skip(1);
        assert forall|i: int| 0 <= i < rest.len() implies s.fits(
            s.growth((#[trigger] rest[i]).0, rest[i].1.len()),
        ) by {
            assert(rest[i] == pairs[i + 1]);
        }
        lemma_all_admitted(s, rest, now);
    }
}

/// With a lapsed key gone there is no less room.
proof fn lemma_purged_fits(s: EngineView, key: Seq<u8>, incoming: int, now: Clock)
    requires
        s.wf(),
        s.fits(incoming),
    ensures
        s.purged(key, now).fits(incoming),
        s.lapsed(key, now) ==> s.forgotten(key).fits(incoming),
{
    if s.lapsed(key, now) {
        lemma_total_remove(s.store, key);
    }
}

/// Room for a command's charge is room enough: where it fits, what the command
/// writes is admitted, and no key is evicted for it.
pub proof fn law_charge_is_enough(s: EngineView, c: WireCommand, now: Clock)
    requires
        s.wf(),
        s.fits(charge(s, c, now)),
    ensures
        match c {
            WireCommand::SetKey { key, value } => pair_error(key, value) is None ==> s.admitted(
                key,
                value.len(),
                now,
            ) == (true, s),
            WireCommand::SetNx { key, value } => pair_error(key, value) is None && !s.live(
                key,
                now,
            ) ==> {
                let t = if s.lapsed(key, now) {
                    s.forgotten(key)
                } else {
                    s
                };
                t.admitted(key, value.len(), now) == (true, t)
            },
            WireCommand::Append { key, value } => {
                let whole = match s.live_value(key, now) {
                    Some(v) => v + value,
                    None => value,
                };
                let t = s.purged(key, now);
                pair_error(key, whole) is None ==> t.admitted(key, whole.len(), now) == (true, t)
            },
            WireCommand::IncrBy { key, delta } => {
                let sum = sum_written(s, key, delta, now);
                let t = s.purged(key, now);
                key_error(key) is None && sum is Some ==> t.admitted(
                    key,
                    dec_int(sum->0).len(),
                    now,
                ) == (true, t)
            },
            WireCommand::MSet { pairs } => first_error(pairs) is None ==> s.admitted_all(
                pairs,
                now,
            ) == (true, s),
            _ => true,
        },
{
    match c {
        WireCommand::SetNx { key, value } => {
            lemma_purged_fits(s, key, charge(s, c, now), now);
        },
        WireCommand::Append { key, value } => {
            lemma_purged_fits(s, key, charge(s, c, now), now);
        },
        WireCommand::IncrBy { key, delta } => {
            lemma_purged_fits(s, key, charge(s, c, now), now);
        },
        WireCommand::MSet { pairs } => {
            if first_error(pairs) is None {
                assert forall|i: int| 0 <= i < pairs.len() implies s.fits(
                    s.growth((#[trigger] pairs[i]).0, pairs[i].1.len()),
                ) by {
                    lemma_growth_within(s, pairs, i);
                }
                lemma_all_admitted(s, pairs, now);
            }
        },
        _ => {},
    }
}

} // verus!
