//! What a log says as time goes on.
//!
//! A log holds absolute times, an engine deadlines on its own clock. While both
//! clocks run steadily, what the log says of a store stays true.

use vstd::prelude::*;

use crate::clock::Clock;
use crate::persistence::laws::{
    all_acceptable, all_lasting, broken_off, law_replay_rebuilds, ready,
};
use crate::persistence::record::{frames, Record};
use crate::persistence::replay::{replay_of, Progress};
use crate::persistence::resp::command_frame;
use crate::storage::engine::durability::{
    alive, applied_all, at_time, content, kept, ms_left, over, says, Kept,
};
use crate::storage::engine::model::EngineView;
use crate::storage::entry::EntryView;

verus! {

/// Both clocks moved on by the same time, and not backwards.
pub open spec fn steady(n: Clock, m: Clock) -> bool {
    n.epoch_ms <= m.epoch_ms && m.mono_ns - n.mono_ns == (m.epoch_ms - n.epoch_ms) * 1_000_000
}

/// Time alone only takes keys away: it alters no value and no deadline.
pub proof fn law_time_only_expires(store: Map<Seq<u8>, EntryView>, n: Clock, m: Clock)
    requires
        steady(n, m),
    ensures
        content(store, m) == at_time(content(store, n), m),
{
    assert forall|k: Seq<u8>| #[trigger] content(store, m).contains_key(k) <==> at_time(
        content(store, n),
        m,
    ).contains_key(k) by {
        if let Some(d) = store[k].expire_at {
            assert(ms_left(d, n) == ms_left(d, m) + (m.epoch_ms - n.epoch_ms));
        }
    }
    assert forall|k: Seq<u8>| content(store, m).contains_key(k) implies #[trigger] content(
        store,
        m,
    )[k] == at_time(content(store, n), m)[k] by {
        assert(content(store, m).contains_key(k));
        if let Some(d) = store[k].expire_at {
            assert(ms_left(d, n) == ms_left(d, m) + (m.epoch_ms - n.epoch_ms));
        }
    }
    assert(content(store, m) =~= at_time(content(store, n), m));
}

/// What a log says of a store stays true as time goes on.
pub proof fn lemma_says_later(
    c: Map<Seq<u8>, Kept>,
    store: Map<Seq<u8>, EntryView>,
    n: Clock,
    m: Clock,
)
    requires
        steady(n, m),
        says(c, store, n),
    ensures
        says(c, store, m),
{
    assert forall|k: Seq<u8>| #[trigger] alive(store, k, m) implies c.contains_key(k) && c[k]
        == kept(store[k], m) by {
        assert(alive(store, k, n));
        if let Some(d) = store[k].expire_at {
            assert(ms_left(d, n) == ms_left(d, m) + (m.epoch_ms - n.epoch_ms));
        }
    }
    assert forall|k: Seq<u8>| #[trigger] c.contains_key(k) && !alive(store, k, m) implies over(
        c[k],
        m,
    ) by {
        if alive(store, k, n) {
            let d = store[k].expire_at->0;
            assert(ms_left(d, n) == ms_left(d, m) + (m.epoch_ms - n.epoch_ms));
        }
    }
}

/// A log that says what a store holds gives back its content.
pub proof fn lemma_said_content(
    c: Map<Seq<u8>, Kept>,
    store: Map<Seq<u8>, EntryView>,
    m: Clock,
)
    requires
        says(c, store, m),
    ensures
        at_time(c, m) == content(store, m),
{
    assert forall|k: Seq<u8>| #[trigger] at_time(c, m).contains_key(k) <==> content(
        store,
        m,
    ).contains_key(k) by {
        assert(alive(store, k, m) ==> c.contains_key(k) && c[k] == kept(store[k], m));
        assert(c.contains_key(k) && !alive(store, k, m) ==> over(c[k], m));
    }
    assert forall|k: Seq<u8>| at_time(c, m).contains_key(k) implies #[trigger] at_time(c, m)[k]
        == content(store, m)[k] by {
        assert(at_time(c, m).contains_key(k) == content(store, m).contains_key(k));
        assert(alive(store, k, m));
    }
    assert(at_time(c, m) =~= content(store, m));
}

/// Replaying records into an empty engine.
pub proof fn lemma_replay_from_empty(fresh: EngineView, rs: Seq<Record>, m: Clock)
    requires
        ready(fresh, m),
        fresh.store == Map::<Seq<u8>, EntryView>::empty(),
        all_acceptable(rs),
    ensures
        ({
            let (r, t) = replay_of(fresh, frames(rs), m);
            &&& content(t.store, m) == at_time(applied_all(Map::empty(), rs), m)
            &&& all_lasting(t.store, m)
            &&& r == Ok::<Progress, crate::error::ErrorView>(
                Progress {
                    applied: rs.len(),
                    skipped: 0,
                    truncated: false,
                    good: frames(rs).len() as int,
                },
            )
        }),
{
    let none = Seq::<u8>::empty();
    let parts = Seq::<Seq<u8>>::empty();
    assert(command_frame(parts)[0] == 42u8);
    assert(command_frame(parts).take(0) =~= none);
    assert(broken_off(none, parts));
    assert(content(fresh.store, m) =~= Map::<Seq<u8>, Kept>::empty());
    law_replay_rebuilds(fresh, rs, none, parts, m);
    assert(frames(rs) + none =~= frames(rs));
}

} // verus!
