//! Restarts.
//!
//! Whatever commands an engine ran, and whenever its log went to the file, the log
//! alone gives back what the engine held.

use vstd::prelude::*;

use crate::clock::{law_xorshift_stays_nonzero, Clock};
use crate::decimal::{dec_int, lemma_dec_int_len, text_to_i64};
use crate::persistence::history::{
    lemma_replay_from_empty, lemma_said_content, lemma_says_later, steady,
};
use crate::persistence::laws::{all_acceptable, ready};
use crate::persistence::record::{frames, lemma_frames_concat, Record};
use crate::persistence::replay::replay_of;
use crate::persistence::writer::AofView;
use crate::storage::adaptive_climb::{lemma_list_follows, ClimbView};
use crate::storage::engine::durability::{
    alive, applied_all, content, in_calendar, keeps_pace, keeps_pace_untimed, kept, lasting,
    law_append_is_logged, law_del_is_logged, law_del_many_is_logged, law_expire_at_is_logged,
    law_flushdb_is_logged, law_get_is_logged, law_incr_by_is_logged, law_mset_is_logged,
    law_persist_is_logged, law_set_is_logged, law_set_nx_is_logged, law_sweep_is_logged,
    lemma_applied_concat, ms_left, says, tells, untimed, Kept,
};
use crate::storage::engine::laws::lemma_room_shrinks;
use crate::storage::engine::model::{
    deadline_of, epoch_of, first_error, key_error, pair_error, put_records, value_error, EngineView,
};
use crate::storage::engine::validity::{
    lemma_valid_read, lemma_valid_room, lemma_valid_without,
};
use crate::storage::entry::EntryView;
use crate::storage::sieve::{lemma_queue_follows, SieveView};

verus! {

/// A command, or a sweep of the store.
pub enum Edit {
    Put { key: Seq<u8>, value: Seq<u8> },
    PutNew { key: Seq<u8>, value: Seq<u8> },
    PutAll { pairs: Seq<(Seq<u8>, Seq<u8>)> },
    Append { key: Seq<u8>, suffix: Seq<u8> },
    Add { key: Seq<u8>, delta: i64 },
    Del { key: Seq<u8> },
    DelAll { keys: Seq<Seq<u8>> },
    Flush,
    ExpireAt { key: Seq<u8>, at: i64 },
    Persist { key: Seq<u8> },
    Get { key: Seq<u8> },
    Sweep { sample: int },
}

/// Whether a command does nothing but write, and sets no deadline.
pub open spec fn plain(edit: Edit) -> bool {
    !(edit is ExpireAt) && !(edit is Persist) && !(edit is Get) && !(edit is Sweep)
}

/// The engine after a command at `now`, whether it succeeded or not.
#[verifier::opaque]
pub open spec fn edited(s: EngineView, edit: Edit, now: Clock) -> EngineView {
    match edit {
        Edit::Put { key, value } => s.set(key, value, now).1,
        Edit::PutNew { key, value } => s.set_nx(key, value, now).1,
        Edit::PutAll { pairs } => s.mset(pairs, now).1,
        Edit::Append { key, suffix } => s.append(key, suffix, now).1,
        Edit::Add { key, delta } => s.incr_by(key, delta, now).1,
        Edit::Del { key } => s.deleted(key, now),
        Edit::DelAll { keys } => s.del_many(keys, now).1,
        Edit::Flush => s.cleared(),
        Edit::ExpireAt { key, at } => s.expire_at(key, at, now).1,
        Edit::Persist { key } => s.persist(key, now).1,
        Edit::Get { key } => s.fetched(key, now).1,
        Edit::Sweep { sample } => s.swept(sample, now),
    }
}

/// An engine with its log file.
pub struct Host {
    pub engine: EngineView,
    pub file: Seq<u8>,
}

impl Host {
    /// What a restart would find: the file with what the log still has to write.
    pub open spec fn log(self) -> Seq<u8> {
        self.file + self.engine.log->0.pending
    }
}

/// What happens to a host: a command at some time, or what the log still has to
/// write goes to the file.
pub enum Turn {
    Run { edit: Edit, now: Clock },
    Settle,
}

/// The host after one turn.
pub open spec fn turned(h: Host, turn: Turn) -> Host {
    match turn {
        Turn::Run { edit, now } => Host { engine: edited(h.engine, edit, now), ..h },
        Turn::Settle => match h.engine.log {
            Some(a) => Host {
                engine: EngineView {
                    log: Some(AofView { pending: Seq::empty(), ..a }),
                    ..h.engine
                },
                file: h.file + a.pending,
            },
            None => h,
        },
    }
}

/// The host after several turns.
pub open spec fn turned_all(h: Host, turns: Seq<Turn>) -> Host
    decreases turns.len(),
{
    if turns.len() == 0 {
        h
    } else {
        turned(turned_all(h, turns.drop_last()), turns.last())
    }
}

/// A host that has just come up with nothing stored and nothing logged.
pub open spec fn starts_empty(h: Host) -> bool {
    &&& h.engine.wf()
    &&& h.engine.store == Map::<Seq<u8>, EntryView>::empty()
    &&& h.engine.log is Some
    &&& h.log() == Seq::<u8>::empty()
}

/// A valid engine whose deadlines all pass a test.
pub open spec fn dated(s: EngineView, test: spec_fn(u128) -> bool) -> bool {
    &&& s.wf()
    &&& forall|k: Seq<u8>| #[trigger]
        s.store.contains_key(k) ==> passes(s.store[k].expire_at, test)
}

/// Whether there is no deadline, or it passes the test.
pub open spec fn passes(deadline: Option<u128>, test: spec_fn(u128) -> bool) -> bool {
    deadline matches Some(d) ==> test(d)
}

/// The test that no deadline passes.
pub open spec fn no_deadline() -> spec_fn(u128) -> bool {
    |d: u128| false
}

/// The test that a record can hold the deadline.
pub open spec fn in_reach(now: Clock) -> spec_fn(u128) -> bool {
    |d: u128| now.epoch_ms + ms_left(d, now) <= i64::MAX
}

proof fn lemma_dated_room(
    s: EngineView,
    incoming: int,
    now: Clock,
    test: spec_fn(u128) -> bool,
)
    requires
        dated(s, test),
    ensures
        dated(s.made_room(incoming, now, s.rounds()).1, test),
{
    let t = s.made_room(incoming, now, s.rounds()).1;
    lemma_room_shrinks(s, incoming, now, s.rounds());
    lemma_valid_room(s, incoming, now, s.rounds());
    assert forall|k: Seq<u8>| #[trigger] t.store.contains_key(k) implies passes(
        t.store[k].expire_at,
        test,
    ) by {
        assert(s.store.contains_key(k));
    }
}

proof fn lemma_dated_stored(
    s: EngineView,
    key: Seq<u8>,
    e: EntryView,
    test: spec_fn(u128) -> bool,
)
    requires
        dated(s, test),
        pair_error(key, e.data) is None,
        passes(e.expire_at, test),
    ensures
        dated(s.stored(key, e), test),
{
    lemma_queue_follows(s.sieve, key);
    lemma_list_follows(s.climb, key);
}

proof fn lemma_dated_put(
    s: EngineView,
    key: Seq<u8>,
    value: Seq<u8>,
    deadline: Option<u128>,
    now: Clock,
    test: spec_fn(u128) -> bool,
)
    requires
        dated(s, test),
        pair_error(key, value) is None,
        passes(deadline, test),
    ensures
        dated(s.set(key, value, now).1, test),
        dated(s.set_keep_ttl(key, value, deadline, now).1, test),
{
    let (room, t) = s.admitted(key, value.len(), now);
    lemma_dated_room(s, s.growth(key, value.len()), now, test);
    if room {
        let put = t.logged(Record::Put { key, value });
        assert(dated(put, test));
        lemma_dated_stored(put, key, EntryView::fresh(value, None, now), test);
        if let Some(d) = deadline {
            let timed = put.logged(Record::PExpireAt { key, at: epoch_of(d, now) });
            assert(dated(timed, test));
            lemma_dated_stored(timed, key, EntryView::fresh(value, deadline, now), test);
        }
        lemma_dated_stored(put, key, EntryView::fresh(value, deadline, now), test);
    }
}

proof fn lemma_dated_admitted_all(
    s: EngineView,
    pairs: Seq<(Seq<u8>, Seq<u8>)>,
    now: Clock,
    test: spec_fn(u128) -> bool,
)
    requires
        dated(s, test),
    ensures
        dated(s.admitted_all(pairs, now).1, test),
    decreases pairs.len(),
{
    if pairs.len() > 0 {
        let (room, t) = s.admitted(pairs[0].0, pairs[0].1.len(), now);
        lemma_dated_room(s, s.growth(pairs[0].0, pairs[0].1.len()), now, test);
        if room {
            lemma_dated_admitted_all(t, pairs.skip(1), now, test);
        }
    }
}

proof fn lemma_no_error(pairs: Seq<(Seq<u8>, Seq<u8>)>, i: int)
    requires
        first_error(pairs) is None,
        0 <= i < pairs.len(),
    ensures
        pair_error(pairs[i].0, pairs[i].1) is None,
    decreases pairs.len(),
{
    if i < pairs.len() - 1 {
        lemma_no_error(pairs.drop_last(), i);
    }
}

proof fn lemma_dated_stored_all(
    s: EngineView,
    pairs: Seq<(Seq<u8>, Seq<u8>)>,
    now: Clock,
    test: spec_fn(u128) -> bool,
)
    requires
        dated(s, test),
        forall|i: int|
            0 <= i < pairs.len() ==> pair_error((#[trigger] pairs[i]).0, pairs[i].1) is None,
    ensures
        dated(s.stored_all(pairs, now), test),
    decreases pairs.len(),
{
    if pairs.len() > 0 {
        let e = EntryView::fresh(pairs[0].1, None, now);
        lemma_dated_stored(s, pairs[0].0, e, test);
        lemma_dated_stored_all(s.stored(pairs[0].0, e), pairs.skip(1), now, test);
    }
}

proof fn lemma_dated_forgotten_all(
    s: EngineView,
    keys: Seq<Seq<u8>>,
    test: spec_fn(u128) -> bool,
)
    requires
        dated(s, test),
    ensures
        dated(s.forgotten_all(keys), test),
    decreases keys.len(),
{
    if keys.len() > 0 {
        lemma_dated_forgotten_all(s, keys.drop_last(), test);
        lemma_valid_without(s.forgotten_all(keys.drop_last()), keys.last());
    }
}

proof fn lemma_dated_logged_dels(
    s: EngineView,
    keys: Seq<Seq<u8>>,
    test: spec_fn(u128) -> bool,
)
    requires
        dated(s, test),
    ensures
        dated(s.logged_dels(keys), test),
    decreases keys.len(),
{
    if keys.len() > 0 {
        lemma_dated_logged_dels(s, keys.drop_last(), test);
    }
}

proof fn lemma_dated_dropped_all(
    s: EngineView,
    keys: Seq<Seq<u8>>,
    test: spec_fn(u128) -> bool,
)
    requires
        dated(s, test),
    ensures
        dated(s.dropped_all(keys), test),
    decreases keys.len(),
{
    if keys.len() > 0 {
        lemma_dated_dropped_all(s, keys.drop_last(), test);
        lemma_valid_without(s.dropped_all(keys.drop_last()), keys.last());
    }
}

/// No write gives a key a deadline.
proof fn lemma_write_dated(s: EngineView, edit: Edit, now: Clock, test: spec_fn(u128) -> bool)
    requires
        dated(s, test),
        plain(edit),
    ensures
        dated(edited(s, edit, now), test),
{
    reveal(edited);
    match edit {
        Edit::Put { key, value } => {
            if pair_error(key, value) is None {
                lemma_dated_put(s, key, value, None, now, test);
            }
        },
        Edit::PutNew { key, value } => {
            if pair_error(key, value) is None {
                lemma_valid_without(s, key);
                lemma_dated_put(s, key, value, None, now, test);
                lemma_dated_put(s.forgotten(key), key, value, None, now, test);
            }
        },
        Edit::PutAll { pairs } => {
            if first_error(pairs) is None {
                let (room, t) = s.admitted_all(pairs, now);
                lemma_dated_admitted_all(s, pairs, now, test);
                assert forall|i: int| 0 <= i < pairs.len() implies pair_error(
                    (#[trigger] pairs[i]).0,
                    pairs[i].1,
                ) is None by {
                    lemma_no_error(pairs, i);
                }
                let l = t.logged_batch(put_records(pairs));
                assert(dated(l, test));
                lemma_dated_stored_all(l, pairs, now, test);
            }
        },
        Edit::Append { key, suffix } => {
            let (value, deadline) = match s.peeked(key, now) {
                Some(h) => (h.0 + suffix, h.1),
                None => (suffix, None),
            };
            lemma_valid_without(s, key);
            if key_error(key) is None && value_error(value) is None {
                lemma_dated_put(s.purged(key, now), key, value, deadline, now, test);
            }
        },
        Edit::Add { key, delta } => {
            let (current, deadline): (Option<i64>, Option<u128>) = match s.peeked(key, now) {
                Some(h) => (text_to_i64(h.0), h.1),
                None => (Some(0), None),
            };
            lemma_valid_without(s, key);
            if let Some(n) = current {
                if key_error(key) is None && i64::MIN <= n + delta <= i64::MAX {
                    lemma_dec_int_len((n + delta) as i64);
                    lemma_dated_put(
                        s.purged(key, now),
                        key,
                        dec_int(n + delta),
                        deadline,
                        now,
                        test,
                    );
                }
            }
        },
        Edit::Del { key } => {
            lemma_valid_without(s, key);
        },
        Edit::DelAll { keys } => {
            lemma_dated_forgotten_all(s, keys, test);
            lemma_dated_logged_dels(s.forgotten_all(keys), s.live_ones(keys, now), test);
        },
        Edit::Flush => {
            assert(SieveView::empty().wf());
            assert(ClimbView::empty().wf());
        },
        _ => {},
    }
}

/// No command gives a key a deadline that a record cannot hold.
proof fn lemma_edit_dated(s: EngineView, edit: Edit, now: Clock)
    requires
        dated(s, in_reach(now)),
    ensures
        dated(edited(s, edit, now), in_reach(now)),
{
    reveal(edited);
    let test = in_reach(now);
    match edit {
        Edit::ExpireAt { key, at } => {
            lemma_valid_without(s, key);
            if s.live(key, now) && at > now.epoch_ms {
                let d = deadline_of(at, now);
                assert(d == now.mono_ns + (at - now.epoch_ms) * 1_000_000);
                assert(ms_left(d, now) == at - now.epoch_ms);
                assert(test(d));
            }
        },
        Edit::Persist { key } => {
            lemma_valid_without(s, key);
        },
        Edit::Get { key } => {
            lemma_valid_read(s, key, now);
        },
        Edit::Sweep { sample } => {
            law_xorshift_stays_nonzero(s.rng);
            let gone = s.swept_keys(sample).filter(|k: Seq<u8>| s.lapsed(k, now));
            assert(dated(s.drawn(), test));
            lemma_dated_dropped_all(s.drawn(), gone, test);
        },
        _ => {
            lemma_write_dated(s, edit, now, test);
        },
    }
}

/// The records of each write tell what it did, and speak of no deadline.
proof fn lemma_write_logged(s: EngineView, edit: Edit, now: Clock)
    requires
        dated(s, no_deadline()),
        plain(edit),
    ensures
        keeps_pace_untimed(s, edited(s, edit, now), now),
{
    reveal(edited);
    assert forall|k: Seq<u8>| #[trigger] s.store.contains_key(k) implies s.store[k].expire_at
        is None by {
        assert(passes(s.store[k].expire_at, no_deadline()));
    }
    assert(in_calendar(s.store, now));
    match edit {
        Edit::Put { key, value } => law_set_is_logged(s, key, value, now),
        Edit::PutNew { key, value } => law_set_nx_is_logged(s, key, value, now),
        Edit::PutAll { pairs } => law_mset_is_logged(s, pairs, now),
        Edit::Append { key, suffix } => law_append_is_logged(s, key, suffix, now),
        Edit::Add { key, delta } => law_incr_by_is_logged(s, key, delta, now),
        Edit::Del { key } => law_del_is_logged(s, key, now),
        Edit::DelAll { keys } => law_del_many_is_logged(s, keys, now),
        Edit::Flush => law_flushdb_is_logged(s, now),
        _ => {},
    }
}

/// The records of each command tell what it did.
proof fn lemma_edit_logged(s: EngineView, edit: Edit, now: Clock)
    requires
        dated(s, in_reach(now)),
        now.epoch_ms >= 0,
    ensures
        keeps_pace(s, edited(s, edit, now), now),
{
    reveal(edited);
    assert(in_calendar(s.store, now)) by {
        assert forall|k: Seq<u8>| #[trigger] s.store.contains_key(k) implies (
        s.store[k].expire_at matches Some(d) ==> now.epoch_ms + ms_left(d, now) <= i64::MAX) by {
            assert(passes(s.store[k].expire_at, in_reach(now)));
        }
    }
    match edit {
        Edit::Put { key, value } => law_set_is_logged(s, key, value, now),
        Edit::PutNew { key, value } => law_set_nx_is_logged(s, key, value, now),
        Edit::PutAll { pairs } => law_mset_is_logged(s, pairs, now),
        Edit::Append { key, suffix } => law_append_is_logged(s, key, suffix, now),
        Edit::Add { key, delta } => law_incr_by_is_logged(s, key, delta, now),
        Edit::Del { key } => law_del_is_logged(s, key, now),
        Edit::DelAll { keys } => law_del_many_is_logged(s, keys, now),
        Edit::Flush => law_flushdb_is_logged(s, now),
        Edit::ExpireAt { key, at } => law_expire_at_is_logged(s, key, at, now),
        Edit::Persist { key } => law_persist_is_logged(s, key, now),
        Edit::Get { key } => law_get_is_logged(s, key, now),
        Edit::Sweep { sample } => law_sweep_is_logged(s, sample, now),
    }
}

/// Whether a log speaks of no deadline.
pub open spec fn timeless(c: Map<Seq<u8>, Kept>) -> bool {
    forall|k: Seq<u8>| #[trigger] c.contains_key(k) ==> c[k].1 is None
}

/// Without deadlines it does not matter when a log is read.
proof fn lemma_says_at_any_time(c: Map<Seq<u8>, Kept>, s: EngineView, n: Clock, m: Clock)
    requires
        dated(s, no_deadline()),
        timeless(c),
        says(c, s.store, n),
    ensures
        says(c, s.store, m),
{
    assert forall|k: Seq<u8>| alive(s.store, k, n) == #[trigger] alive(s.store, k, m) by {
        assert(s.store.contains_key(k) ==> passes(s.store[k].expire_at, no_deadline()));
    }
    assert forall|k: Seq<u8>| #[trigger] alive(s.store, k, m) implies c.contains_key(k) && c[k]
        == kept(s.store[k], m) by {
        assert(alive(s.store, k, n));
        assert(passes(s.store[k].expire_at, no_deadline()));
    }
}

/// Records that speak of no deadline leave a log without any.
proof fn lemma_untimed_applied(c: Map<Seq<u8>, Kept>, rs: Seq<Record>)
    requires
        timeless(c),
        untimed(rs),
    ensures
        timeless(applied_all(c, rs)),
    decreases rs.len(),
{
    if rs.len() > 0 {
        lemma_untimed_applied(c, rs.drop_last());
        assert(rs[rs.len() - 1] == rs.last());
    }
}

/// A host whose log, of these records, says at `m` what its engine holds.
#[verifier::opaque]
spec fn well_logged(h: Host, rs: Seq<Record>, m: Clock) -> bool {
    &&& h.engine.log is Some
    &&& h.log() == frames(rs)
    &&& all_acceptable(rs)
    &&& says(applied_all(Map::empty(), rs), h.engine.store, m)
}

proof fn lemma_starts_logged(start: Host, m: Clock)
    requires
        starts_empty(start),
    ensures
        well_logged(start, Seq::empty(), m),
{
    reveal(well_logged);
    assert(frames(Seq::<Record>::empty()) =~= Seq::<u8>::empty());
}

proof fn lemma_settled(h: Host, rs: Seq<Record>, m: Clock)
    requires
        well_logged(h, rs, m),
    ensures
        well_logged(turned(h, Turn::Settle), rs, m),
        turned(h, Turn::Settle).engine.store == h.engine.store,
{
    reveal(well_logged);
    assert(turned(h, Turn::Settle).log() =~= h.log());
}

/// More records are appended, and say what the engine holds afterwards.
proof fn lemma_more_logged(
    h: Host,
    sooner: Seq<Record>,
    after: EngineView,
    later: Seq<Record>,
    m: Clock,
)
    requires
        well_logged(h, sooner, m),
        after.log is Some,
        after.log->0.pending == h.engine.log->0.pending + frames(later),
        all_acceptable(later),
        says(applied_all(applied_all(Map::empty(), sooner), later), after.store, m),
    ensures
        well_logged(Host { engine: after, ..h }, sooner + later, m),
{
    reveal(well_logged);
    let t = Host { engine: after, ..h };
    lemma_frames_concat(sooner, later);
    lemma_applied_concat(Map::empty(), sooner, later);
    assert(t.log() =~= h.log() + frames(later));
    assert(all_acceptable(sooner + later));
}

/// Whether every command of a run is a plain write.
pub open spec fn plain_writes(turns: Seq<Turn>) -> bool {
    forall|i: int| 0 <= i < turns.len() ==> ((#[trigger] turns[i]) matches Turn::Run { edit, .. }
        ==> plain(edit))
}

/// The records in the log of a host that ran plain writes.
proof fn lemma_writes_logged(start: Host, turns: Seq<Turn>, m: Clock) -> (rs: Seq<Record>)
    requires
        starts_empty(start),
        plain_writes(turns),
    ensures
        dated(turned_all(start, turns).engine, no_deadline()),
        well_logged(turned_all(start, turns), rs, m),
        timeless(applied_all(Map::empty(), rs)),
    decreases turns.len(),
{
    if turns.len() == 0 {
        lemma_starts_logged(start, m);
        Seq::empty()
    } else {
        let front = turns.drop_last();
        assert(plain_writes(front)) by {
            assert forall|i: int| 0 <= i < front.len() implies #[trigger] front[i]
                == turns[i] by {}
        }
        let sooner = lemma_writes_logged(start, front, m);
        let before = turned_all(start, front);
        assert(turns[turns.len() - 1] == turns.last());
        match turns.last() {
            Turn::Run { edit, now } => {
                let later = lemma_write_run(before, sooner, edit, now, m);
                lemma_applied_concat(Map::empty(), sooner, later);
                sooner + later
            },
            Turn::Settle => {
                lemma_settled(before, sooner, m);
                assert(dated(turned(before, Turn::Settle).engine, no_deadline()));
                sooner
            },
        }
    }
}

/// One plain write, as a replay at any time reads it.
proof fn lemma_write_run(h: Host, sooner: Seq<Record>, edit: Edit, now: Clock, m: Clock) -> (rs:
    Seq<Record>)
    requires
        dated(h.engine, no_deadline()),
        well_logged(h, sooner, m),
        timeless(applied_all(Map::empty(), sooner)),
        plain(edit),
    ensures
        dated(edited(h.engine, edit, now), no_deadline()),
        well_logged(Host { engine: edited(h.engine, edit, now), ..h }, sooner + rs, m),
        timeless(applied_all(applied_all(Map::empty(), sooner), rs)),
{
    let s = h.engine;
    let t = edited(s, edit, now);
    let c = applied_all(Map::empty(), sooner);
    lemma_write_dated(s, edit, now, no_deadline());
    lemma_write_logged(s, edit, now);
    assert(s.log is Some && says(c, s.store, m)) by {
        reveal(well_logged);
    }
    let rs = choose|rs: Seq<Record>|
        t.log->0.pending == s.log->0.pending + #[trigger] frames(rs) && all_acceptable(rs)
            && untimed(rs) && tells(s.store, t.store, rs, now);
    lemma_says_at_any_time(c, s, m, now);
    lemma_untimed_applied(c, rs);
    assert(says(applied_all(c, rs), t.store, now));
    lemma_says_at_any_time(applied_all(c, rs), t, now, m);
    lemma_more_logged(h, sooner, t, rs, m);
    rs
}

/// Whether the clocks ran steadily from command to command and up to `m`, and
/// never stood before the epoch.
pub open spec fn ran_steadily(turns: Seq<Turn>, m: Clock) -> bool
    decreases turns.len(),
{
    if turns.len() == 0 {
        true
    } else {
        match turns.last() {
            Turn::Run { edit, now } => steady(now, m) && now.epoch_ms >= 0 && ran_steadily(
                turns.drop_last(),
                now,
            ),
            Turn::Settle => ran_steadily(turns.drop_last(), m),
        }
    }
}

/// The records in the log of a host, whatever it ran.
proof fn lemma_turns_logged(start: Host, turns: Seq<Turn>, m: Clock) -> (rs: Seq<Record>)
    requires
        starts_empty(start),
        ran_steadily(turns, m),
    ensures
        dated(turned_all(start, turns).engine, in_reach(m)),
        well_logged(turned_all(start, turns), rs, m),
    decreases turns.len(),
{
    if turns.len() == 0 {
        lemma_starts_logged(start, m);
        Seq::empty()
    } else {
        let front = turns.drop_last();
        let before = turned_all(start, front);
        match turns.last() {
            Turn::Run { edit, now } => {
                let sooner = lemma_turns_logged(start, front, now);
                let later = lemma_run(before, sooner, edit, now, m);
                sooner + later
            },
            Turn::Settle => {
                let sooner = lemma_turns_logged(start, front, m);
                lemma_settled(before, sooner, m);
                assert(dated(turned(before, Turn::Settle).engine, in_reach(m)));
                sooner
            },
        }
    }
}

/// One command, as a replay at a later time reads it.
proof fn lemma_run(h: Host, sooner: Seq<Record>, edit: Edit, now: Clock, m: Clock) -> (rs: Seq<
    Record,
>)
    requires
        dated(h.engine, in_reach(now)),
        well_logged(h, sooner, now),
        now.epoch_ms >= 0,
        steady(now, m),
    ensures
        dated(edited(h.engine, edit, now), in_reach(m)),
        well_logged(Host { engine: edited(h.engine, edit, now), ..h }, sooner + rs, m),
{
    let s = h.engine;
    let t = edited(s, edit, now);
    let c = applied_all(Map::empty(), sooner);
    lemma_edit_dated(s, edit, now);
    lemma_edit_logged(s, edit, now);
    assert(s.log is Some && says(c, s.store, now)) by {
        reveal(well_logged);
    }
    let rs = choose|rs: Seq<Record>|
        t.log->0.pending == s.log->0.pending + #[trigger] frames(rs) && all_acceptable(rs) && tells(
            s.store,
            t.store,
            rs,
            now,
        );
    assert(says(applied_all(c, rs), t.store, now));
    lemma_more_logged(h, sooner, t, rs, now);
    let after = Host { engine: t, ..h };
    assert(well_logged(after, sooner + rs, m)) by {
        reveal(well_logged);
        lemma_says_later(applied_all(Map::empty(), sooner + rs), t.store, now, m);
    }
    assert forall|k: Seq<u8>| #[trigger] t.store.contains_key(k) implies passes(
        t.store[k].expire_at,
        in_reach(m),
    ) by {
        assert(passes(t.store[k].expire_at, in_reach(now)));
        if let Some(d) = t.store[k].expire_at {
            assert(in_reach(now)(d));
            assert(ms_left(d, now) == ms_left(d, m) + (m.epoch_ms - now.epoch_ms));
        }
    }
    rs
}

/// Whatever an engine held survives a restart. After any commands on a host that
/// started empty, replaying its log into an empty engine at a later time gives
/// back every key with its value and its deadline, but for those that expired
/// meanwhile; it skips no record, finds no broken end and keeps the whole log. It
/// does not matter how often a deadline was moved or taken off, nor whether an
/// earlier one has passed.
pub proof fn law_restart_restores(start: Host, turns: Seq<Turn>, fresh: EngineView, m: Clock)
    requires
        starts_empty(start),
        ran_steadily(turns, m),
        ready(fresh, m),
        fresh.store == Map::<Seq<u8>, EntryView>::empty(),
    ensures
        ({
            let end = turned_all(start, turns);
            let (r, restored) = replay_of(fresh, end.log(), m);
            &&& end.engine.log is Some
            &&& r matches Ok(p) && p.skipped == 0 && !p.truncated && p.good == end.log().len()
            &&& content(restored.store, m) == content(end.engine.store, m)
        }),
{
    let rs = lemma_turns_logged(start, turns, m);
    reveal(well_logged);
    lemma_replay_from_empty(fresh, rs, m);
    lemma_said_content(
        applied_all(Map::empty(), rs),
        turned_all(start, turns).engine.store,
        m,
    );
}

/// What a host without deadlines held survives a restart, however its clocks
/// went. After any plain writes on a host that started empty, replaying its log
/// into an empty engine skips no record, finds no broken end and keeps the whole
/// log, and then every key reads as it did before, at any time.
pub proof fn law_restart_restores_writes(
    start: Host,
    turns: Seq<Turn>,
    fresh: EngineView,
    m: Clock,
)
    requires
        starts_empty(start),
        plain_writes(turns),
        ready(fresh, m),
        fresh.store == Map::<Seq<u8>, EntryView>::empty(),
    ensures
        ({
            let end = turned_all(start, turns);
            let (r, restored) = replay_of(fresh, end.log(), m);
            &&& end.engine.log is Some
            &&& r matches Ok(p) && p.skipped == 0 && !p.truncated && p.good == end.log().len()
            &&& forall|k: Seq<u8>, later: Clock|
                (#[trigger] restored.fetched(k, later)).0 == end.engine.fetched(k, later).0
        }),
{
    let rs = lemma_writes_logged(start, turns, m);
    let end = turned_all(start, turns).engine;
    reveal(well_logged);
    lemma_replay_from_empty(fresh, rs, m);
    lemma_said_content(applied_all(Map::empty(), rs), end.store, m);
    let restored = replay_of(fresh, frames(rs), m).1;
    assert(content(restored.store, m) == content(end.store, m));
    assert forall|k: Seq<u8>, later: Clock| (#[trigger] restored.fetched(k, later)).0
        == end.fetched(k, later).0 by {
        assert(content(restored.store, m).contains_key(k) == content(end.store, m).contains_key(k));
        assert(restored.store.contains_key(k) ==> lasting(restored.store[k], m));
        assert(end.store.contains_key(k) ==> passes(end.store[k].expire_at, no_deadline()));
        if restored.store.contains_key(k) {
            assert(kept(restored.store[k], m) == content(restored.store, m)[k]);
            assert(kept(end.store[k], m) == content(end.store, m)[k]);
        }
    }
}

} // verus!
