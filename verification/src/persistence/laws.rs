//! Laws of the log and its replay.

use vstd::prelude::*;

use crate::bytes::upper_bytes;
use crate::clock::Clock;
use crate::decimal::{dec_int, lemma_dec_int_len, lemma_dec_int_round_trip};
use crate::persistence::record::{
    del_word, flushdb_word, frames, lemma_frames_concat, lemma_frames_one, persist_word,
    pexpireat_word, set_word, Record,
};
use crate::persistence::replay::{
    apply_parts, records_replayed, replay_of, replayed, Outcome, Progress,
};
use crate::persistence::resp::command_frame;
use crate::protocol::reader::{
    index_of_byte, law_cut_frame, law_frame_reads_back, lemma_frame_end, lemma_index_bounds,
    lemma_index_is, read_frame_at, Step,
};
use crate::storage::engine::durability::{
    applied, applied_all, at_time, content, kept, lasting, lemma_applied_concat, lemma_applied_one,
    ms_left, over, Kept,
};
use crate::storage::engine::model::{
    deadline_read, pair_error, EngineView, KEY_MAX_BYTES,
};
use crate::storage::entry::EntryView;
use crate::storage::expire::law_sweep_through_leaves_live_keys;

verus! {

/// Whether an engine can have written a record: its sizes are within the
/// limits.
pub open spec fn acceptable(r: Record) -> bool {
    match r {
        Record::Put { key, value } => pair_error(key, value) is None,
        Record::Del { key } => key.len() <= KEY_MAX_BYTES,
        Record::FlushDb => true,
        Record::PExpireAt { key, at } => key.len() <= KEY_MAX_BYTES,
        Record::Persist { key } => key.len() <= KEY_MAX_BYTES,
    }
}

pub open spec fn all_acceptable(rs: Seq<Record>) -> bool {
    forall|i: int| 0 <= i < rs.len() ==> acceptable(#[trigger] rs[i])
}

/// Every entry lasts for at least the log's grain of one millisecond.
pub open spec fn all_lasting(store: Map<Seq<u8>, EntryView>, now: Clock) -> bool {
    forall|k: Seq<u8>| #[trigger] store.contains_key(k) ==> lasting(store[k], now)
}

/// An engine as a replay finds it: no memory limit, nothing about to expire.
pub open spec fn ready(s: EngineView, now: Clock) -> bool {
    &&& s.cfg.max_memory == 0
    &&& s.store.dom().finite()
    &&& all_lasting(s.store, now)
}

/// Whether an entry stands for what the log says of its key. Of a deadline that
/// has passed only that is known.
spec fn stands_for(e: EntryView, v: Kept, now: Clock) -> bool {
    &&& e.data == v.0
    &&& match v.1 {
        None => e.expire_at is None,
        Some(_) => if over(v, now) {
            e.expired(now.mono_ns as u128)
        } else {
            kept(e, now) == v
        },
    }
}

/// An engine in the middle of a replay: its store stands for what the log has
/// said so far.
spec fn midway(s: EngineView, c: Map<Seq<u8>, Kept>, now: Clock) -> bool {
    &&& s.cfg.max_memory == 0
    &&& s.store.dom().finite()
    &&& forall|k: Seq<u8>| #[trigger] s.store.contains_key(k) <==> c.contains_key(k)
    &&& forall|k: Seq<u8>| #[trigger]
        s.store.contains_key(k) ==> stands_for(s.store[k], c[k], now)
}

proof fn lemma_words()
    ensures
        upper_bytes(set_word()) == set_word(),
        upper_bytes(del_word()) == del_word(),
        upper_bytes(flushdb_word()) == flushdb_word(),
        upper_bytes(pexpireat_word()) == pexpireat_word(),
        upper_bytes(persist_word()) == persist_word(),
        set_word() != del_word(),
        set_word().len() == 3,
        del_word().len() == 3,
        flushdb_word().len() == 7,
        persist_word().len() == 7,
        pexpireat_word().len() == 9,
        flushdb_word() != persist_word(),
{
    assert(upper_bytes(set_word()) =~= set_word());
    assert(upper_bytes(del_word()) =~= del_word());
    assert(upper_bytes(flushdb_word()) =~= flushdb_word());
    assert(upper_bytes(pexpireat_word()) =~= pexpireat_word());
    assert(upper_bytes(persist_word()) =~= persist_word());
    assert(set_word()[0] != del_word()[0]);
    assert(flushdb_word()[0] != persist_word()[0]);
}

/// Replaying a record does to the store what the record says.
proof fn lemma_apply_record(s: EngineView, c: Map<Seq<u8>, Kept>, r: Record, now: Clock)
    requires
        midway(s, c, now),
        acceptable(r),
    ensures
        ({
            let (outcome, t) = apply_parts(s, r.parts(), now);
            &&& outcome == Outcome::Applied
            &&& midway(t, applied(c, r), now)
        }),
{
    reveal(apply_parts);
    lemma_words();
    let parts = r.parts();
    let (outcome, t) = apply_parts(s, parts, now);
    let after = applied(c, r);
    match r {
        Record::Put { key, value } => {
            assert(parts[0] == set_word() && parts[1] == key && parts[2] == value);
            let e = EntryView::fresh(value, None, now);
            assert(s.fits(s.growth(key, value.len())));
            assert(s.admitted(key, value.len(), now) == (true, s));
            assert(t.store == s.store.insert(key, e));
        },
        Record::Del { key } => {
            assert(parts[0] == del_word() && parts[1] == key);
            assert(t.store == s.store.remove(key));
        },
        Record::FlushDb => {
            assert(parts[0] == flushdb_word());
        },
        Record::PExpireAt { key, at } => {
            assert(parts[0] == pexpireat_word() && parts[1] == key && parts[2] == dec_int(
                at as int,
            ));
            lemma_dec_int_round_trip(at);
            if s.store.contains_key(key) {
                let d = deadline_read(at, now);
                if at > now.epoch_ms {
                    assert(d == now.mono_ns + (at - now.epoch_ms) * 1_000_000);
                    assert(ms_left(d, now) == at - now.epoch_ms);
                }
                let e = EntryView { expire_at: Some(d), ..s.store[key] };
                assert(t.store == s.store.insert(key, e));
                assert(stands_for(e, after[key], now));
            }
        },
        Record::Persist { key } => {
            assert(parts[0] == persist_word() && parts[1] == key);
        },
    }
    assert forall|k: Seq<u8>| #[trigger] t.store.contains_key(k) implies stands_for(
        t.store[k],
        after[k],
        now,
    ) by {
        if s.store.contains_key(k) {
            assert(stands_for(s.store[k], c[k], now));
        }
    }
}

/// A record's frame reads back as the record.
proof fn lemma_record_frame(before: Seq<u8>, r: Record, after: Seq<u8>)
    requires
        acceptable(r),
    ensures
        read_frame_at(before + r.frame() + after, before.len() as int) == (Step::Done {
            value: r.parts(),
            end: before.len() as int + r.frame().len(),
        }),
        r.frame().len() > 0,
{
    let parts = r.parts();
    if let Record::PExpireAt { key, at } = r {
        lemma_dec_int_len(at);
    }
    assert forall|i: int| 0 <= i < parts.len() implies (#[trigger] parts[i]).len() <= i64::MAX by {}
    law_frame_reads_back(before, parts, after);
    assert(r.frame()[0] == 42u8);
}

/// The start of a frame that breaks off: nothing, or some bytes of a frame but
/// not all of it.
pub open spec fn broken_off(tail: Seq<u8>, parts: Seq<Seq<u8>>) -> bool {
    &&& tail.len() < command_frame(parts).len()
    &&& tail == command_frame(parts).take(tail.len() as int)
    &&& parts.len() <= i64::MAX
    &&& forall|i: int| 0 <= i < parts.len() ==> (#[trigger] parts[i]).len() <= i64::MAX
}

proof fn lemma_replay_from(
    s: EngineView,
    c: Map<Seq<u8>, Kept>,
    before: Seq<u8>,
    rs: Seq<Record>,
    tail: Seq<u8>,
    parts: Seq<Seq<u8>>,
    p: Progress,
    now: Clock,
)
    requires
        midway(s, c, now),
        all_acceptable(rs),
        broken_off(tail, parts),
        !p.truncated,
        p.good == before.len(),
    ensures
        ({
            let (r, t) = replayed(
                s,
                before + frames(rs) + tail,
                before.len() as int,
                p,
                now,
            );
            &&& r == Ok::<Progress, crate::error::ErrorView>(
                Progress {
                    applied: p.applied + rs.len(),
                    skipped: p.skipped,
                    truncated: tail.len() > 0,
                    good: before.len() + frames(rs).len() as int,
                },
            )
            &&& midway(t, applied_all(c, rs), now)
        }),
    decreases rs.len(),
{
    let log = before + frames(rs) + tail;
    let pos = before.len() as int;
    if rs.len() == 0 {
        assert(frames(rs) =~= Seq::<u8>::empty());
        assert(log =~= before + tail);
        if tail.len() > 0 {
            let frame = command_frame(parts);
            let full = before + frame + Seq::<u8>::empty();
            law_frame_reads_back(before, parts, Seq::empty());
            let n = before.len() + tail.len();
            assert(full.take(n as int) =~= log) by {
                assert forall|i: int| 0 <= i < n implies full[i] == log[i] by {
                    if i >= before.len() {
                        assert(tail[i - before.len()] == frame[i - before.len()]);
                    }
                }
            }
            law_cut_frame(full, pos, n as int);
        }
    } else {
        let first = rs[0];
        let rest = rs.skip(1);
        assert(acceptable(first));
        assert(rs =~= seq![first] + rest);
        lemma_frames_concat(seq![first], rest);
        lemma_frames_one(first);
        lemma_applied_concat(c, seq![first], rest);
        lemma_applied_one(c, first);
        lemma_record_frame(before, first, frames(rest) + tail);
        assert(log =~= before + first.frame() + (frames(rest) + tail));
        lemma_apply_record(s, c, first, now);
        let t = apply_parts(s, first.parts(), now).1;
        let next = before + first.frame();
        assert(log =~= next + frames(rest) + tail);
        assert forall|i: int| 0 <= i < rest.len() implies acceptable(#[trigger] rest[i]) by {
            assert(rest[i] == rs[i + 1]);
        }
        let q = Progress { applied: p.applied + 1, good: next.len() as int, ..p };
        lemma_replay_from(t, applied(c, first), next, rest, tail, parts, q, now);
    }
}

/// What has lapsed leaves, and the rest is what the log says at that time.
proof fn lemma_swept_content(s: EngineView, c: Map<Seq<u8>, Kept>, now: Clock)
    requires
        midway(s, c, now),
    ensures
        content(s.swept_through(now).store, now) == at_time(c, now),
        all_lasting(s.swept_through(now).store, now),
{
    let t = s.swept_through(now);
    assert forall|k: Seq<u8>|
        t.store.contains_key(k) == s.live(k, now) && (s.live(k, now) ==> #[trigger] t.store[k]
            == s.store[k] && lasting(t.store[k], now) && kept(t.store[k], now) == c[k] && !over(
            c[k],
            now,
        )) && (s.lapsed(k, now) ==> over(c[k], now)) by {
        law_sweep_through_leaves_live_keys(s, k, now);
        if s.store.contains_key(k) {
            assert(stands_for(s.store[k], c[k], now));
        }
    }
    assert forall|k: Seq<u8>| #[trigger] content(t.store, now).contains_key(k) <==> at_time(
        c,
        now,
    ).contains_key(k) by {
        assert(t.store[k] == t.store[k]);
    }
    assert forall|k: Seq<u8>| content(t.store, now).contains_key(k) implies #[trigger] content(
        t.store,
        now,
    )[k] == at_time(c, now)[k] by {
        assert(t.store[k] == t.store[k]);
    }
    assert(content(t.store, now) =~= at_time(c, now));
    assert forall|k: Seq<u8>| #[trigger] t.store.contains_key(k) implies lasting(
        t.store[k],
        now,
    ) by {}
}

/// Replaying a log rebuilds what its records say, but for what has lapsed when
/// the last one is read. Every record is applied, none
/// is skipped; a half-written record at the end is left out and cut off, back to
/// the last complete record.
pub proof fn law_replay_rebuilds(
    s: EngineView,
    rs: Seq<Record>,
    tail: Seq<u8>,
    parts: Seq<Seq<u8>>,
    now: Clock,
)
    requires
        ready(s, now),
        all_acceptable(rs),
        broken_off(tail, parts),
    ensures
        replay_of(s, frames(rs) + tail, now).0 == Ok::<Progress, crate::error::ErrorView>(
            Progress {
                applied: rs.len(),
                skipped: 0,
                truncated: tail.len() > 0,
                good: frames(rs).len() as int,
            },
        ),
        content(replay_of(s, frames(rs) + tail, now).1.store, now) == at_time(
            applied_all(content(s.store, now), rs),
            now,
        ),
        all_lasting(replay_of(s, frames(rs) + tail, now).1.store, now),
{
    let none = Seq::<u8>::empty();
    let held = content(s.store, now);
    assert(none + frames(rs) + tail =~= frames(rs) + tail);
    assert forall|k: Seq<u8>| #[trigger] s.store.contains_key(k) implies stands_for(
        s.store[k],
        held[k],
        now,
    ) by {
        assert(lasting(s.store[k], now));
    }
    lemma_replay_from(
        s,
        held,
        none,
        rs,
        tail,
        parts,
        Progress { applied: 0, skipped: 0, truncated: false, good: 0 },
        now,
    );
    lemma_swept_content(
        records_replayed(s, frames(rs) + tail, now).1,
        applied_all(held, rs),
        now,
    );
}

proof fn lemma_progress(s: EngineView, log: Seq<u8>, pos: int, p: Progress, now: Clock)
    requires
        0 <= pos <= log.len(),
        !p.truncated,
        p.good <= pos,
        replayed(s, log, pos, p, now).0 is Ok,
    ensures
        ({
            let (r, t) = replayed(s, log, pos, p, now);
            let f = r->Ok_0;
            &&& f.applied >= p.applied
            &&& f.good == p.good || pos < f.good <= log.len()
            &&& f.good == p.good ==> t == s && f.applied == p.applied
        }),
    decreases log.len() - pos,
{
    if pos < log.len() {
        lemma_frame_end(log, pos);
        match read_frame_at(log, pos) {
            Step::Short => {},
            Step::Bad { end } => {
                lemma_index_bounds(log, end, 42);
                let next = index_of_byte(log, end, 42);
                if next < log.len() {
                    lemma_progress(s, log, next, Progress { skipped: p.skipped + 1, ..p }, now);
                }
            },
            Step::Done { value: parts, end } => {
                let (outcome, t) = apply_parts(s, parts, now);
                match outcome {
                    Outcome::Applied => {
                        let q = Progress { applied: p.applied + 1, good: end, ..p };
                        lemma_progress(t, log, end, q, now);
                    },
                    Outcome::Refused(e) => {},
                    _ => {
                        let q = Progress { skipped: p.skipped + 1, good: end, ..p };
                        lemma_progress(t, log, end, q, now);
                    },
                }
            },
        }
    }
}

/// The replay of the log cut at the end of the last complete record.
spec fn clean(
    s: EngineView,
    log: Seq<u8>,
    pos: int,
    p: Progress,
    now: Clock,
    f: Progress,
    t: EngineView,
) -> bool {
    let (r, u) = replayed(s, log.take(f.good), pos, p, now);
    &&& u == t
    &&& r matches Ok(g) && !g.truncated && g.applied == f.applied && g.good == f.good
}

proof fn lemma_clean(s: EngineView, log: Seq<u8>, pos: int, p: Progress, now: Clock)
    requires
        0 <= pos <= log.len(),
        !p.truncated,
        p.good <= pos,
        replayed(s, log, pos, p, now).0 is Ok,
        replayed(s, log, pos, p, now).0->Ok_0.good != p.good,
    ensures
        clean(
            s,
            log,
            pos,
            p,
            now,
            replayed(s, log, pos, p, now).0->Ok_0,
            replayed(s, log, pos, p, now).1,
        ),
    decreases log.len() - pos,
{
    let (r, t) = replayed(s, log, pos, p, now);
    let f = r->Ok_0;
    let short = log.take(f.good);
    lemma_progress(s, log, pos, p, now);
    lemma_frame_end(log, pos);
    law_cut_frame(log, pos, f.good);
    match read_frame_at(log, pos) {
        Step::Short => {},
        Step::Bad { end } => {
            lemma_index_bounds(log, end, 42);
            let next = index_of_byte(log, end, 42);
            let q = Progress { skipped: p.skipped + 1, ..p };
            lemma_progress(s, log, next, q, now);
            assert(next < f.good);
            assert forall|i: int| end <= i < next implies short[i] != 42 by {
                assert(log[i] != 42);
            }
            lemma_index_is(short, end, 42, next);
            assert(replayed(s, short, pos, p, now) == replayed(s, short, next, q, now));
            lemma_clean(s, log, next, q, now);
        },
        Step::Done { value: parts, end } => {
            let (outcome, u) = apply_parts(s, parts, now);
            let q = if outcome == Outcome::Applied {
                Progress { applied: p.applied + 1, good: end, ..p }
            } else {
                Progress { skipped: p.skipped + 1, good: end, ..p }
            };
            assert(replayed(u, log, end, q, now) == (r, t));
            lemma_progress(u, log, end, q, now);
            assert(read_frame_at(short, pos) == (Step::Done { value: parts, end }));
            assert(replayed(s, short, pos, p, now) == replayed(u, short, end, q, now));
            if f.good == end {
                assert(short.len() == end);
                assert(replayed(u, short, end, q, now).1 == u);
            } else {
                lemma_clean(u, log, end, q, now);
            }
        },
    }
}

/// Cutting the tail off mends the log: a second replay, over the log cut at the
/// end of its last complete record, runs through cleanly, applies the same
/// records and ends in the same state.
pub proof fn law_truncated_log_replays_cleanly(s: EngineView, log: Seq<u8>, now: Clock)
    requires
        replay_of(s, log, now).0 is Ok,
    ensures
        ({
            let (r, t) = replay_of(s, log, now);
            let f = r->Ok_0;
            let (again, u) = replay_of(s, log.take(f.good), now);
            &&& 0 <= f.good <= log.len()
            &&& u == t
            &&& again matches Ok(g) && !g.truncated && g.applied == f.applied && g.good == f.good
        }),
{
    let p = Progress { applied: 0, skipped: 0, truncated: false, good: 0 };
    lemma_progress(s, log, 0, p, now);
    let f = records_replayed(s, log, now).0->Ok_0;
    if f.good != 0 {
        lemma_clean(s, log, 0, p, now);
    } else {
        assert(log.take(0).len() == 0);
    }
}

} // verus!
