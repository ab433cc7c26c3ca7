//! What the log says about the store.
//!
//! The content of a store is what survives a restart: each key's value and the
//! absolute time at which it expires. The laws here say that the records which
//! a command appends to the log tell what it changed: a log that said what the
//! store held before says with them what it holds after.

use vstd::prelude::*;

use crate::clock::Clock;
use crate::decimal::{dec_int, lemma_dec_int_len};
use crate::persistence::laws::{acceptable, all_acceptable};
use crate::persistence::record::{frames, lemma_frames_concat, lemma_frames_one, Record};
use crate::storage::engine::model::{
    deadline_of, epoch_of, first_error, key_error, pair_error, put_records, remaining_ms,
    EngineView, KEY_MAX_BYTES,
};
use crate::storage::engine::validity::{
    lemma_valid_read, lemma_valid_room, lemma_valid_without, lemma_victim_stored,
};
use crate::storage::entry::EntryView;

verus! {

/// A value with the absolute time of its expiry in milliseconds.
pub type Kept = (Seq<u8>, Option<int>);

/// Whole milliseconds from `now` to a deadline.
pub open spec fn ms_left(deadline: u128, now: Clock) -> int {
    (deadline - now.mono_ns) / 1_000_000
}

/// Whether an entry lasts for at least one more millisecond, the grain of the
/// log's times.
pub open spec fn lasting(e: EntryView, now: Clock) -> bool {
    match e.expire_at {
        Some(d) => ms_left(d, now) >= 1,
        None => true,
    }
}

/// An entry as the log tells it.
pub open spec fn kept(e: EntryView, now: Clock) -> Kept {
    (
        e.data,
        match e.expire_at {
            Some(d) => Some(now.epoch_ms + ms_left(d, now)),
            None => None,
        },
    )
}

/// The content of a store at `now`.
pub open spec fn content(store: Map<Seq<u8>, EntryView>, now: Clock) -> Map<Seq<u8>, Kept> {
    Map::new(
        |k: Seq<u8>| store.contains_key(k) && lasting(store[k], now),
        |k: Seq<u8>| kept(store[k], now),
    )
}

/// What is left of a content at a later time.
pub open spec fn at_time(c: Map<Seq<u8>, Kept>, m: Clock) -> Map<Seq<u8>, Kept> {
    Map::new(
        |k: Seq<u8>| c.contains_key(k) && !over(c[k], m),
        |k: Seq<u8>| c[k],
    )
}

/// Whether a value's time is over.
pub open spec fn over(v: Kept, m: Clock) -> bool {
    v.1 matches Some(e) && e <= m.epoch_ms
}

/// What a log says after one more record. A deadline counts even when it has
/// passed: a later record may move it or take it off.
pub open spec fn applied(c: Map<Seq<u8>, Kept>, r: Record) -> Map<Seq<u8>, Kept> {
    match r {
        Record::Put { key, value } => c.insert(key, (value, None)),
        Record::Del { key } => c.remove(key),
        Record::FlushDb => Map::empty(),
        Record::PExpireAt { key, at } => if c.contains_key(key) {
            c.insert(key, (c[key].0, Some(at as int)))
        } else {
            c
        },
        Record::Persist { key } => if c.contains_key(key) {
            c.insert(key, (c[key].0, None))
        } else {
            c
        },
    }
}

/// What a log says after several more records.
pub open spec fn applied_all(c: Map<Seq<u8>, Kept>, rs: Seq<Record>) -> Map<Seq<u8>, Kept>
    decreases rs.len(),
{
    if rs.len() == 0 {
        c
    } else {
        applied(applied_all(c, rs.drop_last()), rs.last())
    }
}

/// Whether a store holds a key that has not lapsed.
pub open spec fn alive(store: Map<Seq<u8>, EntryView>, k: Seq<u8>, now: Clock) -> bool {
    store.contains_key(k) && !store[k].expired(now.mono_ns as u128)
}

/// The live keys of a store, each with its value and its deadline.
pub open spec fn told(store: Map<Seq<u8>, EntryView>, now: Clock) -> Map<Seq<u8>, Kept> {
    Map::new(|k: Seq<u8>| alive(store, k, now), |k: Seq<u8>| kept(store[k], now))
}

/// Whether a log says what a store holds: every live key with its value and its
/// deadline. The log may name other keys too, but their time is over.
pub open spec fn says(
    c: Map<Seq<u8>, Kept>,
    store: Map<Seq<u8>, EntryView>,
    now: Clock,
) -> bool {
    &&& forall|k: Seq<u8>| #[trigger]
        alive(store, k, now) ==> c.contains_key(k) && c[k] == kept(store[k], now)
    &&& forall|k: Seq<u8>| #[trigger]
        c.contains_key(k) && !alive(store, k, now) ==> over(c[k], now)
}

/// Whether records tell a change of the store: a log that says what the store
/// held says with them what it holds now.
pub open spec fn tells(
    before: Map<Seq<u8>, EntryView>,
    after: Map<Seq<u8>, EntryView>,
    rs: Seq<Record>,
    now: Clock,
) -> bool {
    forall|c: Map<Seq<u8>, Kept>| #[trigger]
        says(c, before, now) ==> says(applied_all(c, rs), after, now)
}

/// Where there is a deadline, the clock does not stand before the epoch and the
/// deadline does not lie beyond the times that a record can hold.
pub open spec fn in_calendar(store: Map<Seq<u8>, EntryView>, now: Clock) -> bool {
    forall|k: Seq<u8>| #[trigger]
        store.contains_key(k) ==> match store[k].expire_at {
            Some(d) => now.epoch_ms >= 0 && now.epoch_ms + ms_left(d, now) <= i64::MAX,
            None => true,
        }
}

/// The log kept pace with the store: what was appended are records that a
/// replay accepts, and they tell the change. An engine without a log stays
/// without one.
pub open spec fn keeps_pace(s: EngineView, t: EngineView, now: Clock) -> bool {
    match (s.log, t.log) {
        (Some(a), Some(b)) => exists|rs: Seq<Record>|
            b.pending == a.pending + #[trigger] frames(rs) && all_acceptable(rs) && tells(
                s.store,
                t.store,
                rs,
                now,
            ),
        (None, None) => true,
        _ => false,
    }
}

/// Whether none of the records speaks of a deadline.
pub open spec fn untimed(rs: Seq<Record>) -> bool {
    forall|i: int|
        0 <= i < rs.len() ==> !(#[trigger] rs[i] is PExpireAt) && !(rs[i] is Persist)
}

/// The log kept pace with the store, and without a word of deadlines.
pub open spec fn keeps_pace_untimed(s: EngineView, t: EngineView, now: Clock) -> bool {
    match (s.log, t.log) {
        (Some(a), Some(b)) => exists|rs: Seq<Record>|
            b.pending == a.pending + #[trigger] frames(rs) && all_acceptable(rs) && untimed(rs)
                && tells(s.store, t.store, rs, now),
        (None, None) => true,
        _ => false,
    }
}

pub proof fn lemma_applied_concat(c: Map<Seq<u8>, Kept>, a: Seq<Record>, b: Seq<Record>)
    ensures
        applied_all(c, a + b) == applied_all(applied_all(c, a), b),
    decreases b.len(),
{
    if b.len() == 0 {
        assert(a + b =~= a);
    } else {
        lemma_applied_concat(c, a, b.drop_last());
        assert((a + b).drop_last() =~= a + b.drop_last());
        assert((a + b).last() == b.last());
    }
}

pub proof fn lemma_applied_one(c: Map<Seq<u8>, Kept>, r: Record)
    ensures
        applied_all(c, seq![r]) == applied(c, r),
{
    assert(seq![r].drop_last() =~= Seq::<Record>::empty());
    assert(applied_all(c, seq![r].drop_last()) == c);
}

/// Two changes, one after the other.
proof fn lemma_tells_trans(
    a: Map<Seq<u8>, EntryView>,
    b: Map<Seq<u8>, EntryView>,
    c: Map<Seq<u8>, EntryView>,
    x: Seq<Record>,
    y: Seq<Record>,
    now: Clock,
)
    requires
        tells(a, b, x, now),
        tells(b, c, y, now),
    ensures
        tells(a, c, x + y, now),
{
    assert forall|l: Map<Seq<u8>, Kept>| #[trigger] says(l, a, now) implies says(
        applied_all(l, x + y),
        c,
        now,
    ) by {
        lemma_applied_concat(l, x, y);
        assert(says(applied_all(l, x), b, now));
    }
}

/// No record is needed where the live keys stay, with their values and deadlines.
proof fn lemma_tells_nothing(
    before: Map<Seq<u8>, EntryView>,
    after: Map<Seq<u8>, EntryView>,
    now: Clock,
)
    requires
        forall|k: Seq<u8>| #[trigger] alive(after, k, now) == alive(before, k, now),
        forall|k: Seq<u8>| #[trigger]
            alive(after, k, now) ==> kept(after[k], now) == kept(before[k], now),
    ensures
        tells(before, after, Seq::empty(), now),
{
    assert forall|l: Map<Seq<u8>, Kept>| #[trigger] says(l, before, now) implies says(
        applied_all(l, Seq::empty()),
        after,
        now,
    ) by {
        assert forall|k: Seq<u8>| #[trigger] alive(after, k, now) implies l.contains_key(k) && l[k]
            == kept(after[k], now) by {
            assert(alive(before, k, now));
        }
        assert forall|k: Seq<u8>| #[trigger]
            l.contains_key(k) && !alive(after, k, now) implies over(l[k], now) by {
            assert(!alive(before, k, now));
        }
    }
}

/// A value written without a deadline.
proof fn lemma_tells_put(
    store: Map<Seq<u8>, EntryView>,
    key: Seq<u8>,
    e: EntryView,
    now: Clock,
)
    requires
        e.expire_at is None,
    ensures
        tells(store, store.insert(key, e), seq![Record::Put { key, value: e.data }], now),
{
    let r = Record::Put { key, value: e.data };
    let after = store.insert(key, e);
    assert forall|l: Map<Seq<u8>, Kept>| #[trigger] says(l, store, now) implies says(
        applied_all(l, seq![r]),
        after,
        now,
    ) by {
        lemma_applied_one(l, r);
        let m = applied(l, r);
        assert forall|k: Seq<u8>| #[trigger] alive(after, k, now) implies m.contains_key(k) && m[k]
            == kept(after[k], now) by {
            assert(k != key ==> alive(store, k, now));
        }
        assert forall|k: Seq<u8>| #[trigger]
            m.contains_key(k) && !alive(after, k, now) implies over(m[k], now) by {
            assert(k != key ==> l.contains_key(k) && !alive(store, k, now));
        }
    }
}

/// A key removed.
proof fn lemma_tells_del(
    store: Map<Seq<u8>, EntryView>,
    key: Seq<u8>,
    now: Clock,
)
    ensures
        tells(store, store.remove(key), seq![Record::Del { key }], now),
{
    let r = Record::Del { key };
    let after = store.remove(key);
    assert forall|l: Map<Seq<u8>, Kept>| #[trigger] says(l, store, now) implies says(
        applied_all(l, seq![r]),
        after,
        now,
    ) by {
        lemma_applied_one(l, r);
        let m = applied(l, r);
        assert forall|k: Seq<u8>| #[trigger] alive(after, k, now) implies m.contains_key(k) && m[k]
            == kept(after[k], now) by {
            assert(k != key ==> alive(store, k, now));
        }
        assert forall|k: Seq<u8>| #[trigger]
            m.contains_key(k) && !alive(after, k, now) implies over(m[k], now) by {
            assert(k != key ==> l.contains_key(k) && !alive(store, k, now));
        }
    }
}

/// A deadline set or taken off a live key, and nothing else that the log knows of.
proof fn lemma_tells_deadline(
    store: Map<Seq<u8>, EntryView>,
    key: Seq<u8>,
    e: EntryView,
    r: Record,
    now: Clock,
)
    requires
        alive(store, key, now),
        e.data == store[key].data,
        match r {
            Record::PExpireAt { key: k, at } => k == key && kept(e, now).1 == Some(at as int),
            Record::Persist { key: k } => k == key && e.expire_at is None,
            _ => false,
        },
    ensures
        tells(store, store.insert(key, e), seq![r], now),
{
    let after = store.insert(key, e);
    assert forall|l: Map<Seq<u8>, Kept>| #[trigger] says(l, store, now) implies says(
        applied_all(l, seq![r]),
        after,
        now,
    ) by {
        lemma_applied_one(l, r);
        let m = applied(l, r);
        assert forall|k: Seq<u8>| #[trigger] alive(after, k, now) implies m.contains_key(k) && m[k]
            == kept(after[k], now) by {
            assert(k != key ==> alive(store, k, now));
        }
        assert forall|k: Seq<u8>| #[trigger]
            m.contains_key(k) && !alive(after, k, now) implies over(m[k], now) by {
            assert(k != key ==> l.contains_key(k) && !alive(store, k, now));
        }
    }
}

/// Keeping pace is transitive.
pub proof fn lemma_pace_trans(s: EngineView, t: EngineView, u: EngineView, now: Clock)
    requires
        keeps_pace(s, t, now),
        keeps_pace(t, u, now),
    ensures
        keeps_pace(s, u, now),
        keeps_pace_untimed(s, t, now) && keeps_pace_untimed(t, u, now) ==> keeps_pace_untimed(
            s,
            u,
            now,
        ),
{
    if keeps_pace_untimed(s, t, now) && keeps_pace_untimed(t, u, now) {
        lemma_pace_trans_untimed(s, t, u, now);
    }
    match (s.log, t.log, u.log) {
        (Some(a), Some(b), Some(c)) => {
            let x = choose|rs: Seq<Record>|
                b.pending == a.pending + #[trigger] frames(rs) && all_acceptable(rs) && tells(
                    s.store,
                    t.store,
                    rs,
                    now,
                );
            let y = choose|rs: Seq<Record>|
                c.pending == b.pending + #[trigger] frames(rs) && all_acceptable(rs) && tells(
                    t.store,
                    u.store,
                    rs,
                    now,
                );
            lemma_frames_concat(x, y);
            lemma_tells_trans(s.store, t.store, u.store, x, y, now);
            assert(c.pending =~= a.pending + frames(x + y));
        },
        _ => {},
    }
}

proof fn lemma_pace_trans_untimed(s: EngineView, t: EngineView, u: EngineView, now: Clock)
    requires
        keeps_pace_untimed(s, t, now),
        keeps_pace_untimed(t, u, now),
    ensures
        keeps_pace_untimed(s, u, now),
{
    match (s.log, t.log, u.log) {
        (Some(a), Some(b), Some(c)) => {
            let x = choose|rs: Seq<Record>|
                b.pending == a.pending + #[trigger] frames(rs) && all_acceptable(rs) && untimed(rs)
                    && tells(s.store, t.store, rs, now);
            let y = choose|rs: Seq<Record>|
                c.pending == b.pending + #[trigger] frames(rs) && all_acceptable(rs) && untimed(rs)
                    && tells(t.store, u.store, rs, now);
            lemma_frames_concat(x, y);
            lemma_tells_trans(s.store, t.store, u.store, x, y, now);
            assert(c.pending =~= a.pending + frames(x + y));
            assert(all_acceptable(x + y));
            assert(untimed(x + y));
        },
        _ => {},
    }
}

/// A change that the log need not hear of: the live keys stay, with their values
/// and deadlines.
pub proof fn lemma_pace_silent(s: EngineView, t: EngineView, now: Clock)
    requires
        s.log == t.log,
        forall|k: Seq<u8>| #[trigger] alive(t.store, k, now) == alive(s.store, k, now),
        forall|k: Seq<u8>| #[trigger]
            alive(t.store, k, now) ==> kept(t.store[k], now) == kept(s.store[k], now),
    ensures
        keeps_pace(s, t, now),
        keeps_pace_untimed(s, t, now),
{
    let none = Seq::<Record>::empty();
    assert(frames(none) =~= Seq::<u8>::empty());
    lemma_tells_nothing(s.store, t.store, now);
    if let Some(a) = s.log {
        assert(a.pending =~= a.pending + frames(none));
    }
}

/// A change with its record.
proof fn lemma_pace_record(s: EngineView, t: EngineView, r: Record, now: Clock)
    requires
        t.log == s.logged(r).log,
        tells(s.store, t.store, seq![r], now),
        acceptable(r),
    ensures
        keeps_pace(s, t, now),
        untimed(seq![r]) ==> keeps_pace_untimed(s, t, now),
{
    lemma_frames_one(r);
    if let Some(a) = s.log {
        assert(all_acceptable(seq![r]));
        assert(t.log->0.pending == a.pending + frames(seq![r]));
    }
}

/// Dropping a key, with its record.
proof fn lemma_pace_dropped(s: EngineView, key: Seq<u8>, now: Clock)
    requires
        key.len() <= KEY_MAX_BYTES,
    ensures
        keeps_pace(s, s.dropped(key), now),
        keeps_pace_untimed(s, s.dropped(key), now),
{
    lemma_tells_del(s.store, key, now);
    lemma_pace_record(s, s.dropped(key), Record::Del { key }, now);
}

/// Forgetting a key that is not live needs no record.
proof fn lemma_pace_forgotten(s: EngineView, key: Seq<u8>, now: Clock)
    requires
        !s.live(key, now),
    ensures
        keeps_pace(s, s.forgotten(key), now),
        keeps_pace_untimed(s, s.forgotten(key), now),
{
    lemma_pace_silent(s, s.forgotten(key), now);
}

proof fn lemma_pace_purged(s: EngineView, key: Seq<u8>, now: Clock)
    requires
        s.wf(),
    ensures
        keeps_pace(s, s.purged(key, now), now),
        keeps_pace_untimed(s, s.purged(key, now), now),
{
    if s.lapsed(key, now) {
        lemma_pace_dropped(s, key, now);
    } else {
        lemma_pace_silent(s, s, now);
    }
}

proof fn lemma_pace_written(s: EngineView, key: Seq<u8>, value: Seq<u8>, now: Clock)
    requires
        pair_error(key, value) is None,
    ensures
        keeps_pace(s, s.written(key, value, now), now),
        keeps_pace_untimed(s, s.written(key, value, now), now),
{
    lemma_tells_put(s.store, key, EntryView::fresh(value, None, now), now);
    lemma_pace_record(s, s.written(key, value, now), Record::Put { key, value }, now);
}

/// Evictions are logged: an eviction run keeps pace.
pub proof fn law_eviction_is_logged(s: EngineView, incoming: int, now: Clock, rounds: nat)
    requires
        s.wf(),
    ensures
        keeps_pace(s, s.made_room(incoming, now, rounds).1, now),
        keeps_pace_untimed(s, s.made_room(incoming, now, rounds).1, now),
    decreases rounds,
{
    if s.fits(incoming) || rounds == 0 {
        lemma_pace_silent(s, s, now);
    } else {
        let (victim, asked) = s.victim(now);
        lemma_victim_stored(s, now);
        lemma_pace_silent(s, asked, now);
        if let Some(key) = victim {
            let t = asked.dropped(key);
            lemma_valid_without(asked, key);
            lemma_pace_dropped(asked, key, now);
            lemma_pace_trans(s, asked, t, now);
            law_eviction_is_logged(t, incoming, now, (rounds - 1) as nat);
            lemma_pace_trans(s, t, t.made_room(incoming, now, (rounds - 1) as nat).1, now);
        }
    }
}

/// A read changes nothing that the log need hear of, but for a lapsed key whose
/// removal it logs.
pub proof fn law_get_is_logged(s: EngineView, key: Seq<u8>, now: Clock)
    requires
        s.wf(),
    ensures
        keeps_pace(s, s.fetched(key, now).1, now),
        keeps_pace(s, s.tested(key, now).1, now),
        keeps_pace(s, s.purged(key, now), now),
        s.log is Some && !s.lapsed(key, now) ==> s.fetched(key, now).1.log == s.log && s.tested(
            key,
            now,
        ).1.log == s.log,
{
    let f = s.fetched(key, now).1;
    let t = s.tested(key, now).1;
    lemma_pace_purged(s, key, now);
    if s.live(key, now) {
        lemma_pace_silent(s, f, now);
        lemma_pace_silent(s, t, now);
    } else {
        let p = s.purged(key, now);
        lemma_pace_silent(p, p.missed(), now);
        lemma_pace_trans(s, p, p.missed(), now);
    }
}

proof fn lemma_valid_reads(s: EngineView, keys: Seq<Seq<u8>>, now: Clock)
    requires
        s.wf(),
    ensures
        s.mget(keys, now).1.wf(),
        s.exists_many(keys, now).1.wf(),
    decreases keys.len(),
{
    if keys.len() > 0 {
        lemma_valid_reads(s, keys.drop_last(), now);
        lemma_valid_read(s.mget(keys.drop_last(), now).1, keys.last(), now);
        lemma_valid_read(s.exists_many(keys.drop_last(), now).1, keys.last(), now);
    }
}

/// `MGET` and `EXISTS` of several keys keep the log in step.
pub proof fn law_multi_read_is_logged(s: EngineView, keys: Seq<Seq<u8>>, now: Clock)
    requires
        s.wf(),
    ensures
        keeps_pace(s, s.mget(keys, now).1, now),
        keeps_pace(s, s.exists_many(keys, now).1, now),
    decreases keys.len(),
{
    if keys.len() == 0 {
        lemma_pace_silent(s, s, now);
    } else {
        law_multi_read_is_logged(s, keys.drop_last(), now);
        lemma_valid_reads(s, keys.drop_last(), now);
        let m = s.mget(keys.drop_last(), now).1;
        law_get_is_logged(m, keys.last(), now);
        lemma_pace_trans(s, m, s.mget(keys, now).1, now);
        let e = s.exists_many(keys.drop_last(), now).1;
        law_get_is_logged(e, keys.last(), now);
        lemma_pace_trans(s, e, s.exists_many(keys, now).1, now);
    }
}

/// `SET` keeps the log in step, whether it succeeds or not.
pub proof fn law_set_is_logged(s: EngineView, key: Seq<u8>, value: Seq<u8>, now: Clock)
    requires
        s.wf(),
    ensures
        keeps_pace(s, s.set(key, value, now).1, now),
        keeps_pace_untimed(s, s.set(key, value, now).1, now),
{
    if pair_error(key, value) is Some {
        lemma_pace_silent(s, s, now);
    } else {
        let (room, t) = s.admitted(key, value.len(), now);
        law_eviction_is_logged(s, s.growth(key, value.len()), now, s.rounds());
        if room {
            lemma_pace_written(t, key, value, now);
            lemma_pace_trans(s, t, t.written(key, value, now), now);
        }
    }
}

/// `SETNX` keeps the log in step.
pub proof fn law_set_nx_is_logged(s: EngineView, key: Seq<u8>, value: Seq<u8>, now: Clock)
    requires
        s.wf(),
    ensures
        keeps_pace(s, s.set_nx(key, value, now).1, now),
        keeps_pace_untimed(s, s.set_nx(key, value, now).1, now),
{
    if pair_error(key, value) is Some || s.live(key, now) {
        lemma_pace_silent(s, s, now);
    } else {
        let c = if s.lapsed(key, now) {
            s.forgotten(key)
        } else {
            s
        };
        lemma_valid_without(s, key);
        if s.lapsed(key, now) {
            lemma_pace_forgotten(s, key, now);
        } else {
            lemma_pace_silent(s, s, now);
        }
        let (room, t) = c.admitted(key, value.len(), now);
        law_eviction_is_logged(c, c.growth(key, value.len()), now, c.rounds());
        lemma_pace_trans(s, c, t, now);
        if room {
            lemma_pace_written(t, key, value, now);
            lemma_pace_trans(s, t, t.written(key, value, now), now);
        }
    }
}

proof fn lemma_pace_admitted_all(s: EngineView, pairs: Seq<(Seq<u8>, Seq<u8>)>, now: Clock)
    requires
        s.wf(),
    ensures
        keeps_pace(s, s.admitted_all(pairs, now).1, now),
        keeps_pace_untimed(s, s.admitted_all(pairs, now).1, now),
    decreases pairs.len(),
{
    if pairs.len() == 0 {
        lemma_pace_silent(s, s, now);
    } else {
        let (room, t) = s.admitted(pairs[0].0, pairs[0].1.len(), now);
        law_eviction_is_logged(s, s.growth(pairs[0].0, pairs[0].1.len()), now, s.rounds());
        lemma_valid_room(s, s.growth(pairs[0].0, pairs[0].1.len()), now, s.rounds());
        if room {
            lemma_pace_admitted_all(t, pairs.skip(1), now);
            lemma_pace_trans(s, t, t.admitted_all(pairs.skip(1), now).1, now);
        }
    }
}

proof fn lemma_stored_all(s: EngineView, pairs: Seq<(Seq<u8>, Seq<u8>)>, now: Clock)
    ensures
        s.stored_all(pairs, now).log == s.log,
        tells(s.store, s.stored_all(pairs, now).store, put_records(pairs), now),
    decreases pairs.len(),
{
    let rs = put_records(pairs);
    if pairs.len() == 0 {
        assert(rs =~= Seq::<Record>::empty());
        lemma_tells_nothing(s.store, s.store, now);
    } else {
        let e = EntryView::fresh(pairs[0].1, None, now);
        let t = s.stored(pairs[0].0, e);
        let first = Record::Put { key: pairs[0].0, value: pairs[0].1 };
        let rest = put_records(pairs.skip(1));
        lemma_tells_put(s.store, pairs[0].0, e, now);
        lemma_stored_all(t, pairs.skip(1), now);
        assert(rs =~= seq![first] + rest);
        lemma_tells_trans(
            s.store,
            t.store,
            s.stored_all(pairs, now).store,
            seq![first],
            rest,
            now,
        );
    }
}

proof fn lemma_pairs_acceptable(pairs: Seq<(Seq<u8>, Seq<u8>)>)
    requires
        first_error(pairs) is None,
    ensures
        all_acceptable(put_records(pairs)),
    decreases pairs.len(),
{
    if pairs.len() > 0 {
        lemma_pairs_acceptable(pairs.drop_last());
        assert(put_records(pairs) =~= put_records(pairs.drop_last()).push(
            Record::Put { key: pairs.last().0, value: pairs.last().1 },
        ));
    }
}

/// `MSET` keeps the log in step.
pub proof fn law_mset_is_logged(s: EngineView, pairs: Seq<(Seq<u8>, Seq<u8>)>, now: Clock)
    requires
        s.wf(),
    ensures
        keeps_pace(s, s.mset(pairs, now).1, now),
        keeps_pace_untimed(s, s.mset(pairs, now).1, now),
{
    if first_error(pairs) is Some {
        lemma_pace_silent(s, s, now);
    } else {
        let (room, t) = s.admitted_all(pairs, now);
        lemma_pace_admitted_all(s, pairs, now);
        if room {
            let rs = put_records(pairs);
            let l = t.logged_batch(rs);
            let u = l.stored_all(pairs, now);
            lemma_stored_all(l, pairs, now);
            lemma_pairs_acceptable(pairs);
            assert(l.store == t.store);
            if let Some(a) = t.log {
                if rs.len() == 0 {
                    assert(frames(rs) =~= Seq::<u8>::empty());
                    assert(a.pending =~= a.pending + frames(rs));
                }
                assert(u.log->0.pending == a.pending + frames(rs));
            }
            assert(keeps_pace(t, u, now));
            lemma_pace_trans(s, t, u, now);
        }
    }
}

pub proof fn lemma_epoch_of(d: u128, now: Clock)
    requires
        d > now.mono_ns,
        now.epoch_ms >= 0,
        now.epoch_ms + ms_left(d, now) <= i64::MAX,
    ensures
        epoch_of(d, now) == now.epoch_ms + ms_left(d, now),
{
    assert(((d - now.mono_ns) as u128) / 1_000_000 == ms_left(d, now));
    assert(remaining_ms(d, now) == ms_left(d, now));
}

/// Writing with a kept deadline: a value record, then the deadline's.
proof fn lemma_pace_rewritten(
    s: EngineView,
    key: Seq<u8>,
    value: Seq<u8>,
    deadline: Option<u128>,
    now: Clock,
)
    requires
        pair_error(key, value) is None,
        deadline matches Some(d) ==> d > now.mono_ns && now.epoch_ms >= 0 && now.epoch_ms + ms_left(
            d,
            now,
        ) <= i64::MAX,
    ensures
        keeps_pace(s, s.rewritten(key, value, deadline, now), now),
        deadline is None ==> keeps_pace_untimed(
            s,
            s.rewritten(key, value, deadline, now),
            now,
        ),
{
    let e = EntryView::fresh(value, deadline, now);
    let t = s.rewritten(key, value, deadline, now);
    let w = s.written(key, value, now);
    lemma_pace_written(s, key, value, now);
    match deadline {
        Some(d) => {
            lemma_epoch_of(d, now);
            let r = Record::PExpireAt { key, at: epoch_of(d, now) };
            lemma_tells_deadline(w.store, key, e, r, now);
            assert(w.store.insert(key, e) =~= t.store);
            lemma_pace_record(w, t, r, now);
            lemma_pace_trans(s, w, t, now);
        },
        None => {
            lemma_pace_silent(w, t, now);
            lemma_pace_trans(s, w, t, now);
        },
    }
}

proof fn lemma_pace_set_keep_ttl(
    s: EngineView,
    key: Seq<u8>,
    value: Seq<u8>,
    deadline: Option<u128>,
    now: Clock,
)
    requires
        s.wf(),
        pair_error(key, value) is None,
        deadline matches Some(d) ==> d > now.mono_ns && now.epoch_ms >= 0 && now.epoch_ms + ms_left(
            d,
            now,
        ) <= i64::MAX,
    ensures
        keeps_pace(s, s.set_keep_ttl(key, value, deadline, now).1, now),
        deadline is None ==> keeps_pace_untimed(
            s,
            s.set_keep_ttl(key, value, deadline, now).1,
            now,
        ),
{
    let (room, t) = s.admitted(key, value.len(), now);
    law_eviction_is_logged(s, s.growth(key, value.len()), now, s.rounds());
    if room {
        lemma_pace_rewritten(t, key, value, deadline, now);
        lemma_pace_trans(s, t, t.rewritten(key, value, deadline, now), now);
    }
}

/// `INCRBY` keeps the log in step, the kept deadline included.
pub proof fn law_incr_by_is_logged(s: EngineView, key: Seq<u8>, delta: i64, now: Clock)
    requires
        s.wf(),
        in_calendar(s.store, now),
    ensures
        keeps_pace(s, s.incr_by(key, delta, now).1, now),
        (s.store.contains_key(key) ==> s.store[key].expire_at is None) ==> keeps_pace_untimed(
            s,
            s.incr_by(key, delta, now).1,
            now,
        ),
{
    let p = s.purged(key, now);
    let after = s.incr_by(key, delta, now).1;
    lemma_pace_purged(s, key, now);
    lemma_valid_read(s, key, now);
    if key_error(key) is Some {
        lemma_pace_silent(s, s, now);
    } else {
        let deadline = match s.peeked(key, now) {
            Some(h) => h.1,
            None => None,
        };
        if after != p {
            let current = match s.peeked(key, now) {
                Some(h) => crate::decimal::text_to_i64(h.0)->0,
                None => 0,
            };
            lemma_dec_int_len((current + delta) as i64);
            lemma_pace_set_keep_ttl(p, key, dec_int(current + delta), deadline, now);
            lemma_pace_trans(s, p, after, now);
        }
    }
}

/// `APPEND` keeps the log in step, the kept deadline included.
pub proof fn law_append_is_logged(s: EngineView, key: Seq<u8>, suffix: Seq<u8>, now: Clock)
    requires
        s.wf(),
        in_calendar(s.store, now),
    ensures
        keeps_pace(s, s.append(key, suffix, now).1, now),
        (s.store.contains_key(key) ==> s.store[key].expire_at is None) ==> keeps_pace_untimed(
            s,
            s.append(key, suffix, now).1,
            now,
        ),
{
    let p = s.purged(key, now);
    let after = s.append(key, suffix, now).1;
    lemma_pace_purged(s, key, now);
    lemma_valid_read(s, key, now);
    if key_error(key) is Some {
        lemma_pace_silent(s, s, now);
    } else {
        let deadline = match s.peeked(key, now) {
            Some(h) => h.1,
            None => None,
        };
        let value = match s.peeked(key, now) {
            Some(h) => h.0 + suffix,
            None => suffix,
        };
        if after != p {
            lemma_pace_set_keep_ttl(p, key, value, deadline, now);
            lemma_pace_trans(s, p, after, now);
        }
    }
}

/// `DEL` of one key keeps the log in step.
pub proof fn law_del_is_logged(s: EngineView, key: Seq<u8>, now: Clock)
    requires
        s.wf(),
    ensures
        keeps_pace(s, s.deleted(key, now), now),
        keeps_pace_untimed(s, s.deleted(key, now), now),
{
    if s.live(key, now) {
        lemma_pace_dropped(s, key, now);
    } else {
        lemma_pace_forgotten(s, key, now);
    }
}

/// The removal records of several keys.
pub open spec fn del_records(keys: Seq<Seq<u8>>) -> Seq<Record> {
    keys.map_values(|k: Seq<u8>| Record::Del { key: k })
}

proof fn lemma_forgotten_all(s: EngineView, keys: Seq<Seq<u8>>, now: Clock)
    ensures
        s.forgotten_all(keys).log == s.log,
        tells(s.store, s.forgotten_all(keys).store, del_records(s.live_ones(keys, now)), now),
    decreases keys.len(),
{
    let after = del_records(s.live_ones(keys, now));
    if keys.len() == 0 {
        assert(after =~= Seq::<Record>::empty());
        lemma_tells_nothing(s.store, s.store, now);
    } else {
        let front = keys.drop_last();
        let f = s.forgotten_all(front);
        let last = keys.last();
        let t = f.forgotten(last);
        let before = del_records(s.live_ones(front, now));
        let none = Seq::<Record>::empty();
        lemma_forgotten_all(s, front, now);
        if f.live(last, now) {
            let r = Record::Del { key: last };
            lemma_tells_del(f.store, last, now);
            lemma_tells_trans(s.store, f.store, t.store, before, seq![r], now);
            assert(after =~= before + seq![r]);
        } else {
            lemma_tells_nothing(f.store, t.store, now);
            lemma_tells_trans(s.store, f.store, t.store, before, none, now);
            assert(after =~= before + none);
        }
    }
}

pub proof fn lemma_logged_dels(s: EngineView, keys: Seq<Seq<u8>>)
    ensures
        s.logged_dels(keys).store == s.store,
        match (s.log, s.logged_dels(keys).log) {
            (Some(a), Some(b)) => b.pending == a.pending + frames(del_records(keys)),
            (None, None) => true,
            _ => false,
        },
    decreases keys.len(),
{
    if keys.len() == 0 {
        assert(del_records(keys) =~= Seq::<Record>::empty());
        assert(frames(del_records(keys)) =~= Seq::<u8>::empty());
        if let Some(a) = s.log {
            assert(a.pending =~= a.pending + frames(del_records(keys)));
        }
    } else {
        lemma_logged_dels(s, keys.drop_last());
        let rs = del_records(keys);
        assert(rs.drop_last() =~= del_records(keys.drop_last()));
        if let Some(a) = s.log {
            assert(s.logged_dels(keys).log->0.pending =~= a.pending + frames(rs));
        }
    }
}

proof fn lemma_live_ones_acceptable(s: EngineView, keys: Seq<Seq<u8>>, now: Clock)
    requires
        s.wf(),
    ensures
        all_acceptable(del_records(s.live_ones(keys, now))),
        forall|k: Seq<u8>| #[trigger]
            s.forgotten_all(keys).store.contains_key(k) ==> s.store.contains_key(k),
    decreases keys.len(),
{
    if keys.len() > 0 {
        lemma_live_ones_acceptable(s, keys.drop_last(), now);
        let before = del_records(s.live_ones(keys.drop_last(), now));
        let after = del_records(s.live_ones(keys, now));
        if s.forgotten_all(keys.drop_last()).live(keys.last(), now) {
            assert(s.store.contains_key(keys.last()));
            assert(after =~= before.push(Record::Del { key: keys.last() }));
        } else {
            assert(after =~= before);
        }
    }
}

/// `DEL` of several keys keeps the log in step.
pub proof fn law_del_many_is_logged(s: EngineView, keys: Seq<Seq<u8>>, now: Clock)
    requires
        s.wf(),
    ensures
        keeps_pace(s, s.del_many(keys, now).1, now),
        keeps_pace_untimed(s, s.del_many(keys, now).1, now),
{
    let removed = s.live_ones(keys, now);
    lemma_forgotten_all(s, keys, now);
    lemma_logged_dels(s.forgotten_all(keys), removed);
    lemma_live_ones_acceptable(s, keys, now);
    if let Some(a) = s.log {
        assert(s.del_many(keys, now).1.log->0.pending == a.pending + frames(del_records(removed)));
    }
}

/// `PEXPIREAT` keeps the log in step.
pub proof fn law_expire_at_is_logged(s: EngineView, key: Seq<u8>, abs_epoch_ms: i64, now: Clock)
    requires
        s.wf(),
    ensures
        keeps_pace(s, s.expire_at(key, abs_epoch_ms, now).1, now),
{
    let t = s.expire_at(key, abs_epoch_ms, now).1;
    if !s.live(key, now) {
        lemma_pace_purged(s, key, now);
    } else if abs_epoch_ms <= now.epoch_ms {
        lemma_pace_dropped(s, key, now);
    } else {
        let d = deadline_of(abs_epoch_ms, now);
        let e = EntryView { expire_at: Some(d), ..s.store[key] };
        let r = Record::PExpireAt { key, at: abs_epoch_ms };
        assert(d == now.mono_ns + (abs_epoch_ms - now.epoch_ms) * 1_000_000);
        assert(ms_left(d, now) == abs_epoch_ms - now.epoch_ms);
        lemma_tells_deadline(s.store, key, e, r, now);
        lemma_pace_record(s, t, r, now);
    }
}

/// `PERSIST` keeps the log in step.
pub proof fn law_persist_is_logged(s: EngineView, key: Seq<u8>, now: Clock)
    requires
        s.wf(),
    ensures
        keeps_pace(s, s.persist(key, now).1, now),
{
    let t = s.persist(key, now).1;
    if s.live(key, now) && s.store[key].expire_at is Some {
        let e = EntryView { expire_at: None, ..s.store[key] };
        let r = Record::Persist { key };
        lemma_tells_deadline(s.store, key, e, r, now);
        lemma_pace_record(s, t, r, now);
    } else {
        lemma_pace_purged(s, key, now);
    }
}

/// `FLUSHDB` keeps the log in step.
pub proof fn law_flushdb_is_logged(s: EngineView, now: Clock)
    ensures
        keeps_pace(s, s.cleared(), now),
        keeps_pace_untimed(s, s.cleared(), now),
{
    let r = Record::FlushDb;
    assert forall|l: Map<Seq<u8>, Kept>| #[trigger] says(l, s.store, now) implies says(
        applied_all(l, seq![r]),
        s.cleared().store,
        now,
    ) by {
        lemma_applied_one(l, r);
    }
    lemma_pace_record(s, s.cleared(), r, now);
}

/// `MEMORY USAGE` keeps the log in step.
pub proof fn law_memory_usage_is_logged(s: EngineView, key: Seq<u8>, now: Clock)
    requires
        s.wf(),
    ensures
        keeps_pace(s, s.measured(key, now).1, now),
{
    let t = s.measured(key, now).1;
    if s.lapsed(key, now) {
        lemma_tells_del(s.store, key, now);
        lemma_pace_record(s, t, Record::Del { key }, now);
    } else {
        lemma_pace_silent(s, s, now);
    }
}

proof fn lemma_pace_dropped_all(s: EngineView, keys: Seq<Seq<u8>>, now: Clock)
    requires
        forall|i: int| 0 <= i < keys.len() ==> (#[trigger] keys[i]).len() <= KEY_MAX_BYTES,
    ensures
        keeps_pace(s, s.dropped_all(keys), now),
    decreases keys.len(),
{
    if keys.len() == 0 {
        lemma_pace_silent(s, s, now);
    } else {
        let f = s.dropped_all(keys.drop_last());
        assert forall|i: int| 0 <= i < keys.drop_last().len() implies (
        #[trigger] keys.drop_last()[i]).len() <= KEY_MAX_BYTES by {
            assert(keys.drop_last()[i] == keys[i]);
        }
        lemma_pace_dropped_all(s, keys.drop_last(), now);
        lemma_pace_dropped(f, keys.last(), now);
        lemma_pace_trans(s, f, s.dropped_all(keys), now);
    }
}

/// Active expiry keeps the log in step.
pub proof fn law_sweep_is_logged(s: EngineView, sample: int, now: Clock)
    requires
        s.wf(),
    ensures
        keeps_pace(s, s.swept(sample, now), now),
{
    let gone = s.swept_keys(sample).filter(|k: Seq<u8>| s.lapsed(k, now));
    lemma_pace_silent(s, s.drawn(), now);
    assert forall|i: int| 0 <= i < gone.len() implies (#[trigger] gone[i]).len()
        <= KEY_MAX_BYTES by {
        s.swept_keys(sample).lemma_filter_pred(|k: Seq<u8>| s.lapsed(k, now), i);
        assert(s.store.contains_key(gone[i]));
    }
    lemma_pace_dropped_all(s.drawn(), gone, now);
    lemma_pace_trans(s, s.drawn(), s.swept(sample, now), now);
}

} // verus!
