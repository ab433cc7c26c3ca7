//! Rewriting the log.
//!
//! A rewrite replaces the log by a compact one: one `SET` for each live key,
//! followed by a `PEXPIREAT` where the key has a deadline.

use vstd::prelude::*;

use crate::bytes::{copied, push_all};
use crate::clock::Clock;
use crate::decimal::format_i64;
use crate::error::{ErrorView, FerrumError};
use crate::persistence::history::lemma_replay_from_empty;
use crate::persistence::laws::{acceptable, all_acceptable, ready};
use crate::persistence::record::{
    frames, lemma_frames_concat, lemma_frames_one, pexpireat_word, set_word, Record,
};
use crate::persistence::replay::{replay_of, Progress};
use crate::persistence::resp::{encode_command, slice_views};
use crate::persistence::writer::{AofView, RewriteEnd};
use crate::storage::engine::commands::at_some_time;
use crate::storage::engine::durability::{
    alive, applied, applied_all, at_time, content, in_calendar, kept, lemma_applied_concat,
    lemma_applied_one, lemma_epoch_of, says, told, Kept,
};
use crate::storage::engine::model::{epoch_of, pair_error, EngineView};
use crate::storage::engine::operations::deadline_to_epoch_ms;
use crate::storage::engine::KvEngine;
use crate::storage::keyspace::{
    key_less, lemma_key_less_irreflexive, lemma_listed, lists_keys, sorted_keys,
};

verus! {

/// A key, its value and the absolute time of its expiry.
pub type Snapped = (Seq<u8>, Seq<u8>, Option<i64>);

/// The contents of a snapshot.
pub open spec fn snapshot_views(snapshot: Seq<(Vec<u8>, Vec<u8>, Option<i64>)>) -> Seq<Snapped> {
    snapshot.map_values(|e: (Vec<u8>, Vec<u8>, Option<i64>)| (e.0@, e.1@, e.2))
}

/// A live key as a snapshot holds it.
pub open spec fn snapped(s: EngineView, key: Seq<u8>, now: Clock) -> Snapped {
    (
        key,
        s.store[key].data,
        match s.store[key].expire_at {
            Some(d) => Some(epoch_of(d, now)),
            None => None,
        },
    )
}

/// The snapshot of a store: its live keys, in the order of a walk.
pub open spec fn snapshot_of(s: EngineView, now: Clock) -> Seq<Snapped> {
    s.live_keys(sorted_keys(s.store), now).map_values(|k: Seq<u8>| snapped(s, k, now))
}

/// The records of one entry of a snapshot.
pub open spec fn entry_records(e: Snapped) -> Seq<Record> {
    match e.2 {
        Some(at) => seq![
            Record::Put { key: e.0, value: e.1 },
            Record::PExpireAt { key: e.0, at },
        ],
        None => seq![Record::Put { key: e.0, value: e.1 }],
    }
}

/// The records of a compact log.
pub open spec fn compact_records(snapshot: Seq<Snapped>) -> Seq<Record>
    decreases snapshot.len(),
{
    if snapshot.len() == 0 {
        Seq::empty()
    } else {
        compact_records(snapshot.drop_last()) + entry_records(snapshot.last())
    }
}

/// Writes the compact log of a snapshot.
pub fn serialise_compact_aof(snapshot: &[(Vec<u8>, Vec<u8>, Option<i64>)]) -> (bytes: Vec<u8>)
    ensures
        bytes@ == frames(compact_records(snapshot_views(snapshot@))),
{
    let set: [u8; 3] = [83, 69, 84];
    let pexpireat: [u8; 9] = [80, 69, 88, 80, 73, 82, 69, 65, 84];
    assert(set@ =~= set_word());
    assert(pexpireat@ =~= pexpireat_word());
    let ghost all = snapshot_views(snapshot@);
    let mut bytes: Vec<u8> = Vec::new();
    let mut i: usize = 0;
    assert(compact_records(all.take(0)) =~= Seq::<Record>::empty());
    while i < snapshot.len()
        invariant
            i <= snapshot.len(),
            all == snapshot_views(snapshot@),
            set@ == set_word(),
            pexpireat@ == pexpireat_word(),
            bytes@ == frames(compact_records(all.take(i as int))),
        decreases snapshot.len() - i,
    {
        let ghost done = compact_records(all.take(i as int));
        let ghost e = all[i as int];
        let ghost put = Record::Put { key: e.0, value: e.1 };
        proof {
            assert(all.take(i as int + 1).drop_last() =~= all.take(i as int));
            assert(all.take(i as int + 1).last() == e);
            lemma_frames_concat(done, entry_records(e));
            lemma_frames_one(put);
        }
        let parts: [&[u8]; 3] = [&set, snapshot[i].0.as_slice(), snapshot[i].1.as_slice()];
        assert(slice_views(parts@) =~= put.parts());
        let frame: Vec<u8> = encode_command(&parts);
        push_all(&mut bytes, frame.as_slice());
        match snapshot[i].2 {
            Some(at) => {
                let text: Vec<u8> = format_i64(at);
                let parts: [&[u8]; 3] = [&pexpireat, snapshot[i].0.as_slice(), text.as_slice()];
                let ghost expire = Record::PExpireAt { key: e.0, at };
                assert(slice_views(parts@) =~= expire.parts());
                let frame: Vec<u8> = encode_command(&parts);
                push_all(&mut bytes, frame.as_slice());
                proof {
                    lemma_frames_one(expire);
                    lemma_frames_concat(seq![put], seq![expire]);
                    assert(entry_records(e) =~= seq![put] + seq![expire]);
                    assert(bytes@ =~= frames(done) + frames(entry_records(e)));
                }
            },
            None => {},
        }
        i += 1;
    }
    assert(all.take(i as int) =~= all);
    bytes
}

/// How a rewrite begins: with a snapshot and nothing gathered yet. Without a log,
/// or while a rewrite already runs, nothing changes.
pub open spec fn rewrite_begun(
    before: EngineView,
    after: EngineView,
    snapshot: Option<Vec<(Vec<u8>, Vec<u8>, Option<i64>)>>,
    now: Clock,
) -> bool {
    match (before.log, snapshot) {
        (Some(a), Some(v)) => !a.rewriting && after == (EngineView {
            log: Some(AofView { rewriting: true, delta: Seq::empty(), ..a }),
            ..before
        }) && snapshot_views(v@) == snapshot_of(before, now),
        (Some(a), None) => a.rewriting && after == before,
        (None, Some(_)) => false,
        (None, None) => after == before,
    }
}

impl KvEngine {
    /// Whether a rewrite is to be started: `false` when one already runs, an
    /// error when there is no log.
    pub fn rewrite_aof(&self) -> (r: Result<bool, FerrumError>)
        ensures
            match r {
                Ok(start) => self@.log matches Some(a) && start == !a.rewriting,
                Err(e) => self@.log is None && e@ == ErrorView::AofNotEnabled,
            },
    {
        match &self.aof {
            Some(writer) => Ok(!writer.is_rewriting()),
            None => Err(FerrumError::AofNotEnabled),
        }
    }

    /// Starts a rewrite and takes the snapshot that it is to write. `None` when
    /// there is no log, or when a rewrite already runs: that one goes on, with
    /// what it has gathered.
    pub fn begin_rewrite_at(&mut self, now: Clock) -> (snapshot: Option<
        Vec<(Vec<u8>, Vec<u8>, Option<i64>)>,
    >)
        requires
            old(self).wf(),
        ensures
            final(self).wf(),
            rewrite_begun(old(self)@, final(self)@, snapshot, now),
    {
        if let Some(writer) = &self.aof {
            if writer.is_rewriting() {
                return None;
            }
        }
        let snapshot: Vec<(Vec<u8>, Vec<u8>, Option<i64>)> = self.snapshot_at(now);
        match &mut self.aof {
            Some(writer) => {
                writer.begin_rewrite();
                Some(snapshot)
            },
            None => None,
        }
    }

    /// Starts a rewrite at the present time.
    pub fn begin_rewrite(&mut self) -> (snapshot: Option<Vec<(Vec<u8>, Vec<u8>, Option<i64>)>>)
        requires
            old(self).wf(),
        ensures
            final(self).wf(),
            at_some_time(|now: Clock| rewrite_begun(old(self)@, final(self)@, snapshot, now)),
    {
        let now: Clock = self.now();
        let snapshot = self.begin_rewrite_at(now);
        proof {
            let p = |now: Clock| rewrite_begun(old(self)@, final(self)@, snapshot, now);
            assert(p(now));
        }
        snapshot
    }

    /// The live keys with their values and the absolute times of their expiry.
    pub fn snapshot_at(&self, now: Clock) -> (snapshot: Vec<(Vec<u8>, Vec<u8>, Option<i64>)>)
        ensures
            snapshot_views(snapshot@) == snapshot_of(self@, now),
    {
        let n: usize = self.store.len();
        let ghost keys = sorted_keys(self.store@);
        let ghost live = |k: Seq<u8>| self@.live(k, now);
        let ghost pick = |k: Seq<u8>| snapped(self@, k, now);
        let mut out: Vec<(Vec<u8>, Vec<u8>, Option<i64>)> = Vec::with_capacity(n);
        let mut i: usize = 0;
        proof {
            reveal(Seq::filter);
            assert(keys.take(0).filter(live) =~= Seq::<Seq<u8>>::empty());
            assert(snapshot_views(out@) =~= keys.take(0).filter(live).map_values(pick));
        }
        while i < n
            invariant
                i <= n,
                n == keys.len(),
                keys == sorted_keys(self.store@),
                lists_keys(keys, self.store@),
                live == (|k: Seq<u8>| self@.live(k, now)),
                pick == (|k: Seq<u8>| snapped(self@, k, now)),
                snapshot_views(out@) == keys.take(i as int).filter(live).map_values(pick),
            decreases n - i,
        {
            proof {
                reveal(Seq::filter);
                assert(keys.take(i as int + 1).drop_last() =~= keys.take(i as int));
                assert(keys.contains(keys[i as int]));
                assert(self.store@.contains_key(keys[i as int]));
            }
            let ghost before = snapshot_views(out@);
            let ghost chosen = keys.take(i as int).filter(live);
            let entry = self.store.entry_at(i);
            if !entry.is_expired(now.mono_ns as u128) {
                let ttl: Option<i64> = match entry.expire_at {
                    Some(deadline) => deadline_to_epoch_ms(deadline, now),
                    None => None,
                };
                let key: Vec<u8> = copied(self.store.key_at(i).as_slice());
                let data: Vec<u8> = copied(entry.data.as_slice());
                let ghost e = (key@, data@, ttl);
                assert(e == pick(keys[i as int]));
                out.push((key, data, ttl));
                assert(snapshot_views(out@) =~= before.push(e));
                assert(chosen.push(keys[i as int]).map_values(pick) =~= chosen.map_values(
                    pick,
                ).push(pick(keys[i as int])));
            }
            i += 1;
        }
        assert(keys.take(i as int) =~= keys);
        out
    }

    /// Ends a rewrite whose snapshot is on disk. `None` when there is no log.
    pub fn finish_rewrite(&mut self) -> (end: Option<RewriteEnd>)
        requires
            old(self).wf(),
        ensures
            final(self).wf(),
            match old(self)@.log {
                Some(a) => if a.rewriting {
                    final(self)@ == (EngineView {
                        log: Some(
                            AofView {
                                pending: Seq::empty(),
                                rewriting: false,
                                delta: Seq::empty(),
                                ..a
                            },
                        ),
                        ..old(self)@
                    }) && (end matches Some(RewriteEnd::Swap(delta)) && delta@ == a.delta)
                } else {
                    final(self)@ == old(self)@ && (end matches Some(RewriteEnd::KeepOld))
                },
                None => final(self)@ == old(self)@ && end is None,
            },
    {
        match &mut self.aof {
            Some(writer) => Some(writer.finish_rewrite()),
            None => None,
        }
    }

    /// Gives a rewrite up.
    pub fn abort_rewrite(&mut self)
        requires
            old(self).wf(),
        ensures
            final(self).wf(),
            final(self)@ == (match old(self)@.log {
                Some(a) => EngineView {
                    log: Some(AofView { rewriting: false, delta: Seq::empty(), ..a }),
                    ..old(self)@
                },
                None => old(self)@,
            }),
    {
        match &mut self.aof {
            Some(writer) => writer.abort_rewrite(),
            None => {},
        }
    }
}

/// What is told of some keys of a store.
spec fn told_on(s: EngineView, keys: Seq<Seq<u8>>, now: Clock) -> Map<Seq<u8>, Kept> {
    Map::new(|k: Seq<u8>| keys.contains(k), |k: Seq<u8>| kept(s.store[k], now))
}

proof fn lemma_compact(s: EngineView, keys: Seq<Seq<u8>>, now: Clock)
    requires
        s.wf(),
        in_calendar(s.store, now),
        keys.no_duplicates(),
        forall|i: int| 0 <= i < keys.len() ==> s.live(#[trigger] keys[i], now),
    ensures
        ({
            let rs = compact_records(keys.map_values(|k: Seq<u8>| snapped(s, k, now)));
            &&& all_acceptable(rs)
            &&& applied_all(Map::empty(), rs) == told_on(s, keys, now)
        }),
    decreases keys.len(),
{
    let pick = |k: Seq<u8>| snapped(s, k, now);
    let snap = keys.map_values(pick);
    if keys.len() == 0 {
        assert(snap.len() == 0);
        assert(told_on(s, keys, now) =~= Map::<Seq<u8>, Kept>::empty());
    } else {
        let front = keys.drop_last();
        let k = keys.last();
        assert(keys[keys.len() - 1] == k);
        assert(s.live(k, now));
        assert forall|i: int| 0 <= i < front.len() implies s.live(#[trigger] front[i], now) by {
            assert(front[i] == keys[i]);
        }
        lemma_compact(s, front, now);
        assert(snap.drop_last() =~= front.map_values(pick));
        let e = snapped(s, k, now);
        assert(snap.last() == e);
        let done = compact_records(snap.drop_last());
        let more = entry_records(e);
        let c = told_on(s, front, now);
        lemma_applied_concat(Map::empty(), done, more);
        assert(s.store.contains_key(k));
        assert(pair_error(k, s.store[k].data) is None);
        assert(all_acceptable(more));
        assert forall|i: int| 0 <= i < (done + more).len() implies acceptable(
            #[trigger] (done + more)[i],
        ) by {
            if i < done.len() {
                assert(acceptable(done[i]));
            } else {
                assert(acceptable(more[i - done.len()]));
            }
        }
        assert(!front.contains(k)) by {
            if front.contains(k) {
                let i = choose|i: int| 0 <= i < front.len() && front[i] == k;
                assert(keys[i] == keys[keys.len() - 1]);
            }
        }
        let put = Record::Put { key: k, value: e.1 };
        let c1 = c.insert(k, (e.1, None));
        lemma_applied_one(c, put);
        assert forall|x: Seq<u8>| keys.contains(x) <==> front.contains(x) || x == k by {
            if keys.contains(x) {
                let i = choose|i: int| 0 <= i < keys.len() && keys[i] == x;
                if i < front.len() {
                    assert(front[i] == x);
                }
            }
            if front.contains(x) {
                let i = choose|i: int| 0 <= i < front.len() && front[i] == x;
                assert(keys[i] == x);
            }
        }
        match s.store[k].expire_at {
            Some(d) => {
                lemma_epoch_of(d, now);
                let expire = Record::PExpireAt { key: k, at: epoch_of(d, now) };
                assert(more =~= seq![put] + seq![expire]);
                lemma_applied_concat(c, seq![put], seq![expire]);
                lemma_applied_one(c1, expire);
                assert(applied(c1, expire) =~= told_on(s, keys, now));
            },
            None => {
                assert(c1 =~= told_on(s, keys, now));
            },
        }
    }
}

/// The records of a compact log tell the live keys of the store.
proof fn lemma_compact_told(s: EngineView, now: Clock)
    requires
        s.wf(),
        in_calendar(s.store, now),
    ensures
        all_acceptable(compact_records(snapshot_of(s, now))),
        applied_all(Map::<Seq<u8>, Kept>::empty(), compact_records(snapshot_of(s, now))) == told(
            s.store,
            now,
        ),
{
    let sorted = sorted_keys(s.store);
    let keys = s.live_keys(sorted, now);
    lemma_listed(s.store);
    lemma_live_list(s, sorted, now);
    lemma_compact(s, keys, now);
    assert forall|k: Seq<u8>| keys.contains(k) <==> #[trigger] alive(s.store, k, now) by {
        assert(s.store.contains_key(k) <==> sorted.contains(k));
        assert(s.live(k, now) == alive(s.store, k, now));
    }
    assert(told_on(s, keys, now) =~= told(s.store, now));
}

/// A rewrite keeps everything, with what was written while it ran. The compact
/// log says what the store held when the snapshot was taken; replaying it with
/// the records that follow it into an empty engine, at any time, rebuilds that
/// with those records applied, but for what has lapsed by then. No record is
/// skipped.
pub proof fn law_rewrite_rebuilds(
    s: EngineView,
    fresh: EngineView,
    delta: Seq<Record>,
    now: Clock,
    m: Clock,
)
    requires
        s.wf(),
        in_calendar(s.store, now),
        ready(fresh, m),
        fresh.store == Map::<Seq<u8>, crate::storage::entry::EntryView>::empty(),
        all_acceptable(delta),
    ensures
        ({
            let rs = compact_records(snapshot_of(s, now));
            let log = frames(rs) + frames(delta);
            let (r, t) = replay_of(fresh, log, m);
            &&& says(told(s.store, now), s.store, now)
            &&& r == Ok::<Progress, ErrorView>(
                Progress {
                    applied: rs.len() + delta.len(),
                    skipped: 0,
                    truncated: false,
                    good: log.len() as int,
                },
            )
            &&& content(t.store, m) == at_time(applied_all(told(s.store, now), delta), m)
        }),
{
    let rs = compact_records(snapshot_of(s, now));
    lemma_compact_told(s, now);
    lemma_frames_concat(rs, delta);
    lemma_applied_concat(Map::empty(), rs, delta);
    lemma_replay_from_empty(fresh, rs + delta, m);
}

proof fn lemma_live_list(s: EngineView, keys: Seq<Seq<u8>>, now: Clock)
    requires
        crate::storage::keyspace::ascending(keys),
    ensures
        ({
            let f = s.live_keys(keys, now);
            &&& f.no_duplicates()
            &&& forall|i: int| 0 <= i < f.len() ==> s.live(#[trigger] f[i], now)
            &&& forall|i: int| 0 <= i < f.len() ==> keys.contains(#[trigger] f[i])
            &&& forall|k: Seq<u8>| #[trigger] f.contains(k) <==> keys.contains(k) && s.live(k, now)
        }),
    decreases keys.len(),
{
    reveal(Seq::filter);
    let live = |k: Seq<u8>| s.live(k, now);
    let f = s.live_keys(keys, now);
    if keys.len() > 0 {
        let front = keys.drop_last();
        let last = keys.last();
        assert forall|i: int, j: int| 0 <= i < j < front.len() implies key_less(
            #[trigger] front[i],
            #[trigger] front[j],
        ) by {
            assert(key_less(keys[i], keys[j]));
        }
        lemma_live_list(s, front, now);
        let g = s.live_keys(front, now);
        assert forall|k: Seq<u8>| keys.contains(k) <==> front.contains(k) || k == last by {
            if keys.contains(k) {
                let i = choose|i: int| 0 <= i < keys.len() && keys[i] == k;
                if i < front.len() {
                    assert(front[i] == k);
                }
            }
            if front.contains(k) {
                let i = choose|i: int| 0 <= i < front.len() && front[i] == k;
                assert(keys[i] == k);
            }
            assert(keys[keys.len() - 1] == last);
        }
        assert(!front.contains(last)) by {
            if front.contains(last) {
                let i = choose|i: int| 0 <= i < front.len() && front[i] == last;
                assert(key_less(keys[i], keys[keys.len() - 1]));
                lemma_key_less_irreflexive(last);
            }
        }
        if s.live(last, now) {
            assert(f =~= g.push(last));
            assert forall|i: int, j: int| 0 <= i < f.len()
                && 0 <= j < f.len()
                && i != j implies f[i]
                != f[j] by {
                if i == g.len() {
                    assert(front.contains(g[j]));
                }
                if j == g.len() {
                    assert(front.contains(g[i]));
                }
            }
            assert forall|k: Seq<u8>| #[trigger] f.contains(k) <==> keys.contains(k) && s.live(
                k,
                now,
            ) by {
                if g.contains(k) {
                    let i = choose|i: int| 0 <= i < g.len() && g[i] == k;
                    assert(f[i] == k);
                }
                assert(f[g.len() as int] == last);
                if f.contains(k) {
                    let i = choose|i: int| 0 <= i < f.len() && f[i] == k;
                    if i < g.len() {
                        assert(g.contains(k));
                    }
                }
            }
            assert forall|i: int| 0 <= i < f.len() implies keys.contains(#[trigger] f[i]) by {
                assert(f.contains(f[i]));
            }
            assert forall|i: int| 0 <= i < f.len() implies s.live(#[trigger] f[i], now) by {
                assert(f.contains(f[i]));
            }
        } else {
            assert(f =~= g);
            assert forall|k: Seq<u8>| #[trigger] f.contains(k) <==> keys.contains(k) && s.live(
                k,
                now,
            ) by {}
            assert forall|i: int| 0 <= i < f.len() implies keys.contains(#[trigger] f[i]) by {
                assert(front.contains(g[i]));
            }
        }
    }
}

} // verus!
