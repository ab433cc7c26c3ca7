//! The effect of each command at a given reading of the clock.

use vstd::prelude::*;
use vstd::string::*;

use crate::bytes::{copied, push_all};
use crate::clock::Clock;
use crate::decimal::{format_i64, lemma_dec_int_len, parse_i64};
use crate::error::{ErrorView, FerrumError};
use crate::persistence::resp::vec_views;
use crate::persistence::writer::set_records;
use crate::storage::engine::glob::{glob, glob_match};
use crate::storage::engine::model::{
    at_most, epoch_of, first_error, pair_error, put_records, remaining_ms, walk_from, EngineView,
    TtlStatus, SCAN_KEYS_LIMIT,
};
use crate::storage::engine::{
    bytes_view, entry_bytes, same_bytes_result, same_result, validate_key, validate_value,
    walk_start, KvEngine,
};
use crate::storage::entry::{live_payload, ValueEntry};
use crate::storage::keyspace::{lists_keys, sorted_keys};

verus! {

/// Outcome of one active sweep.
#[derive(Debug, Clone, Copy, PartialEq, Eq, Structural)]
pub struct SweepStats {
    /// Keys that were looked at.
    pub examined: usize,
    /// Keys that had lapsed and were removed.
    pub evicted: usize,
}

impl SweepStats {
    /// Whether so much of the sample had lapsed that another sweep is due: more
    /// than a quarter.
    pub fn should_continue(&self) -> (yes: bool)
        ensures
            yes == (self.examined > 0 && self.evicted * 4 > self.examined),
    {
        self.examined > 0 && (self.evicted as u128) * 4 > self.examined as u128
    }
}

/// The engine after one sweep; a sample of zero leaves it as it is.
pub open spec fn swept_once(s: EngineView, sample: usize, now: Clock) -> EngineView {
    if sample == 0 {
        s
    } else {
        s.swept(sample as int, now)
    }
}

/// Whether the figures are those of a sweep.
pub open spec fn counts_sweep(stats: SweepStats, s: EngineView, sample: usize, now: Clock) -> bool {
    let keys = s.swept_keys(sample as int);
    if sample == 0 {
        stats.examined == 0 && stats.evicted == 0
    } else {
        stats.examined == keys.len() && stats.evicted == keys.filter(
            |k: Seq<u8>| s.lapsed(k, now),
        ).len()
    }
}

/// Whether a new length, or the reason for none, is the one expected.
pub open spec fn same_length(r: Result<usize, FerrumError>, m: Result<nat, ErrorView>) -> bool {
    match (r, m) {
        (Ok(len), Ok(n)) => len == n,
        (Err(e), Err(f)) => e@ == f,
        _ => false,
    }
}

/// Whether a charge is the one that was measured.
pub open spec fn same_cost(cost: Option<u64>, measured: Option<int>) -> bool {
    match (cost, measured) {
        (Some(c), Some(m)) => c == m,
        (None, None) => true,
        _ => false,
    }
}

/// The contents of several pairs.
pub open spec fn pair_views(pairs: Seq<(Vec<u8>, Vec<u8>)>) -> Seq<(Seq<u8>, Seq<u8>)> {
    pairs.map_values(|p: (Vec<u8>, Vec<u8>)| (p.0@, p.1@))
}

/// The views of several optional byte strings.
pub open spec fn option_views(values: Seq<Option<Vec<u8>>>) -> Seq<Option<Seq<u8>>> {
    values.map_values(|v: Option<Vec<u8>>| bytes_view(v))
}

/// Milliseconds from `now` to a deadline.
pub fn ms_until(deadline: u128, now: Clock) -> (ms: i64)
    ensures
        ms == remaining_ms(deadline, now),
{
    if deadline <= now.mono_ns as u128 {
        0
    } else {
        ((deadline - now.mono_ns as u128) / 1_000_000) as i64
    }
}

/// The absolute time of a deadline, `None` when it is not in the future.
pub fn deadline_to_epoch_ms(deadline: u128, now: Clock) -> (abs_ms: Option<i64>)
    ensures
        abs_ms == (if deadline > now.mono_ns {
            Some(epoch_of(deadline, now))
        } else {
            None
        }),
{
    if deadline <= now.mono_ns as u128 {
        return None;
    }
    let sum: i128 = now.epoch_ms as i128 + ms_until(deadline, now) as i128;
    if sum > 0x7fff_ffff_ffff_ffff {
        Some(i64::MAX)
    } else if sum < -0x8000_0000_0000_0000 {
        Some(i64::MIN)
    } else {
        Some(sum as i64)
    }
}

impl KvEngine {
    /// Drops a key if it has lapsed, and logs its removal.
    fn purge(&mut self, key: &[u8], now: Clock)
        requires
            old(self).wf(),
        ensures
            final(self).wf(),
            final(self)@ == old(self)@.purged(key@, now),
    {
        let lapsed: bool = match self.store.get(key) {
            Some(entry) => entry.is_expired(now.mono_ns as u128),
            None => false,
        };
        if lapsed {
            let _removed = self.track_remove(key);
            self.log_del(key);
        }
    }

    /// Reads a value. A live key is touched and counted as a hit; anything else
    /// is a miss, and a lapsed key is dropped.
    pub fn fetch_live(&mut self, key: &[u8], now: Clock) -> (value: Option<Vec<u8>>)
        requires
            old(self).wf(),
        ensures
            final(self).wf(),
            final(self)@ == old(self)@.fetched(key@, now).1,
            bytes_view(value) == old(self)@.fetched(key@, now).0,
    {
        let live: Option<Vec<u8>> = match self.store.get(key) {
            Some(entry) => if entry.is_expired(now.mono_ns as u128) {
                None
            } else {
                Some(copied(entry.data.as_slice()))
            },
            None => None,
        };
        match live {
            Some(data) => {
                self.touch_access(key, now);
                self.record_hit();
                Some(data)
            },
            None => {
                self.purge(key, now);
                self.record_miss();
                None
            },
        }
    }

    /// Tests for a key without touching it.
    pub fn contains_live(&mut self, key: &[u8], now: Clock) -> (found: bool)
        requires
            old(self).wf(),
        ensures
            final(self).wf(),
            final(self)@ == old(self)@.tested(key@, now).1,
            found == old(self)@.tested(key@, now).0,
    {
        let live: bool = match self.store.get(key) {
            Some(entry) => !entry.is_expired(now.mono_ns as u128),
            None => false,
        };
        if live {
            self.record_hit();
            true
        } else {
            self.purge(key, now);
            self.record_miss();
            false
        }
    }

    /// `SET`: stores a value and clears any deadline. Returns the value that was
    /// there.
    pub fn insert(&mut self, key: Vec<u8>, value: Vec<u8>, now: Clock) -> (r: Result<
        Option<Vec<u8>>,
        FerrumError,
    >)
        requires
            old(self).wf(),
        ensures
            final(self).wf(),
            final(self)@ == old(self)@.set(key@, value@, now).1,
            same_bytes_result(r, old(self)@.set(key@, value@, now).0),
    {
        if let Err(e) = validate_key(key.as_slice()) {
            return Err(e);
        }
        if let Err(e) = validate_value(value.as_slice()) {
            return Err(e);
        }
        if let Err(e) = self.enforce_for_write(key.as_slice(), value.len(), now) {
            return Err(e);
        }
        self.log_put(key.as_slice(), value.as_slice());
        match self.track_insert(key, ValueEntry::new(value, now)) {
            Some(previous) => Ok(live_payload(previous, now.mono_ns as u128)),
            None => Ok(None),
        }
    }

    /// `SETNX`: stores a value only where no live key stands.
    pub fn insert_nx(&mut self, key: Vec<u8>, value: Vec<u8>, now: Clock) -> (r: Result<
        bool,
        FerrumError,
    >)
        requires
            old(self).wf(),
        ensures
            final(self).wf(),
            final(self)@ == old(self)@.set_nx(key@, value@, now).1,
            same_result(r, old(self)@.set_nx(key@, value@, now).0),
    {
        if let Err(e) = validate_key(key.as_slice()) {
            return Err(e);
        }
        if let Err(e) = validate_value(value.as_slice()) {
            return Err(e);
        }
        let lapsed: bool = match self.store.get(key.as_slice()) {
            Some(entry) => {
                if !entry.is_expired(now.mono_ns as u128) {
                    return Ok(false);
                }
                true
            },
            None => false,
        };
        if lapsed {
            let _removed = self.track_remove(key.as_slice());
        }
        if let Err(e) = self.enforce_for_write(key.as_slice(), value.len(), now) {
            return Err(e);
        }
        self.log_put(key.as_slice(), value.as_slice());
        let _previous = self.track_insert(key, ValueEntry::new(value, now));
        Ok(true)
    }

    /// `MSET`: checks every pair, makes room for each, then stores them all.
    pub fn insert_many(&mut self, pairs: Vec<(Vec<u8>, Vec<u8>)>, now: Clock) -> (r: Result<
        (),
        FerrumError,
    >)
        requires
            old(self).wf(),
        ensures
            final(self).wf(),
            final(self)@ == old(self)@.mset(pair_views(pairs@), now).1,
            same_result(r, old(self)@.mset(pair_views(pairs@), now).0),
    {
        let ghost all = pair_views(pairs@);
        let n: usize = pairs.len();
        let mut i: usize = 0;
        assert(first_error(all.take(0)) is None);
        while i < n
            invariant
                i <= n,
                n == pairs.len(),
                all == pair_views(pairs@),
                *self == *old(self),
                old(self).wf(),
                first_error(all.take(i as int)) is None,
                forall|j: int|
                    0 <= j < i ==> pair_error((#[trigger] all[j]).0, all[j].1) is None,
            decreases n - i,
        {
            assert(all.take(i as int + 1).drop_last() =~= all.take(i as int));
            assert(all.take(i as int + 1).last() == all[i as int]);
            if let Err(e) = validate_key(pairs[i].0.as_slice()) {
                proof {
                    lemma_first_error(all, i as int + 1, e@);
                }
                return Err(e);
            }
            if let Err(e) = validate_value(pairs[i].1.as_slice()) {
                proof {
                    lemma_first_error(all, i as int + 1, e@);
                }
                return Err(e);
            }
            i += 1;
        }
        assert(all.take(i as int) =~= all);
        let ghost run = self@.admitted_all(all, now);
        let mut j: usize = 0;
        assert(all.skip(0) =~= all);
        while j < n
            invariant
                j <= n,
                n == pairs.len(),
                all == pair_views(pairs@),
                self.wf(),
                run == self@.admitted_all(all.skip(j as int), now),
                forall|x: int|
                    0 <= x < n ==> pair_error((#[trigger] all[x]).0, all[x].1) is None,
                first_error(all) is None,
                run == old(self)@.admitted_all(all, now),
            decreases n - j,
        {
            assert(all.skip(j as int)[0] == all[j as int]);
            assert(all.skip(j as int).skip(1) =~= all.skip(j as int + 1));
            if let Err(e) = self.enforce_for_write(pairs[j].0.as_slice(), pairs[j].1.len(), now) {
                return Err(e);
            }
            j += 1;
        }
        assert(all.skip(j as int) =~= Seq::<(Seq<u8>, Seq<u8>)>::empty());
        assert(self@ == run.1);
        match &mut self.aof {
            Some(a) => a.append_set_many(pairs.as_slice()),
            None => {},
        }
        proof {
            assert(put_records(all) =~= set_records(pairs@));
            assert(self@ =~= run.1.logged_batch(put_records(all)));
        }
        let ghost target = self@.stored_all(all, now);
        let mut rest: Vec<(Vec<u8>, Vec<u8>)> = pairs;
        let mut k: usize = 0;
        assert(all.skip(0) =~= all);
        while k < n
            invariant
                k <= n,
                n == all.len(),
                pair_views(rest@) == all,
                self.wf(),
                target == self@.stored_all(all.skip(k as int), now),
                forall|x: int|
                    0 <= x < n ==> pair_error((#[trigger] all[x]).0, all[x].1) is None,
            decreases n - k,
        {
            assert(all.skip(k as int)[0] == all[k as int]);
            assert(all.skip(k as int).skip(1) =~= all.skip(k as int + 1));
            let key: Vec<u8> = copied(rest[k].0.as_slice());
            let value: Vec<u8> = copied(rest[k].1.as_slice());
            let _previous = self.track_insert(key, ValueEntry::new(value, now));
            k += 1;
        }
        assert(all.skip(k as int) =~= Seq::<(Seq<u8>, Seq<u8>)>::empty());
        Ok(())
    }

    /// `MGET`: reads several keys in order.
    pub fn mget_at(&mut self, keys: &[Vec<u8>], now: Clock) -> (values: Vec<Option<Vec<u8>>>)
        requires
            old(self).wf(),
        ensures
            final(self).wf(),
            final(self)@ == old(self)@.mget(vec_views(keys@), now).1,
            option_views(values@) == old(self)@.mget(vec_views(keys@), now).0,
    {
        let ghost all = vec_views(keys@);
        let mut values: Vec<Option<Vec<u8>>> = Vec::with_capacity(keys.len());
        let mut i: usize = 0;
        assert(option_views(values@) =~= Seq::<Option<Seq<u8>>>::empty());
        while i < keys.len()
            invariant
                i <= keys.len(),
                all == vec_views(keys@),
                self.wf(),
                (option_views(values@), self@) == old(self)@.mget(all.take(i as int), now),
            decreases keys.len() - i,
        {
            assert(all.take(i as int + 1).drop_last() =~= all.take(i as int));
            assert(all.take(i as int + 1).last() == all[i as int]);
            let ghost before = option_views(values@);
            let value = self.fetch_live(keys[i].as_slice(), now);
            let ghost v = bytes_view(value);
            values.push(value);
            assert(option_views(values@) =~= before.push(v));
            i += 1;
        }
        assert(all.take(i as int) =~= all);
        values
    }

    /// `EXISTS`: counts the live keys, repeats each time.
    pub fn exists_many_at(&mut self, keys: &[Vec<u8>], now: Clock) -> (count: usize)
        requires
            old(self).wf(),
        ensures
            final(self).wf(),
            final(self)@ == old(self)@.exists_many(vec_views(keys@), now).1,
            count == old(self)@.exists_many(vec_views(keys@), now).0,
    {
        let ghost all = vec_views(keys@);
        let mut count: usize = 0;
        let mut i: usize = 0;
        while i < keys.len()
            invariant
                i <= keys.len(),
                all == vec_views(keys@),
                self.wf(),
                count <= i,
                (count as nat, self@) == old(self)@.exists_many(all.take(i as int), now),
            decreases keys.len() - i,
        {
            assert(all.take(i as int + 1).drop_last() =~= all.take(i as int));
            assert(all.take(i as int + 1).last() == all[i as int]);
            if self.contains_live(keys[i].as_slice(), now) {
                count += 1;
            }
            i += 1;
        }
        assert(all.take(i as int) =~= all);
        count
    }

    /// Stores a value while keeping a deadline; a future deadline is logged
    /// again behind the value.
    pub fn insert_keep_ttl(
        &mut self,
        key: Vec<u8>,
        value: Vec<u8>,
        keep_ttl: Option<u128>,
        now: Clock,
    ) -> (r: Result<Option<Vec<u8>>, FerrumError>)
        requires
            old(self).wf(),
            pair_error(key@, value@) is None,
        ensures
            final(self).wf(),
            final(self)@ == old(self)@.set_keep_ttl(key@, value@, keep_ttl, now).1,
            same_bytes_result(r, old(self)@.set_keep_ttl(key@, value@, keep_ttl, now).0),
    {
        if let Err(e) = self.enforce_for_write(key.as_slice(), value.len(), now) {
            return Err(e);
        }
        self.log_put(key.as_slice(), value.as_slice());
        if let Some(deadline) = keep_ttl {
            if let Some(abs_ms) = deadline_to_epoch_ms(deadline, now) {
                self.log_pexpireat(key.as_slice(), abs_ms);
            }
        }
        match self.track_insert(key, ValueEntry::new_with(value, keep_ttl, now)) {
            Some(previous) => Ok(live_payload(previous, now.mono_ns as u128)),
            None => Ok(None),
        }
    }

    /// Reads a value and its deadline for an update, uncounted. A lapsed key is
    /// dropped.
    pub fn read_state(&mut self, key: &[u8], now: Clock) -> (state: Option<
        (Vec<u8>, Option<u128>),
    >)
        requires
            old(self).wf(),
        ensures
            final(self).wf(),
            final(self)@ == old(self)@.purged(key@, now),
            match state {
                Some((data, deadline)) => old(self)@.peeked(key@, now) == Some((data@, deadline)),
                None => old(self)@.peeked(key@, now) is None,
            },
    {
        let state: Option<(Vec<u8>, Option<u128>)> = match self.store.get(key) {
            Some(entry) => if entry.is_expired(now.mono_ns as u128) {
                None
            } else {
                Some((copied(entry.data.as_slice()), entry.expire_at))
            },
            None => None,
        };
        self.purge(key, now);
        state
    }

    /// `INCRBY`: adds to the integer under a key; an absent key counts as zero.
    /// The deadline stays.
    pub fn incr_by_at(&mut self, key: Vec<u8>, delta: i64, now: Clock) -> (r: Result<
        i64,
        FerrumError,
    >)
        requires
            old(self).wf(),
        ensures
            final(self).wf(),
            final(self)@ == old(self)@.incr_by(key@, delta, now).1,
            same_result(r, old(self)@.incr_by(key@, delta, now).0),
    {
        if let Err(e) = validate_key(key.as_slice()) {
            return Err(e);
        }
        let mut current: i64 = 0;
        let mut deadline: Option<u128> = None;
        if let Some((data, ttl)) = self.read_state(key.as_slice(), now) {
            match parse_i64(data.as_slice()) {
                Some(n) => {
                    current = n;
                    deadline = ttl;
                },
                None => {
                    return Err(
                        FerrumError::ParseError(
                            "value is not an integer or out of range".to_owned(),
                        ),
                    );
                },
            }
        }
        match current.checked_add(delta) {
            Some(sum) => {
                let text: Vec<u8> = format_i64(sum);
                proof {
                    lemma_dec_int_len(sum);
                }
                match self.insert_keep_ttl(key, text, deadline, now) {
                    Ok(_) => Ok(sum),
                    Err(e) => Err(e),
                }
            },
            None => Err(
                FerrumError::ParseError("value is not an integer or out of range".to_owned()),
            ),
        }
    }

    /// `APPEND`: extends the value under a key, or creates it. The deadline
    /// stays.
    pub fn append_at(&mut self, key: Vec<u8>, suffix: Vec<u8>, now: Clock) -> (r: Result<
        usize,
        FerrumError,
    >)
        requires
            old(self).wf(),
        ensures
            final(self).wf(),
            final(self)@ == old(self)@.append(key@, suffix@, now).1,
            same_length(r, old(self)@.append(key@, suffix@, now).0),
    {
        if let Err(e) = validate_key(key.as_slice()) {
            return Err(e);
        }
        let mut value: Vec<u8> = Vec::new();
        let mut deadline: Option<u128> = None;
        if let Some((data, ttl)) = self.read_state(key.as_slice(), now) {
            value = data;
            deadline = ttl;
        }
        let ghost held = value@;
        push_all(&mut value, suffix.as_slice());
        assert(Seq::<u8>::empty() + suffix@ =~= suffix@);
        if let Err(e) = validate_value(value.as_slice()) {
            return Err(e);
        }
        let len: usize = value.len();
        match self.insert_keep_ttl(key, value, deadline, now) {
            Ok(_) => Ok(len),
            Err(e) => Err(e),
        }
    }

    /// `DEL`: removes a key and says whether it was live; only then the removal
    /// is logged.
    pub fn remove(&mut self, key: &[u8], now: Clock) -> (existed: bool)
        requires
            old(self).wf(),
        ensures
            final(self).wf(),
            final(self)@ == old(self)@.deleted(key@, now),
            existed == old(self)@.live(key@, now),
    {
        let existed: bool = match self.track_remove(key) {
            Some(entry) => !entry.is_expired(now.mono_ns as u128),
            None => false,
        };
        if existed {
            self.log_del(key);
        }
        existed
    }

    /// `DEL` of several keys: removes them all, then logs those that were live.
    pub fn remove_many(&mut self, keys: &[Vec<u8>], now: Clock) -> (count: usize)
        requires
            old(self).wf(),
        ensures
            final(self).wf(),
            final(self)@ == old(self)@.del_many(vec_views(keys@), now).1,
            count == old(self)@.del_many(vec_views(keys@), now).0,
    {
        let ghost all = vec_views(keys@);
        let mut removed: Vec<Vec<u8>> = Vec::with_capacity(keys.len());
        let mut i: usize = 0;
        assert(vec_views(removed@) =~= Seq::<Seq<u8>>::empty());
        while i < keys.len()
            invariant
                i <= keys.len(),
                all == vec_views(keys@),
                self.wf(),
                self@ == old(self)@.forgotten_all(all.take(i as int)),
                vec_views(removed@) == old(self)@.live_ones(all.take(i as int), now),
            decreases keys.len() - i,
        {
            assert(all.take(i as int + 1).drop_last() =~= all.take(i as int));
            assert(all.take(i as int + 1).last() == all[i as int]);
            let key = keys[i].as_slice();
            if let Some(entry) = self.track_remove(key) {
                if !entry.is_expired(now.mono_ns as u128) {
                    let ghost before = vec_views(removed@);
                    removed.push(copied(key));
                    assert(vec_views(removed@) =~= before.push(key@));
                }
            }
            i += 1;
        }
        assert(all.take(i as int) =~= all);
        let ghost gone = vec_views(removed@);
        let ghost base = self@;
        let mut j: usize = 0;
        while j < removed.len()
            invariant
                j <= removed.len(),
                gone == vec_views(removed@),
                self.wf(),
                self@ == base.logged_dels(gone.take(j as int)),
            decreases removed.len() - j,
        {
            assert(gone.take(j as int + 1).drop_last() =~= gone.take(j as int));
            assert(gone.take(j as int + 1).last() == gone[j as int]);
            self.log_del(removed[j].as_slice());
            j += 1;
        }
        assert(gone.take(j as int) =~= gone);
        removed.len()
    }

    /// `PEXPIREAT`: puts a deadline on a live key; a time that is not in the
    /// future removes the key.
    pub fn expire_at(&mut self, key: &[u8], abs_epoch_ms: i64, now: Clock) -> (done: bool)
        requires
            old(self).wf(),
        ensures
            final(self).wf(),
            final(self)@ == old(self)@.expire_at(key@, abs_epoch_ms, now).1,
            done == old(self)@.expire_at(key@, abs_epoch_ms, now).0,
    {
        self.purge(key, now);
        if !self.store.contains_key(key) {
            return false;
        }
        if abs_epoch_ms <= now.epoch_ms {
            let _removed = self.track_remove(key);
            self.log_del(key);
            return true;
        }
        let delta_ms: u128 = (abs_epoch_ms as i128 - now.epoch_ms as i128) as u128;
        let deadline: u128 = now.mono_ns as u128 + delta_ms * 1_000_000;
        self.set_deadline(key, Some(deadline));
        self.log_pexpireat(key, abs_epoch_ms);
        true
    }

    /// Sets a deadline that a replay has read. The key keeps it even when it has
    /// passed.
    pub fn restore_deadline(&mut self, key: &[u8], at: i64, now: Clock)
        requires
            old(self).wf(),
        ensures
            final(self).wf(),
            final(self)@ == old(self)@.deadline_restored(key@, at, now),
    {
        if !self.store.contains_key(key) {
            return;
        }
        let deadline: u128 = if at <= now.epoch_ms {
            now.mono_ns as u128
        } else {
            let delta_ms: u128 = (at as i128 - now.epoch_ms as i128) as u128;
            now.mono_ns as u128 + delta_ms * 1_000_000
        };
        self.set_deadline(key, Some(deadline));
        self.log_pexpireat(key, at);
    }

    /// Takes a deadline off for a replay, whether it has passed or not.
    pub fn lift_deadline(&mut self, key: &[u8])
        requires
            old(self).wf(),
        ensures
            final(self).wf(),
            final(self)@ == old(self)@.deadline_lifted(key@),
    {
        let timed: bool = match self.store.get(key) {
            Some(entry) => entry.expire_at.is_some(),
            None => false,
        };
        if timed {
            self.set_deadline(key, None);
            self.log_persist(key);
        }
    }

    /// Drops every lapsed key.
    pub fn sweep_through(&mut self, now: Clock)
        requires
            old(self).wf(),
        ensures
            final(self).wf(),
            final(self)@ == old(self)@.swept_through(now),
    {
        let n: usize = self.store.len();
        let _stats = self.sweep_expired_at(n, now);
    }

    /// `PERSIST`: takes the deadline off a live key; says whether there was one.
    pub fn persist_at(&mut self, key: &[u8], now: Clock) -> (done: bool)
        requires
            old(self).wf(),
        ensures
            final(self).wf(),
            final(self)@ == old(self)@.persist(key@, now).1,
            done == old(self)@.persist(key@, now).0,
    {
        self.purge(key, now);
        let timed: bool = match self.store.get(key) {
            Some(entry) => entry.expire_at.is_some(),
            None => false,
        };
        if !timed {
            return false;
        }
        self.set_deadline(key, None);
        self.log_persist(key);
        true
    }

    /// `FLUSHDB`: removes every key.
    pub fn clear_all(&mut self)
        requires
            old(self).wf(),
        ensures
            final(self).wf(),
            final(self)@ == old(self)@.cleared(),
    {
        self.track_clear();
        self.log_flushdb();
    }

    /// `TTL`: the remaining lifetime of a key; a lapsed key is dropped.
    pub fn ttl_of(&mut self, key: &[u8], now: Clock) -> (ttl: TtlStatus)
        requires
            old(self).wf(),
        ensures
            final(self).wf(),
            final(self)@ == old(self)@.purged(key@, now),
            ttl == old(self)@.ttl(key@, now),
    {
        self.purge(key, now);
        match self.store.get(key) {
            None => TtlStatus::Missing,
            Some(entry) => match entry.expire_at {
                None => TtlStatus::NoExpire,
                Some(deadline) => TtlStatus::Millis(ms_until(deadline, now)),
            },
        }
    }

    /// `MEMORY USAGE`: the charge of one entry; a lapsed key is removed.
    pub fn memory_of(&mut self, key: &[u8], now: Clock) -> (cost: Option<u64>)
        requires
            old(self).wf(),
        ensures
            final(self).wf(),
            final(self)@ == old(self)@.measured(key@, now).1,
            same_cost(cost, old(self)@.measured(key@, now).0),
    {
        let mut lapsed: bool = false;
        let cost: Option<u64> = match self.store.get(key) {
            Some(entry) => if entry.is_expired(now.mono_ns as u128) {
                lapsed = true;
                None
            } else {
                Some(entry_bytes(key, entry))
            },
            None => None,
        };
        if lapsed {
            self.untrack(key);
            self.log_del(key);
        }
        cost
    }

    /// `STRLEN`: the length of a value, zero for an absent key. A lapsed key is
    /// dropped; nothing is counted.
    pub fn strlen_at(&mut self, key: &[u8], now: Clock) -> (len: usize)
        requires
            old(self).wf(),
        ensures
            final(self).wf(),
            final(self)@ == old(self)@.purged(key@, now),
            len == old(self)@.value_len(key@, now),
    {
        self.purge(key, now);
        match self.store.get(key) {
            Some(entry) => entry.data.len(),
            None => 0,
        }
    }

    /// `DBSIZE`: the number of live keys.
    pub fn dbsize_at(&self, now: Clock) -> (count: usize)
        ensures
            count == self@.live_keys(sorted_keys(self@.store), now).len(),
    {
        let n: usize = self.store.len();
        let ghost keys = sorted_keys(self.store@);
        let ghost live = |k: Seq<u8>| self@.live(k, now);
        let mut count: usize = 0;
        let mut i: usize = 0;
        assert(keys.take(0).filter(live).len() == 0) by {
            reveal(Seq::filter);
        }
        while i < n
            invariant
                i <= n,
                n == keys.len(),
                keys == sorted_keys(self.store@),
                lists_keys(keys, self.store@),
                live == (|k: Seq<u8>| self@.live(k, now)),
                count <= i,
                count == keys.take(i as int).filter(live).len(),
            decreases n - i,
        {
            proof {
                reveal(Seq::filter);
                assert(keys.take(i as int + 1).drop_last() =~= keys.take(i as int));
                assert(keys.contains(keys[i as int]));
                assert(self.store@.contains_key(keys[i as int]));
            }
            if !self.store.entry_at(i).is_expired(now.mono_ns as u128) {
                count += 1;
            }
            i += 1;
        }
        assert(keys.take(i as int) =~= keys);
        count
    }

    /// The live keys that match a pattern, at most [`SCAN_KEYS_LIMIT`].
    pub fn scan_keys_at(&self, pattern: &[u8], now: Clock) -> (found: Vec<Vec<u8>>)
        ensures
            vec_views(found@) == self@.scanned(pattern@, now),
    {
        let n: usize = self.store.len();
        let ghost keys = sorted_keys(self.store@);
        let ghost wanted = |k: Seq<u8>| self@.live(k, now) && glob(pattern@, k);
        let mut found: Vec<Vec<u8>> = Vec::new();
        let mut i: usize = 0;
        proof {
            reveal(Seq::filter);
            assert(keys.take(0).filter(wanted) =~= Seq::<Seq<u8>>::empty());
            assert(vec_views(found@) =~= Seq::<Seq<u8>>::empty());
        }
        while i < n && found.len() < SCAN_KEYS_LIMIT
            invariant
                i <= n,
                n == keys.len(),
                keys == sorted_keys(self.store@),
                lists_keys(keys, self.store@),
                wanted == (|k: Seq<u8>| self@.live(k, now) && glob(pattern@, k)),
                found.len() <= SCAN_KEYS_LIMIT,
                vec_views(found@) == keys.take(i as int).filter(wanted),
            decreases n - i,
        {
            proof {
                reveal(Seq::filter);
                assert(keys.take(i as int + 1).drop_last() =~= keys.take(i as int));
                assert(keys.contains(keys[i as int]));
                assert(self.store@.contains_key(keys[i as int]));
            }
            if !self.store.entry_at(i).is_expired(now.mono_ns as u128) {
                let key = self.store.key_at(i);
                if glob_match(pattern, key.as_slice()) {
                    let ghost before = vec_views(found@);
                    let ghost k = key@;
                    found.push(copied(key.as_slice()));
                    assert(vec_views(found@) =~= before.push(k));
                }
            }
            i += 1;
        }
        proof {
            lemma_filter_prefix(keys, wanted, i as int);
            assert(keys.take(n as int) =~= keys);
            assert(vec_views(found@) =~= at_most(keys.filter(wanted), SCAN_KEYS_LIMIT as int));
        }
        found
    }

    /// How many live keys have a deadline, and their mean remaining lifetime in
    /// milliseconds, rounded down; zero when there are none.
    pub fn expire_stats_at(&self, now: Clock) -> (stats: (usize, u64))
        ensures
            stats.0 == self@.timed_keys(now).len(),
            stats.1 == self@.mean_ttl(now),
    {
        let n: usize = self.store.len();
        let ghost keys = sorted_keys(self.store@);
        let ghost timed = |k: Seq<u8>| self@.live(k, now) && self@.store[k].expire_at is Some;
        let mut count: usize = 0;
        let mut sum_ms: u64 = 0;
        let mut i: usize = 0;
        proof {
            reveal(Seq::filter);
            assert(keys.take(0).filter(timed) =~= Seq::<Seq<u8>>::empty());
        }
        while i < n
            invariant
                i <= n,
                n == keys.len(),
                keys == sorted_keys(self.store@),
                lists_keys(keys, self.store@),
                timed == (|k: Seq<u8>| self@.live(k, now) && self@.store[k].expire_at is Some),
                count <= i,
                count == keys.take(i as int).filter(timed).len(),
                sum_ms == self@.lifetimes(keys.take(i as int).filter(timed), now),
            decreases n - i,
        {
            proof {
                reveal(Seq::filter);
                assert(keys.take(i as int + 1).drop_last() =~= keys.take(i as int));
                assert(keys.contains(keys[i as int]));
                assert(self.store@.contains_key(keys[i as int]));
            }
            let ghost before = keys.take(i as int).filter(timed);
            let entry = self.store.entry_at(i);
            if !entry.is_expired(now.mono_ns as u128) {
                if let Some(deadline) = entry.expire_at {
                    assert(before.push(keys[i as int]).drop_last() =~= before);
                    count += 1;
                    let left: u64 = ((deadline - now.mono_ns as u128) / 1_000_000) as u64;
                    sum_ms = sum_ms.saturating_add(left);
                }
            }
            i += 1;
        }
        assert(keys.take(i as int) =~= keys);
        (
            count,
            if count == 0 {
                0
            } else {
                sum_ms / count as u64
            },
        )
    }

    /// Active expiry: looks at up to `sample` keys from a random place on and
    /// drops those that have lapsed.
    pub fn sweep_expired_at(&mut self, sample: usize, now: Clock) -> (stats: SweepStats)
        requires
            old(self).wf(),
        ensures
            final(self).wf(),
            final(self)@ == swept_once(old(self)@, sample, now),
            counts_sweep(stats, old(self)@, sample, now),
    {
        if sample == 0 {
            return SweepStats { examined: 0, evicted: 0 };
        }
        let draw: u32 = self.next_draw();
        let n: usize = self.store.len();
        let start: usize = walk_start(draw, n);
        let ghost keys = sorted_keys(self.store@);
        let ghost walk = walk_from(keys, start as int);
        let ghost gone = |k: Seq<u8>| old(self)@.lapsed(k, now);
        let mut victims: Vec<Vec<u8>> = Vec::new();
        let mut examined: usize = 0;
        proof {
            reveal(Seq::filter);
            assert(walk.take(0).filter(gone) =~= Seq::<Seq<u8>>::empty());
            assert(vec_views(victims@) =~= Seq::<Seq<u8>>::empty());
        }
        while examined < n && examined < sample
            invariant
                examined <= n,
                examined <= sample,
                start <= n,
                n == keys.len(),
                self.wf(),
                self@ == old(self)@.drawn(),
                keys == sorted_keys(self.store@),
                lists_keys(keys, self.store@),
                walk == walk_from(keys, start as int),
                walk.len() == n,
                gone == (|k: Seq<u8>| old(self)@.lapsed(k, now)),
                vec_views(victims@) == walk.take(examined as int).filter(gone),
            decreases n - examined,
        {
            let at: usize = if examined < n - start {
                start + examined
            } else {
                examined - (n - start)
            };
            proof {
                reveal(Seq::filter);
                assert(walk.take(examined as int + 1).drop_last() =~= walk.take(examined as int));
                assert(walk.take(examined as int + 1).last() == keys[at as int]);
                assert(keys.contains(keys[at as int]));
                assert(self.store@.contains_key(keys[at as int]));
            }
            if self.store.entry_at(at).is_expired(now.mono_ns as u128) {
                let key = self.store.key_at(at);
                let ghost before = vec_views(victims@);
                let ghost k = key@;
                victims.push(copied(key.as_slice()));
                assert(vec_views(victims@) =~= before.push(k));
            }
            examined += 1;
        }
        let ghost looked = walk.take(examined as int);
        assert(looked =~= at_most(walk, sample as int));
        let evicted: usize = victims.len();
        let ghost dead = vec_views(victims@);
        let ghost base = self@;
        let mut i: usize = 0;
        while i < victims.len()
            invariant
                i <= victims.len(),
                dead == vec_views(victims@),
                self.wf(),
                self@ == base.dropped_all(dead.take(i as int)),
            decreases victims.len() - i,
        {
            assert(dead.take(i as int + 1).drop_last() =~= dead.take(i as int));
            assert(dead.take(i as int + 1).last() == dead[i as int]);
            let _removed = self.track_remove(victims[i].as_slice());
            self.log_del(victims[i].as_slice());
            i += 1;
        }
        assert(dead.take(i as int) =~= dead);
        SweepStats { examined, evicted }
    }
}

proof fn lemma_first_error(pairs: Seq<(Seq<u8>, Seq<u8>)>, n: int, e: ErrorView)
    requires
        0 <= n <= pairs.len(),
        first_error(pairs.take(n)) == Some(e),
    ensures
        first_error(pairs) == Some(e),
    decreases pairs.len() - n,
{
    if n < pairs.len() {
        assert(pairs.take(n + 1).drop_last() =~= pairs.take(n));
        lemma_first_error(pairs, n + 1, e);
    } else {
        assert(pairs.take(n) =~= pairs);
    }
}

proof fn lemma_filter_prefix(s: Seq<Seq<u8>>, pred: spec_fn(Seq<u8>) -> bool, n: int)
    requires
        0 <= n <= s.len(),
    ensures
        s.take(n).filter(pred).len() <= s.filter(pred).len(),
        s.take(n).filter(pred) == s.filter(pred).take(s.take(n).filter(pred).len() as int),
    decreases s.len(),
{
    reveal(Seq::filter);
    if n == s.len() {
        assert(s.take(n) =~= s);
        assert(s.filter(pred).take(s.filter(pred).len() as int) =~= s.filter(pred));
    } else {
        let front = s.drop_last();
        lemma_filter_prefix(front, pred, n);
        assert(front.take(n) =~= s.take(n));
        let k = s.take(n).filter(pred).len() as int;
        assert(front.filter(pred).take(k) =~= s.filter(pred).take(k));
    }
}

} // verus!
