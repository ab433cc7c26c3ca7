//! The commands, each at the clock's present reading.
//!
//! What a command does at a given reading is stated by its counterpart with a
//! [`Clock`](crate::clock::Clock) argument; here it holds for the reading that
//! the call made.

use vstd::prelude::*;
use vstd::string::*;

use crate::clock::Clock;
use crate::error::FerrumError;
use crate::persistence::resp::vec_views;
use crate::storage::engine::model::{sample_of, start_of, EngineView, TtlStatus};
use crate::storage::engine::operations::{
    counts_sweep, option_views, pair_views, same_cost, same_length, swept_once, SweepStats,
};
use crate::storage::engine::slowlog;
use crate::storage::engine::{
    bytes_view, sample_candidates, same_bytes_result, same_result, walk_start, KvEngine,
};
use crate::storage::eviction::{candidate_views, Candidate};
use crate::storage::keyspace::sorted_keys;

verus! {

/// Whether something holds of some reading of the clock. No reading stands before
/// the epoch.
pub open spec fn at_some_time(p: spec_fn(Clock) -> bool) -> bool {
    exists|now: Clock| #[trigger] p(now) && now.epoch_ms >= 0
}

impl KvEngine {
    /// `SET`: stores a value, clears any deadline, returns the value that was
    /// there.
    pub fn set(&mut self, key: Vec<u8>, value: Vec<u8>) -> (r: Result<Option<Vec<u8>>, FerrumError>)
        requires
            old(self).wf(),
        ensures
            final(self).wf(),
            at_some_time(
                |now: Clock|
                    final(self)@ == old(self)@.set(key@, value@, now).1
                        && same_bytes_result(r, old(self)@.set(key@, value@, now).0),
            ),
    {
        let now: Clock = self.now();
        let r: Result<Option<Vec<u8>>, FerrumError> = self.insert(key, value, now);
        proof {
            let p = |now: Clock|
                final(self)@ == old(self)@.set(key@, value@, now).1
                    && same_bytes_result(r, old(self)@.set(key@, value@, now).0);
            assert(p(now));
        }
        r
    }

    /// `SETNX`: stores a value only where no live key stands.
    pub fn set_nx(&mut self, key: Vec<u8>, value: Vec<u8>) -> (r: Result<bool, FerrumError>)
        requires
            old(self).wf(),
        ensures
            final(self).wf(),
            at_some_time(
                |now: Clock|
                    final(self)@ == old(self)@.set_nx(key@, value@, now).1
                        && same_result(r, old(self)@.set_nx(key@, value@, now).0),
            ),
    {
        let now: Clock = self.now();
        let r: Result<bool, FerrumError> = self.insert_nx(key, value, now);
        proof {
            let p = |now: Clock|
                final(self)@ == old(self)@.set_nx(key@, value@, now).1
                    && same_result(r, old(self)@.set_nx(key@, value@, now).0);
            assert(p(now));
        }
        r
    }

    /// `MSET`: stores every pair, or none if one of them is refused.
    pub fn mset(&mut self, pairs: Vec<(Vec<u8>, Vec<u8>)>) -> (r: Result<(), FerrumError>)
        requires
            old(self).wf(),
        ensures
            final(self).wf(),
            at_some_time(
                |now: Clock|
                    final(self)@ == old(self)@.mset(pair_views(pairs@), now).1
                        && same_result(r, old(self)@.mset(pair_views(pairs@), now).0),
            ),
    {
        let now: Clock = self.now();
        let r: Result<(), FerrumError> = self.insert_many(pairs, now);
        proof {
            let p = |now: Clock|
                final(self)@ == old(self)@.mset(pair_views(pairs@), now).1
                    && same_result(r, old(self)@.mset(pair_views(pairs@), now).0);
            assert(p(now));
        }
        r
    }

    /// `MGET`: the values of several keys, in order.
    pub fn mget(&mut self, keys: &[Vec<u8>]) -> (r: Result<Vec<Option<Vec<u8>>>, FerrumError>)
        requires
            old(self).wf(),
        ensures
            final(self).wf(),
            at_some_time(
                |now: Clock|
                    r is Ok && (option_views(r->Ok_0@), final(self)@)
                        == old(self)@.mget(vec_views(keys@), now),
            ),
    {
        let now: Clock = self.now();
        let r: Result<Vec<Option<Vec<u8>>>, FerrumError> = Ok(self.mget_at(keys, now));
        proof {
            let p = |now: Clock|
                r is Ok && (option_views(r->Ok_0@), final(self)@)
                    == old(self)@.mget(vec_views(keys@), now);
            assert(p(now));
        }
        r
    }

    /// `INCRBY`: adds to the integer under a key.
    pub fn incr_by(&mut self, key: Vec<u8>, delta: i64) -> (r: Result<i64, FerrumError>)
        requires
            old(self).wf(),
        ensures
            final(self).wf(),
            at_some_time(
                |now: Clock|
                    final(self)@ == old(self)@.incr_by(key@, delta, now).1
                        && same_result(r, old(self)@.incr_by(key@, delta, now).0),
            ),
    {
        let now: Clock = self.now();
        let r: Result<i64, FerrumError> = self.incr_by_at(key, delta, now);
        proof {
            let p = |now: Clock|
                final(self)@ == old(self)@.incr_by(key@, delta, now).1
                    && same_result(r, old(self)@.incr_by(key@, delta, now).0);
            assert(p(now));
        }
        r
    }

    /// `GET`: the value of a key.
    pub fn get(&mut self, key: &[u8]) -> (r: Result<Option<Vec<u8>>, FerrumError>)
        requires
            old(self).wf(),
        ensures
            final(self).wf(),
            at_some_time(
                |now: Clock|
                    r is Ok && (bytes_view(r->Ok_0), final(self)@) == old(self)@.fetched(key@, now),
            ),
    {
        let now: Clock = self.now();
        let r: Result<Option<Vec<u8>>, FerrumError> = Ok(self.fetch_live(key, now));
        proof {
            let p = |now: Clock|
                r is Ok && (bytes_view(r->Ok_0), final(self)@) == old(self)@.fetched(key@, now);
            assert(p(now));
        }
        r
    }

    /// `DEL`: removes a key and says whether it was live.
    pub fn del(&mut self, key: &[u8]) -> (r: Result<bool, FerrumError>)
        requires
            old(self).wf(),
        ensures
            final(self).wf(),
            at_some_time(
                |now: Clock|
                    r is Ok
                        && r->Ok_0 == old(self)@.live(key@, now)
                        && final(self)@ == old(self)@.deleted(key@, now),
            ),
    {
        let now: Clock = self.now();
        let r: Result<bool, FerrumError> = Ok(self.remove(key, now));
        proof {
            let p = |now: Clock|
                r is Ok
                    && r->Ok_0 == old(self)@.live(key@, now)
                    && final(self)@ == old(self)@.deleted(key@, now);
            assert(p(now));
        }
        r
    }

    /// `DEL` of several keys: how many of them were live.
    pub fn del_many(&mut self, keys: &[Vec<u8>]) -> (r: Result<usize, FerrumError>)
        requires
            old(self).wf(),
        ensures
            final(self).wf(),
            at_some_time(
                |now: Clock|
                    r is Ok
                        && (r->Ok_0 as nat, final(self)@) == old(self)@.del_many(
                            vec_views(keys@),
                            now,
                        ),
            ),
    {
        let now: Clock = self.now();
        let r: Result<usize, FerrumError> = Ok(self.remove_many(keys, now));
        proof {
            let p = |now: Clock|
                r is Ok
                    && (r->Ok_0 as nat, final(self)@) == old(self)@.del_many(vec_views(keys@), now);
            assert(p(now));
        }
        r
    }

    /// `EXISTS`: whether a key is live.
    pub fn key_exists(&mut self, key: &[u8]) -> (r: Result<bool, FerrumError>)
        requires
            old(self).wf(),
        ensures
            final(self).wf(),
            at_some_time(
                |now: Clock|
                    r is Ok && (r->Ok_0, final(self)@) == old(self)@.tested(key@, now),
            ),
    {
        let now: Clock = self.now();
        let r: Result<bool, FerrumError> = Ok(self.contains_live(key, now));
        proof {
            let p = |now: Clock| r is Ok && (r->Ok_0, final(self)@) == old(self)@.tested(key@, now);
            assert(p(now));
        }
        r
    }

    /// `EXISTS` of several keys: how many are live, repeats counted each time.
    pub fn exists_many(&mut self, keys: &[Vec<u8>]) -> (r: Result<usize, FerrumError>)
        requires
            old(self).wf(),
        ensures
            final(self).wf(),
            at_some_time(
                |now: Clock|
                    r is Ok
                        && (r->Ok_0 as nat, final(self)@) == old(self)@.exists_many(
                            vec_views(keys@),
                            now,
                        ),
            ),
    {
        let now: Clock = self.now();
        let r: Result<usize, FerrumError> = Ok(self.exists_many_at(keys, now));
        proof {
            let p = |now: Clock|
                r is Ok
                    && (r->Ok_0 as nat, final(self)@) == old(self)@.exists_many(
                        vec_views(keys@),
                        now,
                    );
            assert(p(now));
        }
        r
    }

    /// `DBSIZE`: the number of live keys.
    pub fn dbsize(&self) -> (r: Result<usize, FerrumError>)
        requires
            self.wf(),
        ensures
            at_some_time(
                |now: Clock|
                    r is Ok && r->Ok_0 == self@.live_keys(sorted_keys(self@.store), now).len(),
            ),
    {
        let now: Clock = self.now();
        let r: Result<usize, FerrumError> = Ok(self.dbsize_at(now));
        proof {
            let p = |now: Clock|
                r is Ok && r->Ok_0 == self@.live_keys(sorted_keys(self@.store), now).len();
            assert(p(now));
        }
        r
    }

    /// The live keys that match a glob pattern.
    pub fn scan_keys(&self, pattern: &[u8]) -> (r: Result<Vec<Vec<u8>>, FerrumError>)
        requires
            self.wf(),
        ensures
            at_some_time(
                |now: Clock|
                    r is Ok && vec_views(r->Ok_0@) == self@.scanned(pattern@, now),
            ),
    {
        let now: Clock = self.now();
        let r: Result<Vec<Vec<u8>>, FerrumError> = Ok(self.scan_keys_at(pattern, now));
        proof {
            let p = |now: Clock| r is Ok && vec_views(r->Ok_0@) == self@.scanned(pattern@, now);
            assert(p(now));
        }
        r
    }

    /// How many live keys have a deadline, and their mean remaining lifetime.
    pub fn expire_stats(&self) -> (r: Result<(usize, u64), FerrumError>)
        requires
            self.wf(),
        ensures
            at_some_time(
                |now: Clock|
                    r is Ok && r->Ok_0.0 == self@.timed_keys(now).len() && r->Ok_0.1
                        == self@.mean_ttl(now),
            ),
    {
        let now: Clock = self.now();
        let r: Result<(usize, u64), FerrumError> = Ok(self.expire_stats_at(now));
        proof {
            let p = |now: Clock|
                r is Ok && r->Ok_0.0 == self@.timed_keys(now).len() && r->Ok_0.1
                    == self@.mean_ttl(now);
            assert(p(now));
        }
        r
    }

    /// `APPEND`: extends a value and returns its new length.
    pub fn append(&mut self, key: Vec<u8>, suffix: Vec<u8>) -> (r: Result<usize, FerrumError>)
        requires
            old(self).wf(),
        ensures
            final(self).wf(),
            at_some_time(
                |now: Clock|
                    final(self)@ == old(self)@.append(key@, suffix@, now).1
                        && same_length(r, old(self)@.append(key@, suffix@, now).0),
            ),
    {
        let now: Clock = self.now();
        let r: Result<usize, FerrumError> = self.append_at(key, suffix, now);
        proof {
            let p = |now: Clock|
                final(self)@ == old(self)@.append(key@, suffix@, now).1
                    && same_length(r, old(self)@.append(key@, suffix@, now).0);
            assert(p(now));
        }
        r
    }

    /// `STRLEN`: the length of a value, zero for an absent key.
    pub fn strlen(&mut self, key: &[u8]) -> (r: Result<usize, FerrumError>)
        requires
            old(self).wf(),
        ensures
            final(self).wf(),
            at_some_time(
                |now: Clock|
                    r is Ok && final(self)@ == old(self)@.purged(key@, now)
                        && r->Ok_0 == old(self)@.value_len(key@, now),
            ),
    {
        let now: Clock = self.now();
        let r: Result<usize, FerrumError> = Ok(self.strlen_at(key, now));
        proof {
            let p = |now: Clock|
                r is Ok && final(self)@ == old(self)@.purged(key@, now)
                    && r->Ok_0 == old(self)@.value_len(key@, now);
            assert(p(now));
        }
        r
    }

    /// `FLUSHDB`: removes every key.
    pub fn flushdb(&mut self) -> (r: Result<(), FerrumError>)
        requires
            old(self).wf(),
        ensures
            final(self).wf(),
            r is Ok,
            final(self)@ == old(self)@.cleared(),
    {
        self.clear_all();
        Ok(())
    }

    /// `PEXPIREAT`: puts an absolute deadline on a live key.
    pub fn expire_at_ms(&mut self, key: &[u8], abs_epoch_ms: i64) -> (r: Result<bool, FerrumError>)
        requires
            old(self).wf(),
        ensures
            final(self).wf(),
            at_some_time(
                |now: Clock|
                    r is Ok
                        && (r->Ok_0, final(self)@) == old(self)@.expire_at(key@, abs_epoch_ms, now),
            ),
    {
        let now: Clock = self.now();
        let r: Result<bool, FerrumError> = Ok(self.expire_at(key, abs_epoch_ms, now));
        proof {
            let p = |now: Clock|
                r is Ok && (r->Ok_0, final(self)@) == old(self)@.expire_at(key@, abs_epoch_ms, now);
            assert(p(now));
        }
        r
    }

    /// `PERSIST`: takes the deadline off a live key.
    pub fn persist(&mut self, key: &[u8]) -> (r: Result<bool, FerrumError>)
        requires
            old(self).wf(),
        ensures
            final(self).wf(),
            at_some_time(
                |now: Clock|
                    r is Ok && (r->Ok_0, final(self)@) == old(self)@.persist(key@, now),
            ),
    {
        let now: Clock = self.now();
        let r: Result<bool, FerrumError> = Ok(self.persist_at(key, now));
        proof {
            let p = |now: Clock|
                r is Ok && (r->Ok_0, final(self)@) == old(self)@.persist(key@, now);
            assert(p(now));
        }
        r
    }

    /// `TTL`: the remaining lifetime of a key.
    pub fn ttl_ms(&mut self, key: &[u8]) -> (r: Result<TtlStatus, FerrumError>)
        requires
            old(self).wf(),
        ensures
            final(self).wf(),
            at_some_time(
                |now: Clock|
                    r is Ok
                        && r->Ok_0 == old(self)@.ttl(key@, now)
                        && final(self)@ == old(self)@.purged(key@, now),
            ),
    {
        let now: Clock = self.now();
        let r: Result<TtlStatus, FerrumError> = Ok(self.ttl_of(key, now));
        proof {
            let p = |now: Clock|
                r is Ok
                    && r->Ok_0 == old(self)@.ttl(key@, now)
                    && final(self)@ == old(self)@.purged(key@, now);
            assert(p(now));
        }
        r
    }

    /// `MEMORY USAGE`: the charge of one entry.
    pub fn memory_usage(&mut self, key: &[u8]) -> (r: Result<Option<u64>, FerrumError>)
        requires
            old(self).wf(),
        ensures
            final(self).wf(),
            at_some_time(
                |now: Clock|
                    r is Ok && final(self)@ == old(self)@.measured(key@, now).1
                        && same_cost(r->Ok_0, old(self)@.measured(key@, now).0),
            ),
    {
        let now: Clock = self.now();
        let r: Result<Option<u64>, FerrumError> = Ok(self.memory_of(key, now));
        proof {
            let p = |now: Clock|
                r is Ok && final(self)@ == old(self)@.measured(key@, now).1
                    && same_cost(r->Ok_0, old(self)@.measured(key@, now).0);
            assert(p(now));
        }
        r
    }

    /// Active expiry of up to `sample` keys.
    pub fn sweep_expired(&mut self, sample: usize) -> (r: Result<SweepStats, FerrumError>)
        requires
            old(self).wf(),
        ensures
            final(self).wf(),
            at_some_time(
                |now: Clock|
                    r is Ok && final(self)@ == swept_once(old(self)@, sample, now)
                        && counts_sweep(r->Ok_0, old(self)@, sample, now),
            ),
    {
        let now: Clock = self.now();
        let r: Result<SweepStats, FerrumError> = Ok(self.sweep_expired_at(sample, now));
        proof {
            let p = |now: Clock|
                r is Ok && final(self)@ == swept_once(old(self)@, sample, now)
                    && counts_sweep(r->Ok_0, old(self)@, sample, now);
            assert(p(now));
        }
        r
    }

    /// Records a command in the slow log, stamped with the present second.
    pub fn maybe_push_slowlog(
        &mut self,
        command_args: Vec<Vec<u8>>,
        peer: Option<String>,
        duration_us: u64,
    )
        requires
            old(self).wf(),
        ensures
            final(self).wf(),
            exists|ts_secs: u64|
                final(self)@ == (EngineView {
                    slow: #[trigger] old(self)@.slow.pushed(
                        vec_views(command_args@),
                        slowlog::text_view(peer),
                        duration_us,
                        ts_secs,
                    ),
                    ..old(self)@
                }),
    {
        let now: Clock = self.now();
        self.maybe_push_slowlog_at(command_args, peer, duration_us, now.epoch_ms as u64 / 1000);
    }

    /// Whether a write needs a victim whose score the caller computes.
    ///
    /// Under the adaptive hybrid policies the caller ranks candidates by a score
    /// of its own. A sample comes back when the policy is one of these and
    /// `incoming` more bytes would not fit; the caller passes its choice to
    /// [`KvEngine::evict_chosen`] and asks again. Without such a choice the write
    /// itself falls back to the least frequently used key of its sample.
    pub fn eviction_request(&mut self, incoming: u64) -> (sample: Option<Vec<Candidate>>)
        requires
            old(self).wf(),
        ensures
            final(self).wf(),
            match sample {
                Some(c) => old(self)@.cfg.policy.adaptive_hybrid() && !old(self)@.fits(
                    incoming as int,
                ) && final(self)@ == old(self)@.drawn() && candidate_views(c@) == sample_of(
                    old(self)@.store,
                    old(self)@.cfg.policy.scope_of(),
                    old(self)@.cfg.samples as int,
                    start_of(old(self)@.draw(), sorted_keys(old(self)@.store).len()),
                ),
                None => final(self)@ == old(self)@ && (!old(self)@.cfg.policy.adaptive_hybrid()
                    || old(self)@.fits(incoming as int)),
            },
    {
        if !self.eviction.policy.is_adaptive_hybrid() {
            return None;
        }
        if self.fits(incoming) {
            return None;
        }
        let draw: u32 = self.next_draw();
        let start: usize = walk_start(draw, self.store.len());
        Some(
            sample_candidates(
                &self.store,
                self.eviction.policy.scope(),
                self.eviction.samples,
                start,
            ),
        )
    }

    /// Evicts the key that the caller chose and logs its removal; says whether
    /// the key was there.
    pub fn evict_chosen(&mut self, key: &[u8]) -> (done: bool)
        requires
            old(self).wf(),
        ensures
            final(self).wf(),
            done == old(self)@.store.contains_key(key@),
            final(self)@ == (if done {
                old(self)@.dropped(key@)
            } else {
                old(self)@
            }),
    {
        if !self.store.contains_key(key) {
            return false;
        }
        let _removed = self.track_remove(key);
        self.log_del(key);
        true
    }
}

} // verus!
