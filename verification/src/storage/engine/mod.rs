//! The key-value engine.
//!
//! Keys and values are byte strings. Each value may carry a deadline; lapsed
//! entries are removed when they are met and by the periodic sweep. Changes go
//! to the attached log in the order in which they take effect. A memory limit
//! is kept by evicting keys under the configured policy.
//!
//! Every command has two forms. The one with a [`Clock`] argument states its
//! effect for that reading of the clock; the plain one reads the clock itself.


pub mod charges;
pub mod commands;
pub mod durability;
pub mod glob;
pub mod laws;
pub mod memory;
pub mod model;
pub mod operations;
pub mod rewrite;
pub mod room;
pub mod selection;
pub mod sight;
pub mod slowlog;
pub mod validity;

pub use model::TtlStatus;
pub use operations::SweepStats;

use vstd::prelude::*;
use vstd::string::*;

use crate::clock::{rng_seed, xorshift32, Clock, SystemClock};
use crate::error::{ErrorView, FerrumError};
use crate::persistence::record::Record;
use crate::persistence::writer::AofWriter;
use crate::storage::adaptive_climb::AdaptiveClimbState;
use crate::storage::engine::memory::{lemma_total_bound, lemma_total_insert, lemma_total_remove};
use crate::storage::engine::model::{
    at_most, candidate_of, entry_cost, key_error, pair_error, sample_of, start_of, total_cost,
    value_error, walk_from, EngineView, EVICTION_SLACK, KEY_MAX_BYTES, PER_ENTRY_OVERHEAD,
    VALUE_MAX_BYTES,
};
use crate::storage::engine::slowlog::SlowLog;
use crate::storage::entry::{EntryView, ValueEntry};
use crate::storage::eviction::{
    candidate_views, pick_victim, Candidate, EvictionConfig, EvictionPolicy, EvictionScope,
};
use crate::storage::keyspace::{sorted_keys, Keyspace};
use crate::storage::sieve::{entry_in_scope, scope_keys, SieveState};

verus! {

broadcast use vstd::map::group_map_axioms;

/// The engine.
pub struct KvEngine {
    store: Keyspace,
    aof: Option<AofWriter>,
    used: u128,
    eviction: EvictionConfig,
    hits: u64,
    misses: u64,
    sieve: SieveState,
    ac: AdaptiveClimbState,
    auth_password: Option<Vec<u8>>,
    rng: u32,
    slowlog: SlowLog,
    ahe_alpha_milli: u16,
    clock: SystemClock,
}

/// The view of an optional byte string.
pub open spec fn bytes_view(o: Option<Vec<u8>>) -> Option<Seq<u8>> {
    match o {
        Some(v) => Some(v@),
        None => None,
    }
}

/// A result and its model agree.
pub open spec fn same_result<T>(r: Result<T, FerrumError>, m: Result<T, ErrorView>) -> bool {
    match (r, m) {
        (Ok(a), Ok(b)) => a == b,
        (Err(e), Err(f)) => e@ == f,
        _ => false,
    }
}

/// A result with an optional byte string and its model agree.
pub open spec fn same_bytes_result(
    r: Result<Option<Vec<u8>>, FerrumError>,
    m: Result<Option<Seq<u8>>, ErrorView>,
) -> bool {
    match (r, m) {
        (Ok(a), Ok(b)) => bytes_view(a) == b,
        (Err(e), Err(f)) => e@ == f,
        _ => false,
    }
}

impl View for KvEngine {
    type V = EngineView;

    closed spec fn view(&self) -> EngineView {
        EngineView {
            store: self.store@,
            log: match self.aof {
                Some(a) => Some(a@),
                None => None,
            },
            cfg: self.eviction,
            hits: self.hits,
            misses: self.misses,
            sieve: self.sieve@,
            climb: self.ac@,
            password: bytes_view(self.auth_password),
            rng: self.rng,
            slow: self.slowlog@,
            alpha_milli: self.ahe_alpha_milli,
        }
    }
}

/// Checks that a key is neither empty nor too long.
pub fn validate_key(key: &[u8]) -> (r: Result<(), FerrumError>)
    ensures
        match r {
            Ok(_) => key_error(key@) is None,
            Err(e) => key_error(key@) == Some(e@),
        },
{
    let len: usize = key.len();
    if len == 0 {
        return Err(FerrumError::ParseError("key must not be empty".to_owned()));
    }
    if len > KEY_MAX_BYTES {
        return Err(FerrumError::KeyTooLong { len, max: KEY_MAX_BYTES });
    }
    Ok(())
}

/// Checks that a value is not too large.
pub fn validate_value(value: &[u8]) -> (r: Result<(), FerrumError>)
    ensures
        match r {
            Ok(_) => value_error(value@) is None,
            Err(e) => value_error(value@) == Some(e@),
        },
{
    let len: usize = value.len();
    if len > VALUE_MAX_BYTES {
        return Err(FerrumError::ValueTooLarge { len, max: VALUE_MAX_BYTES });
    }
    Ok(())
}

/// The bytes that an entry is charged with.
pub fn entry_bytes(key: &[u8], entry: &ValueEntry) -> (cost: u64)
    requires
        pair_error(key@, entry@.data) is None,
    ensures
        cost == entry_cost(key@, entry@.data.len()),
{
    key.len() as u64 + entry.data.len() as u64 + PER_ENTRY_OVERHEAD
}

proof fn lemma_scope_step(
    store: Map<Seq<u8>, EntryView>,
    scope: EvictionScope,
    keys: Seq<Seq<u8>>,
    i: int,
)
    requires
        0 <= i <= keys.len(),
    ensures
        scope_keys(store, scope, keys.take(i)).len() <= scope_keys(store, scope, keys).len(),
        scope_keys(store, scope, keys.take(i)) == scope_keys(store, scope, keys).take(
            scope_keys(store, scope, keys.take(i)).len() as int,
        ),
    decreases keys.len(),
{
    let all = scope_keys(store, scope, keys);
    if i == keys.len() {
        assert(keys.take(i) =~= keys);
        assert(all.take(all.len() as int) =~= all);
    } else {
        let front = keys.drop_last();
        lemma_scope_step(store, scope, front, i);
        assert(front.take(i) =~= keys.take(i));
        let n = scope_keys(store, scope, keys.take(i)).len() as int;
        assert(scope_keys(store, scope, front).take(n) =~= all.take(n));
    }
}

/// Samples up to `sample` keys in scope, on a walk that starts at index `start`
/// and goes round.
pub fn sample_candidates(
    store: &Keyspace,
    scope: EvictionScope,
    sample: usize,
    start: usize,
) -> (out: Vec<Candidate>)
    requires
        start <= sorted_keys(store@).len(),
    ensures
        candidate_views(out@) == sample_of(store@, scope, sample as int, start as int),
{
    let len: usize = store.len();
    let ghost keys = sorted_keys(store@);
    let ghost walk = walk_from(keys, start as int);
    let ghost pick = |k: Seq<u8>| candidate_of(store@, k);
    let mut out: Vec<Candidate> = Vec::new();
    let mut i: usize = 0;
    assert(scope_keys(store@, scope, walk.take(0)) =~= Seq::<Seq<u8>>::empty());
    assert(candidate_views(out@) =~= scope_keys(store@, scope, walk.take(0)).map_values(pick));
    while i < len && out.len() < sample
        invariant
            i <= len,
            start <= len,
            len == keys.len(),
            keys == sorted_keys(store@),
            walk == walk_from(keys, start as int),
            walk.len() == len,
            out.len() <= sample,
            pick == (|k: Seq<u8>| candidate_of(store@, k)),
            candidate_views(out@) == scope_keys(store@, scope, walk.take(i as int)).map_values(
                pick,
            ),
        decreases len - i,
    {
        let at: usize = if i < len - start {
            start + i
        } else {
            i - (len - start)
        };
        let ghost shorter = walk.take(i as int);
        let ghost longer = walk.take(i as int + 1);
        assert(longer.drop_last() =~= shorter);
        assert(longer.last() == keys[at as int]);
        let entry = store.entry_at(at);
        if entry_in_scope(scope, entry) {
            let c = Candidate {
                key: crate::bytes::copied(store.key_at(at).as_slice()),
                last_access: Some(entry.last_access),
                expire_at: entry.expire_at,
                lfu_counter: entry.lfu_counter,
            };
            let ghost before = candidate_views(out@);
            assert(c@ == pick(keys[at as int]));
            out.push(c);
            assert(candidate_views(out@) =~= before.push(c@));
            assert(candidate_views(out@) =~= scope_keys(store@, scope, longer).map_values(pick));
        }
        i += 1;
    }
    proof {
        let all = scope_keys(store@, scope, walk);
        lemma_scope_step(store@, scope, walk, i as int);
        if i == len {
            assert(walk.take(i as int) =~= walk);
        }
        assert(candidate_views(out@) =~= at_most(all, sample as int).map_values(pick));
    }
    out
}

impl Default for KvEngine {
    fn default() -> (e: KvEngine)
        ensures
            e.wf(),
            exists|rng: u32| e@ == #[trigger] EngineView::initial(rng),
    {
        KvEngine::new()
    }
}

impl KvEngine {
    /// The invariant: the model's, and a memory counter that equals the charge
    /// of what is stored.
    pub closed spec fn wf(&self) -> bool {
        self@.wf() && self.used == total_cost(self.store@)
    }

    /// The state of a valid engine is valid.
    pub proof fn law_valid_state(&self)
        requires
            self.wf(),
        ensures
            self@.wf(),
    {
    }

    /// An empty engine without a log, a password or a memory limit.
    pub fn new() -> (e: KvEngine)
        ensures
            e.wf(),
            exists|rng: u32| e@ == #[trigger] EngineView::initial(rng),
    {
        let e = KvEngine {
            store: Keyspace::new(),
            aof: None,
            used: 0,
            eviction: EvictionConfig {
                max_memory: 0,
                policy: EvictionPolicy::NoEviction,
                samples: 5,
            },
            hits: 0,
            misses: 0,
            sieve: SieveState::new(),
            ac: AdaptiveClimbState::new(),
            auth_password: None,
            rng: rng_seed(),
            slowlog: SlowLog::new(),
            ahe_alpha_milli: 500,
            clock: SystemClock::new(),
        };
        assert(e@ =~= EngineView::initial(e.rng));
        e
    }

    /// Attaches a log.
    pub fn with_aof(self, writer: AofWriter) -> (e: KvEngine)
        requires
            self.wf(),
        ensures
            e.wf(),
            e@ == (EngineView { log: Some(writer@), ..self@ }),
    {
        let mut e = self;
        e.aof = Some(writer);
        e
    }

    /// What the log still has to write to its file.
    pub fn take_log(&mut self) -> (bytes: Option<Vec<u8>>)
        requires
            old(self).wf(),
        ensures
            final(self).wf(),
            match bytes {
                Some(b) => old(self)@.log matches Some(a) && b@ == a.pending && final(self)@ == (
                EngineView {
                    log: Some(
                        crate::persistence::writer::AofView { pending: Seq::empty(), ..a },
                    ),
                    ..old(self)@
                }),
                None => old(self)@.log is None && final(self)@ == old(self)@,
            },
    {
        match &mut self.aof {
            Some(a) => Some(a.take_pending()),
            None => None,
        }
    }

    /// The memory charge of what is stored, or the largest number when it does
    /// not fit.
    pub fn used_memory(&self) -> (used: u64)
        requires
            self.wf(),
        ensures
            used == (if total_cost(self@.store) <= u64::MAX {
                total_cost(self@.store)
            } else {
                u64::MAX as int
            }),
    {
        if self.used <= 0xffff_ffff_ffff_ffff {
            self.used as u64
        } else {
            u64::MAX
        }
    }

    /// The reads that found a live key and those that did not.
    pub fn keyspace_stats(&self) -> (stats: (u64, u64))
        ensures
            stats == (self@.hits, self@.misses),
    {
        (self.hits, self.misses)
    }

    /// The eviction configuration.
    pub fn eviction_config(&self) -> (r: Result<EvictionConfig, FerrumError>)
        ensures
            r matches Ok(cfg) && cfg == self@.cfg,
    {
        Ok(self.eviction)
    }

    /// The eviction configuration.
    pub fn config(&self) -> (cfg: EvictionConfig)
        ensures
            cfg == self@.cfg,
    {
        self.eviction
    }

    /// Replaces the eviction configuration. A policy with a structure of its
    /// own starts from the present keys.
    pub fn set_eviction_config(&mut self, cfg: EvictionConfig) -> (r: Result<(), FerrumError>)
        requires
            old(self).wf(),
        ensures
            final(self).wf(),
            r is Ok,
            final(self)@ == old(self)@.configured(cfg),
    {
        if cfg.policy.is_sieve() {
            self.sieve.rebuild(&self.store, cfg.policy.scope());
            self.ac.clear();
        } else if cfg.policy.is_adaptive_climb() {
            self.ac.rebuild(&self.store, cfg.policy.scope());
            self.sieve.clear();
        } else {
            self.sieve.clear();
            self.ac.clear();
        }
        self.eviction = cfg;
        Ok(())
    }

    /// Replaces the password; `None` switches authentication off.
    pub fn set_requirepass(&mut self, pw: Option<Vec<u8>>) -> (r: Result<(), FerrumError>)
        requires
            old(self).wf(),
        ensures
            final(self).wf(),
            r is Ok,
            final(self)@ == (EngineView { password: bytes_view(pw), ..old(self)@ }),
    {
        self.auth_password = pw;
        Ok(())
    }

    /// A copy of the password.
    pub fn requirepass(&self) -> (r: Result<Option<Vec<u8>>, FerrumError>)
        ensures
            r matches Ok(pw) && bytes_view(pw) == self@.password,
    {
        match &self.auth_password {
            Some(pw) => Ok(Some(crate::bytes::copied(pw.as_slice()))),
            None => Ok(None),
        }
    }

    /// Checks a password. It is an error when none is configured.
    pub fn authenticate(&self, provided: &[u8]) -> (r: Result<bool, FerrumError>)
        ensures
            same_result(r, self@.authenticated(provided@)),
    {
        match &self.auth_password {
            Some(expected) => Ok(crate::bytes::same_bytes(provided, expected.as_slice())),
            None => Err(
                FerrumError::ParseError("Client sent AUTH, but no password is set".to_owned()),
            ),
        }
    }

    /// Whether the slow log can record anything.
    pub fn slowlog_active(&self) -> (yes: bool)
        ensures
            yes == (self@.slow.threshold_us != 0),
    {
        self.slowlog.is_active()
    }

    /// Records a command in the slow log if it ran longer than the threshold.
    pub fn maybe_push_slowlog_at(
        &mut self,
        command_args: Vec<Vec<u8>>,
        peer: Option<String>,
        duration_us: u64,
        ts_secs: u64,
    )
        requires
            old(self).wf(),
        ensures
            final(self).wf(),
            final(self)@ == (EngineView {
                slow: old(self)@.slow.pushed(
                    crate::persistence::resp::vec_views(command_args@),
                    slowlog::text_view(peer),
                    duration_us,
                    ts_secs,
                ),
                ..old(self)@
            }),
    {
        self.slowlog.push(command_args, peer, duration_us, ts_secs);
    }

    /// Up to `count` slow-log entries, newest first.
    pub fn slowlog_get(&self, count: Option<usize>) -> (entries: Vec<slowlog::SlowLogEntry>)
        ensures
            entries.len() == (match count {
                Some(n) if n < self@.slow.ring.len() => n as int,
                _ => self@.slow.ring.len() as int,
            }),
            forall|i: int|
                0 <= i < entries.len() ==> (#[trigger] entries@[i])@
                    == self@.slow.ring[self@.slow.ring.len() - 1 - i],
    {
        self.slowlog.get(count)
    }

    /// The number of slow-log entries.
    pub fn slowlog_len(&self) -> (n: usize)
        ensures
            n == self@.slow.ring.len(),
    {
        self.slowlog.len()
    }

    /// Empties the slow log.
    pub fn slowlog_reset(&mut self)
        requires
            old(self).wf(),
        ensures
            final(self).wf(),
            final(self)@ == (EngineView {
                slow: slowlog::SlowLogView { ring: Seq::empty(), ..old(self)@.slow },
                ..old(self)@
            }),
    {
        self.slowlog.reset();
    }

    pub fn slowlog_threshold_us(&self) -> (us: i64)
        ensures
            us == self@.slow.threshold_us,
    {
        self.slowlog.threshold_us()
    }

    pub fn slowlog_max_len(&self) -> (n: u64)
        ensures
            n == self@.slow.max_len,
    {
        self.slowlog.max_len()
    }

    pub fn set_slowlog_threshold_us(&mut self, us: i64)
        requires
            old(self).wf(),
        ensures
            final(self).wf(),
            final(self)@ == (EngineView {
                slow: slowlog::SlowLogView { threshold_us: us, ..old(self)@.slow },
                ..old(self)@
            }),
    {
        self.slowlog.set_threshold_us(us);
    }

    pub fn set_slowlog_max_len(&mut self, n: u64)
        requires
            old(self).wf(),
        ensures
            final(self).wf(),
            final(self)@ == (EngineView {
                slow: slowlog::SlowLogView { max_len: n, ..old(self)@.slow },
                ..old(self)@
            }),
    {
        self.slowlog.set_max_len(n);
    }

    /// The published weight of the adaptive hybrid policy, in thousandths.
    pub fn ahe_alpha_milli(&self) -> (milli: u16)
        ensures
            milli == self@.alpha_milli,
    {
        self.ahe_alpha_milli
    }

    /// Publishes the weight that the adaptive hybrid policy currently uses.
    pub fn set_ahe_alpha_milli(&mut self, milli: u16)
        requires
            old(self).wf(),
        ensures
            final(self).wf(),
            final(self)@ == (EngineView { alpha_milli: milli, ..old(self)@ }),
    {
        self.ahe_alpha_milli = milli;
    }

    /// Reads the clock.
    pub fn now(&self) -> (now: Clock)
        ensures
            now.epoch_ms >= 0,
    {
        self.clock.read()
    }

    fn next_draw(&mut self) -> (draw: u32)
        requires
            old(self).wf(),
        ensures
            final(self).wf(),
            final(self)@ == old(self)@.drawn(),
            draw == old(self)@.draw(),
            final(self).used == old(self).used,
    {
        proof {
            crate::clock::law_xorshift_stays_nonzero(self.rng);
        }
        self.rng = xorshift32(self.rng);
        self.rng >> 8u32
    }

    fn log_put(&mut self, key: &[u8], value: &[u8])
        requires
            old(self).wf(),
        ensures
            final(self).wf(),
            final(self)@ == old(self)@.logged(Record::Put { key: key@, value: value@ }),
    {
        match &mut self.aof {
            Some(a) => a.append_set(key, value),
            None => {},
        }
    }

    fn log_del(&mut self, key: &[u8])
        requires
            old(self).wf(),
        ensures
            final(self).wf(),
            final(self)@ == old(self)@.logged(Record::Del { key: key@ }),
    {
        match &mut self.aof {
            Some(a) => a.append_del(key),
            None => {},
        }
    }

    fn log_flushdb(&mut self)
        requires
            old(self).wf(),
        ensures
            final(self).wf(),
            final(self)@ == old(self)@.logged(Record::FlushDb),
    {
        match &mut self.aof {
            Some(a) => a.append_flushdb(),
            None => {},
        }
    }

    fn log_pexpireat(&mut self, key: &[u8], at: i64)
        requires
            old(self).wf(),
        ensures
            final(self).wf(),
            final(self)@ == old(self)@.logged(Record::PExpireAt { key: key@, at }),
    {
        match &mut self.aof {
            Some(a) => a.append_pexpireat(key, at),
            None => {},
        }
    }

    fn log_persist(&mut self, key: &[u8])
        requires
            old(self).wf(),
        ensures
            final(self).wf(),
            final(self)@ == old(self)@.logged(Record::Persist { key: key@ }),
    {
        match &mut self.aof {
            Some(a) => a.append_persist(key),
            None => {},
        }
    }

    fn record_hit(&mut self)
        requires
            old(self).wf(),
        ensures
            final(self).wf(),
            final(self)@ == old(self)@.hit(),
    {
        self.hits = self.hits.wrapping_add(1);
    }

    fn record_miss(&mut self)
        requires
            old(self).wf(),
        ensures
            final(self).wf(),
            final(self)@ == old(self)@.missed(),
    {
        self.misses = self.misses.wrapping_add(1);
    }

    /// Removes a key, keeps the memory counter in step and tells the eviction
    /// structures. Nothing else happens when the key is absent.
    fn track_remove(&mut self, key: &[u8]) -> (removed: Option<ValueEntry>)
        requires
            old(self).wf(),
        ensures
            final(self).wf(),
            final(self)@ == old(self)@.forgotten(key@),
            match removed {
                Some(e) => old(self)@.store.contains_key(key@) && e@ == old(self)@.store[key@],
                None => !old(self)@.store.contains_key(key@),
            },
    {
        let removed = self.store.remove(key);
        match &removed {
            Some(entry) => {
                proof {
                    lemma_total_remove(old(self)@.store, key@);
                    assert forall|k: Seq<u8>| #[trigger]
                        self.store@.contains_key(k) implies pair_error(
                        k,
                        self.store@[k].data,
                    ) is None by {
                        assert(old(self)@.store.contains_key(k));
                    }
                    lemma_total_bound(self.store@);
                }
                self.used = self.used - entry_bytes(key, entry) as u128;
            },
            None => {
                assert(self.store@ =~= old(self)@.store);
            },
        }
        self.sieve.observe_remove(key);
        self.ac.observe_remove(key);
        removed
    }

    /// Removes a key from the store and the memory counter only.
    fn untrack(&mut self, key: &[u8])
        requires
            old(self).wf(),
        ensures
            final(self).wf(),
            final(self)@ == (EngineView {
                store: old(self)@.store.remove(key@),
                ..old(self)@
            }),
    {
        let removed = self.store.remove(key);
        match &removed {
            Some(entry) => {
                proof {
                    lemma_total_remove(old(self)@.store, key@);
                    assert forall|k: Seq<u8>| #[trigger]
                        self.store@.contains_key(k) implies pair_error(
                        k,
                        self.store@[k].data,
                    ) is None by {
                        assert(old(self)@.store.contains_key(k));
                    }
                    lemma_total_bound(self.store@);
                }
                self.used = self.used - entry_bytes(key, entry) as u128;
            },
            None => {
                assert(self.store@ =~= old(self)@.store);
            },
        }
    }

    /// Stores an entry, keeps the memory counter in step and tells the eviction
    /// structures.
    fn track_insert(&mut self, key: Vec<u8>, entry: ValueEntry) -> (previous: Option<ValueEntry>)
        requires
            old(self).wf(),
            pair_error(key@, entry@.data) is None,
        ensures
            final(self).wf(),
            final(self)@ == old(self)@.stored(key@, entry@),
            match previous {
                Some(e) => old(self)@.store.contains_key(key@) && e@ == old(self)@.store[key@],
                None => !old(self)@.store.contains_key(key@),
            },
    {
        let n: usize = self.store.len();
        let incoming: u64 = entry_bytes(key.as_slice(), &entry);
        let ghost k = key@;
        let ghost e = entry@;
        proof {
            lemma_total_insert(self.store@, k, e);
            lemma_total_bound(self.store@);
            let rest = self.store@.remove(k);
            assert forall|x: Seq<u8>| #[trigger] rest.contains_key(x) implies pair_error(
                x,
                rest[x].data,
            ) is None by {
                assert(self.store@.contains_key(x));
            }
            lemma_total_bound(rest);
            assert(n * (KEY_MAX_BYTES + VALUE_MAX_BYTES + PER_ENTRY_OVERHEAD)
                <= 0xffff_ffff_ffff_ffff * 16_842_800) by (nonlinear_arith)
                requires
                    0 <= n <= 0xffff_ffff_ffff_ffff,
                    KEY_MAX_BYTES == 65_536,
                    VALUE_MAX_BYTES == 16_777_216,
                    PER_ENTRY_OVERHEAD == 48,
            ;
        }
        let copy: Vec<u8> = crate::bytes::copied(key.as_slice());
        let previous = self.store.insert(key, entry);
        let outgoing: u64 = match &previous {
            Some(p) => entry_bytes(copy.as_slice(), p),
            None => 0,
        };
        self.used = self.used - outgoing as u128 + incoming as u128;
        self.sieve.observe_insert(copy.as_slice());
        self.ac.observe_insert(copy.as_slice());
        proof {
            assert forall|x: Seq<u8>| #[trigger] self.store@.contains_key(x) implies pair_error(
                x,
                self.store@[x].data,
            ) is None by {
                if x != k {
                    assert(old(self)@.store.contains_key(x));
                }
            }
        }
        previous
    }

    /// Records an access to a stored key.
    fn touch_access(&mut self, key: &[u8], now: Clock)
        requires
            old(self).wf(),
            old(self)@.store.contains_key(key@),
        ensures
            final(self).wf(),
            final(self)@ == old(self)@.touched(key@, now),
    {
        let draw: u32 = self.next_draw();
        let ghost e = self.store@[key@].touched(now, draw);
        proof {
            lemma_total_insert(self.store@, key@, e);
        }
        self.store.touch(key, now, draw);
        self.sieve.observe_access(key);
        self.ac.observe_access(key);
        proof {
            assert forall|x: Seq<u8>| #[trigger] self.store@.contains_key(x) implies pair_error(
                x,
                self.store@[x].data,
            ) is None by {
                assert(old(self)@.store.contains_key(x));
            }
        }
    }

    /// Sets or clears the deadline of a stored key.
    fn set_deadline(&mut self, key: &[u8], deadline: Option<u128>)
        requires
            old(self).wf(),
            old(self)@.store.contains_key(key@),
        ensures
            final(self).wf(),
            final(self)@ == old(self)@.with_deadline(key@, deadline),
    {
        let ghost e = EntryView { expire_at: deadline, ..self.store@[key@] };
        proof {
            lemma_total_insert(self.store@, key@, e);
        }
        self.store.set_deadline(key, deadline);
        proof {
            assert forall|x: Seq<u8>| #[trigger] self.store@.contains_key(x) implies pair_error(
                x,
                self.store@[x].data,
            ) is None by {
                assert(old(self)@.store.contains_key(x));
            }
        }
    }

    /// Removes every key.
    fn track_clear(&mut self)
        requires
            old(self).wf(),
        ensures
            final(self).wf(),
            final(self)@ == (EngineView {
                store: Map::empty(),
                sieve: crate::storage::sieve::SieveView::empty(),
                climb: crate::storage::adaptive_climb::ClimbView::empty(),
                ..old(self)@
            }),
    {
        self.store.clear();
        self.sieve.clear();
        self.ac.clear();
        self.used = 0;
    }

    /// Whether `incoming` more bytes stay within the memory limit.
    fn fits(&self, incoming: u64) -> (yes: bool)
        requires
            self.wf(),
        ensures
            yes == self@.fits(incoming as int),
    {
        let n: usize = self.store.len();
        proof {
            lemma_total_bound(self.store@);
            assert(n * (KEY_MAX_BYTES + VALUE_MAX_BYTES + PER_ENTRY_OVERHEAD)
                <= 0xffff_ffff_ffff_ffff * 16_842_800) by (nonlinear_arith)
                requires
                    0 <= n <= 0xffff_ffff_ffff_ffff,
                    KEY_MAX_BYTES == 65_536,
                    VALUE_MAX_BYTES == 16_777_216,
                    PER_ENTRY_OVERHEAD == 48,
            ;
        }
        self.eviction.max_memory == 0 || self.used + incoming as u128
            <= self.eviction.max_memory as u128 || self.eviction.max_memory == u64::MAX
    }

    /// The key that the policy gives up next.
    fn next_victim(&mut self, now: Clock) -> (victim: Option<Vec<u8>>)
        requires
            old(self).wf(),
        ensures
            final(self).wf(),
            final(self)@ == old(self)@.victim(now).1,
            bytes_view(victim) == old(self)@.victim(now).0,
    {
        let policy: EvictionPolicy = self.eviction.policy;
        let scope: EvictionScope = policy.scope();
        if policy == EvictionPolicy::NoEviction {
            return None;
        }
        if policy.is_sieve() {
            let ttl_aware: bool = policy == EvictionPolicy::AllKeysSieveS || policy
                == EvictionPolicy::VolatileSieveS;
            return self.sieve.evict_one(&self.store, scope, ttl_aware, now.mono_ns as u128);
        }
        if policy.is_adaptive_climb() {
            return self.ac.evict_one(&self.store, scope);
        }
        let draw: u32 = self.next_draw();
        let len: usize = self.store.len();
        let start: usize = walk_start(draw, len);
        let candidates: Vec<Candidate> = sample_candidates(
            &self.store,
            scope,
            self.eviction.samples,
            start,
        );
        match pick_victim(policy, candidates) {
            Some(c) => Some(c.key),
            None => None,
        }
    }

    /// Evicts keys until `incoming` more bytes fit, each with a `DEL` record in
    /// the log.
    ///
    /// It fails with [`FerrumError::OutOfMemory`] when the policy has no key to
    /// give up: it never evicts, or nothing is in its scope.
    fn enforce_memory_limit(&mut self, incoming: u64, now: Clock) -> (r: Result<(), FerrumError>)
        requires
            old(self).wf(),
        ensures
            final(self).wf(),
            final(self)@ == old(self)@.made_room(incoming as int, now, old(self)@.rounds()).1,
            match r {
                Ok(_) => old(self)@.made_room(incoming as int, now, old(self)@.rounds()).0,
                Err(e) => !old(self)@.made_room(incoming as int, now, old(self)@.rounds()).0 && e@
                    == ErrorView::OutOfMemory,
            },
    {
        let len: usize = self.store.len();
        let mut left: u128 = (if len == 0 {
            1
        } else {
            len
        }) as u128 + EVICTION_SLACK as u128;
        let ghost whole = self@.made_room(incoming as int, now, self@.rounds());
        while left > 0
            invariant
                self.wf(),
                whole == old(self)@.made_room(incoming as int, now, old(self)@.rounds()),
                whole == self@.made_room(incoming as int, now, left as nat),
            decreases left,
        {
            if self.fits(incoming) {
                return Ok(());
            }
            match self.next_victim(now) {
                Some(key) => {
                    let _removed = self.track_remove(key.as_slice());
                    self.log_del(key.as_slice());
                },
                None => {
                    return Err(FerrumError::OutOfMemory);
                },
            }
            left = left - 1;
        }
        if self.fits(incoming) {
            Ok(())
        } else {
            Err(FerrumError::OutOfMemory)
        }
    }

    /// Makes room for writing a value of `value_len` bytes under `key`.
    fn enforce_for_write(&mut self, key: &[u8], value_len: usize, now: Clock) -> (r: Result<
        (),
        FerrumError,
    >)
        requires
            old(self).wf(),
            key@.len() <= KEY_MAX_BYTES,
            value_len <= VALUE_MAX_BYTES,
        ensures
            final(self).wf(),
            final(self)@ == old(self)@.admitted(key@, value_len as nat, now).1,
            match r {
                Ok(_) => old(self)@.admitted(key@, value_len as nat, now).0,
                Err(e) => !old(self)@.admitted(key@, value_len as nat, now).0 && e@
                    == ErrorView::OutOfMemory,
            },
    {
        let growth: u64 = self.growth_of(key, value_len);
        self.enforce_memory_limit(growth, now)
    }

    /// The bytes by which writing a value of this length grows the store.
    pub(crate) fn growth_of(&self, key: &[u8], value_len: usize) -> (growth: u64)
        requires
            self.wf(),
            key@.len() <= KEY_MAX_BYTES,
            value_len <= VALUE_MAX_BYTES,
        ensures
            growth == self@.growth(key@, value_len as nat),
    {
        let incoming: u64 = key.len() as u64 + value_len as u64 + PER_ENTRY_OVERHEAD;
        let held: u64 = match self.store.get(key) {
            Some(e) => entry_bytes(key, e),
            None => 0,
        };
        incoming.saturating_sub(held)
    }

    /// The same with the key out of the way if it has lapsed.
    pub(crate) fn purged_growth_of(&self, key: &[u8], value_len: usize, now: Clock) -> (growth: u64)
        requires
            self.wf(),
            key@.len() <= KEY_MAX_BYTES,
            value_len <= VALUE_MAX_BYTES,
        ensures
            growth == self@.purged(key@, now).growth(key@, value_len as nat),
    {
        let lapsed: bool = match self.store.get(key) {
            Some(e) => e.is_expired(now.mono_ns as u128),
            None => false,
        };
        if lapsed {
            key.len() as u64 + value_len as u64 + PER_ENTRY_OVERHEAD
        } else {
            self.growth_of(key, value_len)
        }
    }

    /// The value of a key unless it lapsed; nothing is counted or dropped.
    pub(crate) fn live_value_of(&self, key: &[u8], now: Clock) -> (value: Option<Vec<u8>>)
        ensures
            bytes_view(value) == self@.live_value(key@, now),
    {
        match self.store.get(key) {
            Some(e) => if e.is_expired(now.mono_ns as u128) {
                None
            } else {
                Some(crate::bytes::copied(e.data.as_slice()))
            },
            None => None,
        }
    }
}

/// Where a walk starts for a draw.
fn walk_start(draw: u32, len: usize) -> (start: usize)
    ensures
        start == start_of(draw, len as nat),
        start <= len,
{
    if len == 0 {
        0
    } else {
        (draw as u64 % len as u64) as usize
    }
}

} // verus!
