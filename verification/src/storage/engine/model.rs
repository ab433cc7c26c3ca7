//! The engine as a mathematical state and the effect of each command on it.

use vstd::prelude::*;
use vstd::string::*;

use crate::clock::{xorshift, Clock};
use crate::decimal::{dec_int, text_to_i64};
use crate::error::ErrorView;
use crate::persistence::record::{frames, Record};
use crate::persistence::writer::AofView;
use crate::storage::adaptive_climb::ClimbView;
use crate::storage::engine::glob::glob;
use crate::storage::engine::slowlog::{next_u64, numbered, SlowLogView};
use crate::storage::entry::EntryView;
use crate::storage::eviction::{
    choice, CandidateView, EvictionConfig, EvictionPolicy, EvictionScope,
};
use crate::storage::keyspace::sorted_keys;
use crate::storage::sieve::{scope_keys, SieveView};

verus! {

/// Maximum key size in bytes (64 KiB).
pub const KEY_MAX_BYTES: usize = 65_536;

/// Maximum value size in bytes (16 MiB).
pub const VALUE_MAX_BYTES: usize = 16_777_216;

/// What each entry is charged on top of its key and value bytes.
pub const PER_ENTRY_OVERHEAD: u64 = 48;

/// The most keys that one scan returns.
pub const SCAN_KEYS_LIMIT: usize = 10_000;

/// How many sweeps beyond the number of keys an eviction run may take.
pub const EVICTION_SLACK: usize = 16;

/// The bytes that an entry is charged with.
pub open spec fn entry_cost(key: Seq<u8>, value_len: nat) -> int {
    key.len() + value_len + PER_ENTRY_OVERHEAD
}

/// The bytes that a whole store is charged with.
pub open spec fn total_cost(store: Map<Seq<u8>, EntryView>) -> int
    decreases store.dom().len(),
    when store.dom().finite()
{
    if store.dom().len() == 0 {
        0
    } else {
        let k = store.dom().choose();
        entry_cost(k, store[k].data.len()) + total_cost(store.remove(k))
    }
}

/// Why a key is refused, if it is.
pub open spec fn key_error(key: Seq<u8>) -> Option<ErrorView> {
    if key.len() == 0 {
        Some(ErrorView::ParseError("key must not be empty"@))
    } else if key.len() > KEY_MAX_BYTES {
        Some(ErrorView::KeyTooLong { len: key.len() as usize, max: KEY_MAX_BYTES })
    } else {
        None
    }
}

/// Why a value is refused, if it is.
pub open spec fn value_error(value: Seq<u8>) -> Option<ErrorView> {
    if value.len() > VALUE_MAX_BYTES {
        Some(ErrorView::ValueTooLarge { len: value.len() as usize, max: VALUE_MAX_BYTES })
    } else {
        None
    }
}

/// Why a pair is refused, if it is; the key is looked at first.
pub open spec fn pair_error(key: Seq<u8>, value: Seq<u8>) -> Option<ErrorView> {
    match key_error(key) {
        Some(e) => Some(e),
        None => value_error(value),
    }
}

/// The reply to arithmetic on something that is no 64-bit integer.
pub open spec fn not_an_integer() -> ErrorView {
    ErrorView::ParseError("value is not an integer or out of range"@)
}

/// The deadline that an absolute time in the log means at `now`; a time that has
/// passed means this instant.
pub open spec fn deadline_read(at: i64, now: Clock) -> u128 {
    if at <= now.epoch_ms {
        now.mono_ns as u128
    } else {
        deadline_of(at, now)
    }
}

/// The deadline that an absolute time means at `now`.
pub open spec fn deadline_of(abs_epoch_ms: i64, now: Clock) -> u128 {
    (now.mono_ns + (abs_epoch_ms - now.epoch_ms) * 1_000_000) as u128
}

/// Milliseconds from `now` to a deadline, rounded down; zero once it is past.
pub open spec fn remaining_ms(deadline: u128, now: Clock) -> i64 {
    if deadline <= now.mono_ns {
        0
    } else {
        (((deadline - now.mono_ns) as u128) / 1_000_000) as i64
    }
}

/// `a + b`, kept within 64 bits.
pub open spec fn saturating_sum(a: i64, b: i64) -> i64 {
    if a + b > i64::MAX {
        i64::MAX
    } else if a + b < i64::MIN {
        i64::MIN
    } else {
        (a + b) as i64
    }
}

/// The absolute time that a deadline means at `now`.
pub open spec fn epoch_of(deadline: u128, now: Clock) -> i64 {
    saturating_sum(now.epoch_ms, remaining_ms(deadline, now))
}

/// The remaining lifetime of a key.
#[derive(Debug, Clone, Copy, PartialEq, Eq, Structural)]
pub enum TtlStatus {
    /// The key does not exist.
    Missing,
    /// The key has no deadline.
    NoExpire,
    /// Milliseconds until the deadline.
    Millis(i64),
}

/// The keys in the order of a walk that starts at index `start` and goes round.
pub open spec fn walk_from(keys: Seq<Seq<u8>>, start: int) -> Seq<Seq<u8>> {
    keys.skip(start) + keys.take(start)
}

/// At most the first `n` elements.
pub open spec fn at_most<T>(s: Seq<T>, n: int) -> Seq<T> {
    if s.len() <= n {
        s
    } else {
        s.take(n)
    }
}

/// What is told about a key when it is sampled for eviction.
pub open spec fn candidate_of(store: Map<Seq<u8>, EntryView>, key: Seq<u8>) -> CandidateView {
    CandidateView {
        key,
        last_access: Some(store[key].last_access),
        expire_at: store[key].expire_at,
        lfu_counter: store[key].lfu_counter,
    }
}

/// The first `n` keys in scope on a walk that starts at index `start`.
pub open spec fn sample_of(
    store: Map<Seq<u8>, EntryView>,
    scope: EvictionScope,
    n: int,
    start: int,
) -> Seq<CandidateView> {
    at_most(scope_keys(store, scope, walk_from(sorted_keys(store), start)), n).map_values(
        |k: Seq<u8>| candidate_of(store, k),
    )
}

/// Where a walk starts for a draw.
pub open spec fn start_of(draw: u32, len: nat) -> int {
    if len == 0 {
        0
    } else {
        draw as int % len as int
    }
}

/// The state of the engine.
#[verifier::ext_equal]
pub struct EngineView {
    pub store: Map<Seq<u8>, EntryView>,
    /// The log, if one is attached.
    pub log: Option<AofView>,
    pub cfg: EvictionConfig,
    pub hits: u64,
    pub misses: u64,
    pub sieve: SieveView,
    pub climb: ClimbView,
    pub password: Option<Seq<u8>>,
    /// The state of the random generator.
    pub rng: u32,
    pub slow: SlowLogView,
    /// The published weight of the adaptive hybrid policy, in thousandths.
    pub alpha_milli: u16,
}

impl EngineView {
    /// The invariant of the engine: sizes within their limits, queues without
    /// duplicates, a generator that does not stand still, slow-log entries
    /// numbered one after the other.
    pub open spec fn wf(self) -> bool {
        &&& self.store.dom().finite()
        &&& forall|k: Seq<u8>| #[trigger]
            self.store.contains_key(k) ==> pair_error(k, self.store[k].data) is None
        &&& self.sieve.wf()
        &&& self.climb.wf()
        &&& self.rng != 0
        &&& numbered(self.slow)
    }

    /// Whether a key is present and not expired.
    pub open spec fn live(self, key: Seq<u8>, now: Clock) -> bool {
        self.store.contains_key(key) && !self.store[key].expired(now.mono_ns as u128)
    }

    /// Whether a key is present but expired.
    pub open spec fn lapsed(self, key: Seq<u8>, now: Clock) -> bool {
        self.store.contains_key(key) && self.store[key].expired(now.mono_ns as u128)
    }

    /// The next draw of the generator, below 2^24.
    pub open spec fn draw(self) -> u32 {
        xorshift(self.rng) >> 8u32
    }

    pub open spec fn drawn(self) -> EngineView {
        EngineView { rng: xorshift(self.rng), ..self }
    }

    /// With a record appended to the log, if there is one.
    pub open spec fn logged(self, r: Record) -> EngineView {
        match self.log {
            Some(a) => EngineView { log: Some(a.wrote(r.frame())), ..self },
            None => self,
        }
    }

    /// With several records appended in one write.
    pub open spec fn logged_batch(self, rs: Seq<Record>) -> EngineView {
        match self.log {
            Some(a) if rs.len() > 0 => EngineView { log: Some(a.wrote(frames(rs))), ..self },
            _ => self,
        }
    }

    /// With a key removed from the store and from the eviction structures.
    pub open spec fn forgotten(self, key: Seq<u8>) -> EngineView {
        EngineView {
            store: self.store.remove(key),
            sieve: self.sieve.removed(key),
            climb: self.climb.removed(key),
            ..self
        }
    }

    /// With a key removed and its removal logged.
    pub open spec fn dropped(self, key: Seq<u8>) -> EngineView {
        self.forgotten(key).logged(Record::Del { key })
    }

    /// With an entry put under a key.
    pub open spec fn stored(self, key: Seq<u8>, entry: EntryView) -> EngineView {
        EngineView {
            store: self.store.insert(key, entry),
            sieve: self.sieve.inserted(key),
            climb: self.climb.inserted(key),
            ..self
        }
    }

    pub open spec fn hit(self) -> EngineView {
        EngineView { hits: next_u64(self.hits), ..self }
    }

    pub open spec fn missed(self) -> EngineView {
        EngineView { misses: next_u64(self.misses), ..self }
    }

    /// With an access to a stored key recorded.
    pub open spec fn touched(self, key: Seq<u8>, now: Clock) -> EngineView {
        EngineView {
            store: self.store.insert(key, self.store[key].touched(now, self.draw())),
            sieve: self.sieve.accessed(key),
            climb: self.climb.accessed(key),
            rng: xorshift(self.rng),
            ..self
        }
    }

    /// A lapsed key dropped; any other state unchanged.
    pub open spec fn purged(self, key: Seq<u8>, now: Clock) -> EngineView {
        if self.lapsed(key, now) {
            self.dropped(key)
        } else {
            self
        }
    }

    /// Reading a value: a hit touches the key, a miss drops it if it lapsed.
    pub open spec fn fetched(self, key: Seq<u8>, now: Clock) -> (Option<Seq<u8>>, EngineView) {
        if self.live(key, now) {
            (Some(self.store[key].data), self.touched(key, now).hit())
        } else {
            (None, self.purged(key, now).missed())
        }
    }

    /// Testing for a key: counted like a read, but without touching the key.
    pub open spec fn tested(self, key: Seq<u8>, now: Clock) -> (bool, EngineView) {
        if self.live(key, now) {
            (true, self.hit())
        } else {
            (false, self.purged(key, now).missed())
        }
    }

    /// Reading a value and its deadline for an update, uncounted.
    pub open spec fn peeked(self, key: Seq<u8>, now: Clock) -> Option<(Seq<u8>, Option<u128>)> {
        if self.live(key, now) {
            Some((self.store[key].data, self.store[key].expire_at))
        } else {
            None
        }
    }

    /// Whether `incoming` more bytes stay within the memory limit.
    pub open spec fn fits(self, incoming: int) -> bool {
        let wanted = total_cost(self.store) + incoming;
        self.cfg.max_memory == 0 || wanted <= self.cfg.max_memory || self.cfg.max_memory
            == u64::MAX
    }

    /// The key that the policy gives up next, and the state after asking.
    pub open spec fn victim(self, now: Clock) -> (Option<Seq<u8>>, EngineView) {
        let scope = self.cfg.policy.scope_of();
        if self.cfg.policy == EvictionPolicy::NoEviction {
            (None, self)
        } else if self.cfg.policy.sieve() {
            let (key, sieve) = self.sieve.evicted(
                self.store,
                scope,
                self.cfg.policy.sieve_ttl_aware(),
                now.mono_ns as u128,
            );
            (key, EngineView { sieve, ..self })
        } else if self.cfg.policy.adaptive_climb() {
            let (key, climb) = self.climb.evicted(self.store, scope);
            (key, EngineView { climb, ..self })
        } else {
            let sample = sample_of(
                self.store,
                scope,
                self.cfg.samples as int,
                start_of(self.draw(), sorted_keys(self.store).len()),
            );
            (
                match choice(self.cfg.policy, sample) {
                    Some(c) => Some(c.key),
                    None => None,
                },
                self.drawn(),
            )
        }
    }

    /// An eviction run: keys go one by one, each with its removal logged, until
    /// `incoming` bytes fit. It fails when the policy has no key to give up.
    pub open spec fn made_room(self, incoming: int, now: Clock, rounds: nat) -> (bool, EngineView)
        decreases rounds,
    {
        if self.fits(incoming) {
            (true, self)
        } else if rounds == 0 {
            (false, self)
        } else {
            let (victim, asked) = self.victim(now);
            match victim {
                Some(key) => asked.dropped(key).made_room(incoming, now, (rounds - 1) as nat),
                None => (false, asked),
            }
        }
    }

    /// The bytes by which writing a value of this length grows the store.
    pub open spec fn growth(self, key: Seq<u8>, value_len: nat) -> int {
        let held = if self.store.contains_key(key) {
            entry_cost(key, self.store[key].data.len())
        } else {
            0
        };
        if entry_cost(key, value_len) <= held {
            0
        } else {
            entry_cost(key, value_len) - held
        }
    }

    /// How many keys an eviction run may take.
    pub open spec fn rounds(self) -> nat {
        let len = self.store.dom().len();
        (if len == 0 {
            1
        } else {
            len
        }) + EVICTION_SLACK as nat
    }

    /// Making room for a write.
    pub open spec fn admitted(self, key: Seq<u8>, value_len: nat, now: Clock) -> (
        bool,
        EngineView,
    ) {
        self.made_room(self.growth(key, value_len), now, self.rounds())
    }

    /// The value of a key unless it lapsed.
    pub open spec fn live_value(self, key: Seq<u8>, now: Clock) -> Option<Seq<u8>> {
        if self.live(key, now) {
            Some(self.store[key].data)
        } else {
            None
        }
    }

    /// The length of a live value; zero for an absent key.
    pub open spec fn value_len(self, key: Seq<u8>, now: Clock) -> nat {
        match self.live_value(key, now) {
            Some(v) => v.len(),
            None => 0,
        }
    }

    /// With a value written to the log and the store; no deadline remains.
    pub open spec fn written(self, key: Seq<u8>, value: Seq<u8>, now: Clock) -> EngineView {
        self.logged(Record::Put { key, value }).stored(key, EntryView::fresh(value, None, now))
    }

    /// `SET`
    pub open spec fn set(self, key: Seq<u8>, value: Seq<u8>, now: Clock) -> (
        Result<Option<Seq<u8>>, ErrorView>,
        EngineView,
    ) {
        match pair_error(key, value) {
            Some(e) => (Err(e), self),
            None => {
                let (room, s) = self.admitted(key, value.len(), now);
                if room {
                    (Ok(s.live_value(key, now)), s.written(key, value, now))
                } else {
                    (Err(ErrorView::OutOfMemory), s)
                }
            },
        }
    }

    /// `SETNX`
    pub open spec fn set_nx(self, key: Seq<u8>, value: Seq<u8>, now: Clock) -> (
        Result<bool, ErrorView>,
        EngineView,
    ) {
        match pair_error(key, value) {
            Some(e) => (Err(e), self),
            None => if self.live(key, now) {
                (Ok(false), self)
            } else {
                let cleared = if self.lapsed(key, now) {
                    self.forgotten(key)
                } else {
                    self
                };
                let (room, s) = cleared.admitted(key, value.len(), now);
                if room {
                    (Ok(true), s.written(key, value, now))
                } else {
                    (Err(ErrorView::OutOfMemory), s)
                }
            },
        }
    }

    /// Making room for each pair in turn.
    pub open spec fn admitted_all(self, pairs: Seq<(Seq<u8>, Seq<u8>)>, now: Clock) -> (
        bool,
        EngineView,
    )
        decreases pairs.len(),
    {
        if pairs.len() == 0 {
            (true, self)
        } else {
            let (room, s) = self.admitted(pairs[0].0, pairs[0].1.len(), now);
            if room {
                s.admitted_all(pairs.skip(1), now)
            } else {
                (false, s)
            }
        }
    }

    /// With each pair put in turn; no deadline remains on any of them.
    pub open spec fn stored_all(self, pairs: Seq<(Seq<u8>, Seq<u8>)>, now: Clock) -> EngineView
        decreases pairs.len(),
    {
        if pairs.len() == 0 {
            self
        } else {
            self.stored(pairs[0].0, EntryView::fresh(pairs[0].1, None, now)).stored_all(
                pairs.skip(1),
                now,
            )
        }
    }

    /// `MSET`
    pub open spec fn mset(self, pairs: Seq<(Seq<u8>, Seq<u8>)>, now: Clock) -> (
        Result<(), ErrorView>,
        EngineView,
    ) {
        match first_error(pairs) {
            Some(e) => (Err(e), self),
            None => {
                let (room, s) = self.admitted_all(pairs, now);
                if room {
                    (Ok(()), s.logged_batch(put_records(pairs)).stored_all(pairs, now))
                } else {
                    (Err(ErrorView::OutOfMemory), s)
                }
            },
        }
    }

    /// `MGET`
    pub open spec fn mget(self, keys: Seq<Seq<u8>>, now: Clock) -> (
        Seq<Option<Seq<u8>>>,
        EngineView,
    )
        decreases keys.len(),
    {
        if keys.len() == 0 {
            (Seq::empty(), self)
        } else {
            let (front, s) = self.mget(keys.drop_last(), now);
            let (value, t) = s.fetched(keys.last(), now);
            (front.push(value), t)
        }
    }

    /// `EXISTS`: how many of the keys are live, repeats counted each time.
    pub open spec fn exists_many(self, keys: Seq<Seq<u8>>, now: Clock) -> (nat, EngineView)
        decreases keys.len(),
    {
        if keys.len() == 0 {
            (0, self)
        } else {
            let (count, s) = self.exists_many(keys.drop_last(), now);
            let (found, t) = s.tested(keys.last(), now);
            (
                if found {
                    count + 1
                } else {
                    count
                },
                t,
            )
        }
    }

    /// Writing a value while keeping a deadline. A deadline that lies in the
    /// future is logged behind the value.
    pub open spec fn rewritten(
        self,
        key: Seq<u8>,
        value: Seq<u8>,
        deadline: Option<u128>,
        now: Clock,
    ) -> EngineView {
        let s = self.logged(Record::Put { key, value });
        let t = match deadline {
            Some(d) if d > now.mono_ns => s.logged(Record::PExpireAt { key, at: epoch_of(d, now) }),
            _ => s,
        };
        t.stored(key, EntryView::fresh(value, deadline, now))
    }

    /// Making room and writing a value while keeping a deadline.
    pub open spec fn set_keep_ttl(
        self,
        key: Seq<u8>,
        value: Seq<u8>,
        deadline: Option<u128>,
        now: Clock,
    ) -> (Result<Option<Seq<u8>>, ErrorView>, EngineView) {
        let (room, s) = self.admitted(key, value.len(), now);
        if room {
            (Ok(s.live_value(key, now)), s.rewritten(key, value, deadline, now))
        } else {
            (Err(ErrorView::OutOfMemory), s)
        }
    }

    /// `INCRBY`
    pub open spec fn incr_by(self, key: Seq<u8>, delta: i64, now: Clock) -> (
        Result<i64, ErrorView>,
        EngineView,
    ) {
        let held = self.peeked(key, now);
        let current: Option<i64> = match held {
            Some(h) => text_to_i64(h.0),
            None => Some(0),
        };
        let deadline = match held {
            Some(h) => h.1,
            None => None,
        };
        let s = self.purged(key, now);
        match key_error(key) {
            Some(e) => (Err(e), self),
            None => match current {
                Some(n) if i64::MIN <= n + delta <= i64::MAX => {
                    let (r, t) = s.set_keep_ttl(key, dec_int(n + delta), deadline, now);
                    (
                        match r {
                            Ok(_) => Ok((n + delta) as i64),
                            Err(e) => Err(e),
                        },
                        t,
                    )
                },
                _ => (Err(not_an_integer()), s),
            },
        }
    }

    /// `APPEND`
    pub open spec fn append(self, key: Seq<u8>, suffix: Seq<u8>, now: Clock) -> (
        Result<nat, ErrorView>,
        EngineView,
    ) {
        let held = self.peeked(key, now);
        let value = match held {
            Some(h) => h.0 + suffix,
            None => suffix,
        };
        let deadline = match held {
            Some(h) => h.1,
            None => None,
        };
        let s = self.purged(key, now);
        match key_error(key) {
            Some(e) => (Err(e), self),
            None => match value_error(value) {
                Some(e) => (Err(e), s),
                None => {
                    let (r, t) = s.set_keep_ttl(key, value, deadline, now);
                    (
                        match r {
                            Ok(_) => Ok(value.len()),
                            Err(e) => Err(e),
                        },
                        t,
                    )
                },
            },
        }
    }

    /// `DEL` of one key: whether it was live, and the state without it.
    pub open spec fn deleted(self, key: Seq<u8>, now: Clock) -> EngineView {
        if self.live(key, now) {
            self.dropped(key)
        } else {
            self.forgotten(key)
        }
    }

    /// The state without several keys; nothing is logged yet.
    pub open spec fn forgotten_all(self, keys: Seq<Seq<u8>>) -> EngineView
        decreases keys.len(),
    {
        if keys.len() == 0 {
            self
        } else {
            self.forgotten_all(keys.drop_last()).forgotten(keys.last())
        }
    }

    /// The keys that removing `keys` one after the other takes away alive.
    pub open spec fn live_ones(self, keys: Seq<Seq<u8>>, now: Clock) -> Seq<Seq<u8>>
        decreases keys.len(),
    {
        if keys.len() == 0 {
            Seq::empty()
        } else {
            let front = self.live_ones(keys.drop_last(), now);
            if self.forgotten_all(keys.drop_last()).live(keys.last(), now) {
                front.push(keys.last())
            } else {
                front
            }
        }
    }

    /// With a `DEL` record for each key.
    pub open spec fn logged_dels(self, keys: Seq<Seq<u8>>) -> EngineView
        decreases keys.len(),
    {
        if keys.len() == 0 {
            self
        } else {
            self.logged_dels(keys.drop_last()).logged(Record::Del { key: keys.last() })
        }
    }

    /// `DEL` of several keys: those that were live are counted and logged.
    pub open spec fn del_many(self, keys: Seq<Seq<u8>>, now: Clock) -> (nat, EngineView) {
        let removed = self.live_ones(keys, now);
        (removed.len(), self.forgotten_all(keys).logged_dels(removed))
    }

    /// With each key dropped in turn.
    pub open spec fn dropped_all(self, keys: Seq<Seq<u8>>) -> EngineView
        decreases keys.len(),
    {
        if keys.len() == 0 {
            self
        } else {
            self.dropped_all(keys.drop_last()).dropped(keys.last())
        }
    }

    /// With a deadline put on a stored key.
    pub open spec fn with_deadline(self, key: Seq<u8>, deadline: Option<u128>) -> EngineView {
        EngineView {
            store: self.store.insert(key, EntryView { expire_at: deadline, ..self.store[key] }),
            ..self
        }
    }

    /// `PEXPIREAT`: a time that is not in the future removes the key at once.
    pub open spec fn expire_at(self, key: Seq<u8>, abs_epoch_ms: i64, now: Clock) -> (
        bool,
        EngineView,
    ) {
        if !self.live(key, now) {
            (false, self.purged(key, now))
        } else if abs_epoch_ms <= now.epoch_ms {
            (true, self.dropped(key))
        } else {
            (
                true,
                self.with_deadline(key, Some(deadline_of(abs_epoch_ms, now))).logged(
                    Record::PExpireAt { key, at: abs_epoch_ms },
                ),
            )
        }
    }

    /// `PERSIST`
    pub open spec fn persist(self, key: Seq<u8>, now: Clock) -> (bool, EngineView) {
        if self.live(key, now) && self.store[key].expire_at is Some {
            (true, self.with_deadline(key, None).logged(Record::Persist { key }))
        } else {
            (false, self.purged(key, now))
        }
    }

    /// A deadline as a replay sets it: on any stored key, and also when it has
    /// passed, since a later record may move it.
    pub open spec fn deadline_restored(self, key: Seq<u8>, at: i64, now: Clock) -> EngineView {
        if self.store.contains_key(key) {
            self.with_deadline(key, Some(deadline_read(at, now))).logged(
                Record::PExpireAt { key, at },
            )
        } else {
            self
        }
    }

    /// A deadline as a replay takes it off: from any stored key, also when it has
    /// passed.
    pub open spec fn deadline_lifted(self, key: Seq<u8>) -> EngineView {
        if self.store.contains_key(key) && self.store[key].expire_at is Some {
            self.with_deadline(key, None).logged(Record::Persist { key })
        } else {
            self
        }
    }

    /// `TTL`
    pub open spec fn ttl(self, key: Seq<u8>, now: Clock) -> TtlStatus {
        if !self.live(key, now) {
            TtlStatus::Missing
        } else {
            match self.store[key].expire_at {
                None => TtlStatus::NoExpire,
                Some(deadline) => TtlStatus::Millis(remaining_ms(deadline, now)),
            }
        }
    }

    /// `MEMORY USAGE`. A lapsed key leaves the store and the log hears of it;
    /// the eviction structures learn of it at their next sweep.
    pub open spec fn measured(self, key: Seq<u8>, now: Clock) -> (Option<int>, EngineView) {
        if self.live(key, now) {
            (Some(entry_cost(key, self.store[key].data.len())), self)
        } else if self.lapsed(key, now) {
            (
                None,
                (EngineView { store: self.store.remove(key), ..self }).logged(Record::Del { key }),
            )
        } else {
            (None, self)
        }
    }

    /// `FLUSHDB`
    pub open spec fn cleared(self) -> EngineView {
        (EngineView {
            store: Map::empty(),
            sieve: SieveView::empty(),
            climb: ClimbView::empty(),
            ..self
        }).logged(Record::FlushDb)
    }

    /// The keys of a walk that are live.
    pub open spec fn live_keys(self, keys: Seq<Seq<u8>>, now: Clock) -> Seq<Seq<u8>> {
        keys.filter(|k: Seq<u8>| self.live(k, now))
    }

    /// The live keys that have a deadline.
    pub open spec fn timed_keys(self, now: Clock) -> Seq<Seq<u8>> {
        sorted_keys(self.store).filter(
            |k: Seq<u8>| self.live(k, now) && self.store[k].expire_at is Some,
        )
    }

    /// The sum of the remaining lifetimes in milliseconds, kept within 64 bits.
    pub open spec fn lifetimes(self, keys: Seq<Seq<u8>>, now: Clock) -> u64
        decreases keys.len(),
    {
        if keys.len() == 0 {
            0
        } else {
            let rest = self.lifetimes(keys.drop_last(), now);
            let deadline = self.store[keys.last()].expire_at->0;
            let left = (((deadline - now.mono_ns) as u128) / 1_000_000) as u64;
            if rest + left > u64::MAX {
                u64::MAX
            } else {
                (rest + left) as u64
            }
        }
    }

    /// The mean remaining lifetime of the keys with a deadline, in milliseconds.
    pub open spec fn mean_ttl(self, now: Clock) -> nat {
        let n = self.timed_keys(now).len();
        if n == 0 {
            0
        } else {
            (self.lifetimes(self.timed_keys(now), now) as int / n as int) as nat
        }
    }

    /// The live keys that match a pattern, in walk order, at most
    /// [`SCAN_KEYS_LIMIT`].
    pub open spec fn scanned(self, pattern: Seq<u8>, now: Clock) -> Seq<Seq<u8>> {
        at_most(
            sorted_keys(self.store).filter(
                |k: Seq<u8>| self.live(k, now) && glob(pattern, k),
            ),
            SCAN_KEYS_LIMIT as int,
        )
    }

    /// The keys that an active sweep looks at.
    pub open spec fn swept_keys(self, sample: int) -> Seq<Seq<u8>> {
        let keys = sorted_keys(self.store);
        at_most(walk_from(keys, start_of(self.draw(), keys.len())), sample)
    }

    /// Active expiry: the lapsed ones among a sample of keys are dropped.
    pub open spec fn swept(self, sample: int, now: Clock) -> EngineView {
        let gone = self.swept_keys(sample).filter(|k: Seq<u8>| self.lapsed(k, now));
        self.drawn().dropped_all(gone)
    }

    /// A sweep that looks at every key.
    pub open spec fn swept_through(self, now: Clock) -> EngineView {
        let n = sorted_keys(self.store).len();
        if n == 0 {
            self
        } else {
            self.swept(n as int, now)
        }
    }

    /// With a new eviction configuration: the structure that the policy uses is
    /// filled from the store and the others are emptied.
    pub open spec fn configured(self, cfg: EvictionConfig) -> EngineView {
        let scope = cfg.policy.scope_of();
        EngineView {
            cfg,
            sieve: if cfg.policy.sieve() {
                SieveView::rebuilt(self.store, scope)
            } else {
                SieveView::empty()
            },
            climb: if cfg.policy.adaptive_climb() {
                ClimbView::rebuilt(self.store, scope)
            } else {
                ClimbView::empty()
            },
            ..self
        }
    }

    /// Checking a password.
    pub open spec fn authenticated(self, provided: Seq<u8>) -> Result<bool, ErrorView> {
        match self.password {
            Some(expected) => Ok(provided == expected),
            None => Err(ErrorView::ParseError("Client sent AUTH, but no password is set"@)),
        }
    }

    /// The state of a new engine.
    pub open spec fn initial(rng: u32) -> EngineView {
        EngineView {
            store: Map::empty(),
            log: None,
            cfg: EvictionConfig { max_memory: 0, policy: EvictionPolicy::NoEviction, samples: 5 },
            hits: 0,
            misses: 0,
            sieve: SieveView::empty(),
            climb: ClimbView::empty(),
            password: None,
            rng,
            slow: SlowLogView::initial(),
            alpha_milli: 500,
        }
    }
}

/// The first refusal among the pairs, if any.
pub open spec fn first_error(pairs: Seq<(Seq<u8>, Seq<u8>)>) -> Option<ErrorView>
    decreases pairs.len(),
{
    if pairs.len() == 0 {
        None
    } else {
        match first_error(pairs.drop_last()) {
            Some(e) => Some(e),
            None => pair_error(pairs.last().0, pairs.last().1),
        }
    }
}

/// One record for each pair.
pub open spec fn put_records(pairs: Seq<(Seq<u8>, Seq<u8>)>) -> Seq<Record> {
    pairs.map_values(|p: (Seq<u8>, Seq<u8>)| Record::Put { key: p.0, value: p.1 })
}

} // verus!
