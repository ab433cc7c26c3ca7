//! The SIEVE eviction structure.
//!
//! A first-in-first-out queue of keys, each with a `visited` bit, and one hand
//! that sweeps it. An insert appends the key unvisited, an access sets the bit,
//! and an eviction moves the hand on, clearing bits, until it meets a key whose
//! bit is clear: that key goes.
//!
//! With `ttl_aware` (the SIEVE-S variant) a key close to its expiry goes even
//! when its bit is set, and so does a key without a deadline. The engine keeps a
//! deadline and not the lifetime that was asked for, so "close" is measured
//! against a fixed horizon.

use indexmap::IndexMap;
use vstd::prelude::*;

use crate::bytes::copied;
use crate::storage::entry::{EntryView, ValueEntry};
use crate::storage::eviction::EvictionScope;
use crate::storage::keyspace::{sorted_keys, Keyspace};
use crate::storage::queue::{
    distinct, holds, queue_at, queue_clear, queue_index_of, queue_insert, queue_items, queue_len,
    queue_new, queue_remove, queue_set_flag,
};

verus! {

/// The share of the horizon, in percent, below which a key counts as close to
/// its expiry.
pub const SIEVE_S_TTL_THRESHOLD_PERCENT: u64 = 10;

/// The horizon that stands for a key's lifetime, in milliseconds.
pub const SIEVE_S_HORIZON_MS: u64 = 60_000;

/// One hundredth of the horizon, in nanoseconds.
const SIEVE_S_PERCENT_NS: u128 = 600_000_000;

/// Whether a policy with this scope may evict an entry.
pub open spec fn in_scope(scope: EvictionScope, entry: EntryView) -> bool {
    scope == EvictionScope::Volatile ==> entry.expire_at is Some
}

/// Whether a policy with this scope may evict a key of this store.
pub open spec fn eligible(
    store: Map<Seq<u8>, EntryView>,
    scope: EvictionScope,
    key: Seq<u8>,
) -> bool {
    store.contains_key(key) && in_scope(scope, store[key])
}

/// Whether the remaining lifetime is at most `percent` of the horizon. A key
/// without a deadline, or past it, always counts as close to its expiry.
pub open spec fn near_expiry(entry: EntryView, now: u128, percent: u64) -> bool {
    match entry.expire_at {
        Some(deadline) => deadline - now <= percent * SIEVE_S_HORIZON_MS * 10_000,
        None => true,
    }
}

/// Whether an entry is close to its expiry.
pub fn is_near_expiry(entry: &ValueEntry, now: u128, percent: u64) -> (near: bool)
    ensures
        near == near_expiry(entry@, now, percent),
{
    match entry.expire_at {
        Some(deadline) => {
            assert(percent * SIEVE_S_HORIZON_MS * 10_000 == percent * SIEVE_S_PERCENT_NS)
                by (nonlinear_arith)
                requires
                    SIEVE_S_HORIZON_MS == 60_000,
                    SIEVE_S_PERCENT_NS == 600_000_000,
            ;
            deadline <= now || deadline - now <= percent as u128 * SIEVE_S_PERCENT_NS
        },
        None => true,
    }
}

/// The queue with its hand.
#[verifier::ext_equal]
pub struct SieveView {
    pub items: Seq<(Seq<u8>, bool)>,
    pub hand: int,
}

impl SieveView {
    /// No key occurs twice and the hand is not negative.
    pub open spec fn wf(self) -> bool {
        distinct(self.items) && self.hand >= 0
    }

    pub open spec fn empty() -> SieveView {
        SieveView { items: Seq::empty(), hand: 0 }
    }

    /// The index of a key in the queue.
    pub open spec fn index(self, key: Seq<u8>) -> int {
        choose|i: int| 0 <= i < self.items.len() && (#[trigger] self.items[i]).0 == key
    }

    /// After an insert: a new key stands last, unvisited; a known key keeps its
    /// place and loses its bit.
    pub open spec fn inserted(self, key: Seq<u8>) -> SieveView {
        if holds(self.items, key) {
            SieveView { items: self.items.update(self.index(key), (key, false)), ..self }
        } else {
            SieveView { items: self.items.push((key, false)), ..self }
        }
    }

    /// After an access: the key's bit is set.
    pub open spec fn accessed(self, key: Seq<u8>) -> SieveView {
        if holds(self.items, key) {
            SieveView { items: self.items.update(self.index(key), (key, true)), ..self }
        } else {
            self
        }
    }

    /// After a removal: the hand stays on the key it pointed at, and wraps to
    /// the front when it would stand behind the last key.
    pub open spec fn removed(self, key: Seq<u8>) -> SieveView {
        if holds(self.items, key) {
            let at = self.index(key);
            let hand = if at < self.hand {
                self.hand - 1
            } else {
                self.hand
            };
            let items = self.items.remove(at);
            SieveView {
                items,
                hand: if hand >= items.len() {
                    0
                } else {
                    hand
                },
            }
        } else {
            self
        }
    }

    /// The queue of every eligible key of a store, all unvisited.
    pub open spec fn rebuilt(store: Map<Seq<u8>, EntryView>, scope: EvictionScope) -> SieveView {
        SieveView {
            items: scope_keys(store, scope, sorted_keys(store)).map_values(
                |k: Seq<u8>| (k, false),
            ),
            hand: 0,
        }
    }

    /// Where the hand looks next: past the end means at the front.
    pub open spec fn look(self) -> int {
        if self.hand >= self.items.len() {
            0
        } else {
            self.hand
        }
    }

    /// Whether the key under the hand goes.
    pub open spec fn gives_way(
        self,
        store: Map<Seq<u8>, EntryView>,
        ttl_aware: bool,
        now: u128,
    ) -> bool {
        let item = self.items[self.look()];
        !item.1 || (ttl_aware && near_expiry(
            store[item.0],
            now,
            SIEVE_S_TTL_THRESHOLD_PERCENT,
        ))
    }

    /// The sweep: at each look the hand drops a key that is not eligible,
    /// evicts the key that gives way, or clears a bit and moves on.
    pub open spec fn sweep(
        self,
        store: Map<Seq<u8>, EntryView>,
        scope: EvictionScope,
        ttl_aware: bool,
        now: u128,
        looks: nat,
    ) -> (Option<Seq<u8>>, SieveView)
        decreases looks,
    {
        let at = self.look();
        if looks == 0 {
            (None, self)
        } else if self.items.len() == 0 {
            (None, SieveView { hand: 0, ..self })
        } else if !eligible(store, scope, self.items[at].0) {
            (SieveView { items: self.items.remove(at), hand: at }).sweep(
                store,
                scope,
                ttl_aware,
                now,
                (looks - 1) as nat,
            )
        } else if self.gives_way(store, ttl_aware, now) {
            let items = self.items.remove(at);
            (
                Some(self.items[at].0),
                SieveView {
                    items,
                    hand: if at >= items.len() {
                        0
                    } else {
                        at
                    },
                },
            )
        } else {
            (SieveView {
                items: self.items.update(at, (self.items[at].0, false)),
                hand: at + 1,
            }).sweep(store, scope, ttl_aware, now, (looks - 1) as nat)
        }
    }

    /// One eviction: a sweep that looks at each key once and at one of them
    /// twice.
    pub open spec fn evicted(
        self,
        store: Map<Seq<u8>, EntryView>,
        scope: EvictionScope,
        ttl_aware: bool,
        now: u128,
    ) -> (Option<Seq<u8>>, SieveView) {
        if self.items.len() == 0 {
            (None, self)
        } else {
            self.sweep(store, scope, ttl_aware, now, self.items.len() + 1)
        }
    }
}

/// The keys that a scope admits, in the given order.
pub open spec fn scope_keys(
    store: Map<Seq<u8>, EntryView>,
    scope: EvictionScope,
    keys: Seq<Seq<u8>>,
) -> Seq<Seq<u8>>
    decreases keys.len(),
{
    if keys.len() == 0 {
        Seq::empty()
    } else {
        let front = scope_keys(store, scope, keys.drop_last());
        if in_scope(scope, store[keys.last()]) {
            front.push(keys.last())
        } else {
            front
        }
    }
}

/// The SIEVE queue.
pub struct SieveState {
    queue: IndexMap<Vec<u8>, bool>,
    hand: usize,
}

impl View for SieveState {
    type V = SieveView;

    closed spec fn view(&self) -> SieveView {
        SieveView { items: queue_items(self.queue), hand: self.hand as int }
    }
}

/// Whether an entry is in scope.
pub fn entry_in_scope(scope: EvictionScope, entry: &ValueEntry) -> (yes: bool)
    ensures
        yes == in_scope(scope, entry@),
{
    match scope {
        EvictionScope::AllKeys => true,
        EvictionScope::Volatile => entry.expire_at.is_some(),
    }
}

/// Whether a key may be evicted.
pub fn is_eligible(store: &Keyspace, scope: EvictionScope, key: &[u8]) -> (yes: bool)
    ensures
        yes == eligible(store@, scope, key@),
{
    match store.get(key) {
        Some(entry) => entry_in_scope(scope, entry),
        None => false,
    }
}

impl Default for SieveState {
    fn default() -> (s: SieveState)
        ensures
            s@ == SieveView::empty(),
    {
        SieveState::new()
    }
}

impl SieveState {
    /// An empty queue.
    pub fn new() -> (s: SieveState)
        ensures
            s@ == SieveView::empty(),
    {
        SieveState { queue: queue_new(), hand: 0 }
    }

    /// Records an insert or an overwrite.
    pub fn observe_insert(&mut self, key: &[u8])
        requires
            old(self)@.wf(),
        ensures
            final(self)@ == old(self)@.inserted(key@),
            final(self)@.wf(),
    {
        let ghost items = queue_items(self.queue);
        let ghost at = self@.index(key@);
        proof {
            if holds(items, key@) {
                assert(0 <= at < items.len() && items[at].0 == key@);
            }
        }
        queue_insert(&mut self.queue, copied(key), false);
    }

    /// Records an access.
    pub fn observe_access(&mut self, key: &[u8])
        requires
            old(self)@.wf(),
        ensures
            final(self)@ == old(self)@.accessed(key@),
            final(self)@.wf(),
    {
        let ghost items = queue_items(self.queue);
        if let Some(at) = queue_index_of(&self.queue, key) {
            assert(items[at as int].0 == key@);
            assert(items[self@.index(key@)].0 == key@);
            queue_set_flag(&mut self.queue, at, true);
        }
    }

    /// Records a removal.
    pub fn observe_remove(&mut self, key: &[u8])
        requires
            old(self)@.wf(),
        ensures
            final(self)@ == old(self)@.removed(key@),
            final(self)@.wf(),
    {
        let ghost items = queue_items(self.queue);
        if let Some(at) = queue_index_of(&self.queue, key) {
            assert(items[at as int].0 == key@);
            assert(items[self@.index(key@)].0 == key@);
            if at < self.hand {
                self.hand = self.hand - 1;
            }
            queue_remove(&mut self.queue, key);
            if self.hand >= queue_len(&self.queue) {
                self.hand = 0;
            }
        }
    }

    /// Fills the queue with the keys of a store that the scope admits.
    pub fn rebuild(&mut self, store: &Keyspace, scope: EvictionScope)
        ensures
            final(self)@ == SieveView::rebuilt(store@, scope),
            final(self)@.wf(),
    {
        self.clear();
        let n: usize = store.len();
        let ghost keys = sorted_keys(store@);
        let mut i: usize = 0;
        assert(scope_keys(store@, scope, keys.take(0)) =~= Seq::<Seq<u8>>::empty());
        while i < n
            invariant
                i <= n,
                n == keys.len(),
                keys == sorted_keys(store@),
                crate::storage::keyspace::lists_keys(keys, store@),
                self.hand == 0,
                queue_items(self.queue) == scope_keys(
                    store@,
                    scope,
                    keys.take(i as int),
                ).map_values(|k: Seq<u8>| (k, false)),
                distinct(queue_items(self.queue)),
            decreases n - i,
        {
            let ghost sofar = keys.take(i as int);
            let ghost more = keys.take(i as int + 1);
            let ghost admitted = scope_keys(store@, scope, sofar);
            assert(more.drop_last() =~= sofar);
            assert(more.last() == keys[i as int]);
            if entry_in_scope(scope, store.entry_at(i)) {
                proof {
                    lemma_scope_keys(store@, scope, sofar);
                    assert(!holds(queue_items(self.queue), keys[i as int])) by {
                        if holds(queue_items(self.queue), keys[i as int]) {
                            let j = choose|j: int|
                                0 <= j < queue_items(self.queue).len() && (#[trigger] queue_items(
                                    self.queue,
                                )[j]).0 == keys[i as int];
                            assert(admitted[j] == keys[i as int]);
                            assert(sofar.contains(admitted[j]));
                            let x = choose|x: int| 0 <= x < sofar.len() && sofar[x] == admitted[j];
                            assert(crate::storage::keyspace::key_less(keys[x], keys[i as int]));
                            crate::storage::keyspace::lemma_key_less_irreflexive(keys[x]);
                        }
                    }
                }
                let ghost before = queue_items(self.queue);
                queue_insert(&mut self.queue, copied(store.key_at(i).as_slice()), false);
                assert(queue_items(self.queue) =~= scope_keys(store@, scope, more).map_values(
                    |k: Seq<u8>| (k, false),
                ));
            }
            i += 1;
        }
        assert(keys.take(i as int) =~= keys);
    }

    /// Empties the queue.
    pub fn clear(&mut self)
        ensures
            final(self)@ == SieveView::empty(),
    {
        queue_clear(&mut self.queue);
        self.hand = 0;
    }

    /// The number of keys in the queue.
    pub fn len(&self) -> (n: usize)
        ensures
            n == self@.items.len(),
    {
        queue_len(&self.queue)
    }

    /// Runs one sweep and takes the victim out of the queue.
    ///
    /// The store is consulted for eligibility only: a key may be gone from the
    /// store, or lack the TTL that a volatile scope asks for.
    pub fn evict_one(
        &mut self,
        store: &Keyspace,
        scope: EvictionScope,
        ttl_aware: bool,
        now: u128,
    ) -> (victim: Option<Vec<u8>>)
        requires
            old(self)@.wf(),
        ensures
            final(self)@.wf(),
            old(self)@.evicted(store@, scope, ttl_aware, now).1 == final(self)@,
            match (victim, old(self)@.evicted(store@, scope, ttl_aware, now).0) {
                (Some(v), Some(k)) => v@ == k,
                (None, None) => true,
                _ => false,
            },
    {
        let n: usize = queue_len(&self.queue);
        if n == 0 {
            return None;
        }
        let ghost whole = self@.evicted(store@, scope, ttl_aware, now);
        let mut scanned: usize = 0;
        while scanned < n
            invariant
                0 < n,
                scanned <= n,
                self@.wf(),
                whole == old(self)@.evicted(store@, scope, ttl_aware, now),
                whole == self@.sweep(store@, scope, ttl_aware, now, (n + 1 - scanned) as nat),
            ensures
                scanned == n,
                self@.wf(),
                whole == self@.sweep(store@, scope, ttl_aware, now, 1),
            decreases n - scanned,
        {
            match self.look_once(store, scope, ttl_aware, now) {
                Look::Victim(key) => {
                    return Some(key);
                },
                Look::Empty => {
                    return None;
                },
                Look::Next => {},
            }
            scanned += 1;
        }
        match self.look_once(store, scope, ttl_aware, now) {
            Look::Victim(key) => Some(key),
            Look::Empty => None,
            Look::Next => None,
        }
    }

    fn look_once(&mut self, store: &Keyspace, scope: EvictionScope, ttl_aware: bool, now: u128) -> (
    look: Look)
        requires
            old(self)@.wf(),
        ensures
            final(self)@.wf(),
            forall|looks: nat|
                looks > 0 ==> match look {
                    Look::Empty => (#[trigger] old(self)@.sweep(
                        store@,
                        scope,
                        ttl_aware,
                        now,
                        looks,
                    )) == (None::<Seq<u8>>, final(self)@),
                    Look::Victim(key) => old(self)@.sweep(store@, scope, ttl_aware, now, looks) == (
                        Some(key@),
                        final(self)@,
                    ),
                    Look::Next => old(self)@.sweep(store@, scope, ttl_aware, now, looks)
                        == final(self)@.sweep(store@, scope, ttl_aware, now, (looks - 1) as nat),
                },
    {
        if self.hand >= queue_len(&self.queue) {
            self.hand = 0;
        }
        let ghost items = queue_items(self.queue);
        let ghost at = self.hand as int;
        match queue_at(&self.queue, self.hand) {
            None => Look::Empty,
            Some((key, visited)) => {
                assert(items[at].0 == key@);
                match store.get(key.as_slice()) {
                    Some(entry) => {
                        if !entry_in_scope(scope, entry) {
                            queue_remove(&mut self.queue, key.as_slice());
                            return Look::Next;
                        }
                        if !visited || (ttl_aware && is_near_expiry(
                            entry,
                            now,
                            SIEVE_S_TTL_THRESHOLD_PERCENT,
                        )) {
                            queue_remove(&mut self.queue, key.as_slice());
                            if self.hand >= queue_len(&self.queue) {
                                self.hand = 0;
                            }
                            return Look::Victim(key);
                        }
                        queue_set_flag(&mut self.queue, self.hand, false);
                        self.hand = self.hand + 1;
                        Look::Next
                    },
                    None => {
                        queue_remove(&mut self.queue, key.as_slice());
                        Look::Next
                    },
                }
            },
        }
    }
}

/// What one look of the hand came to.
enum Look {
    Empty,
    Victim(Vec<u8>),
    Next,
}

pub proof fn lemma_scope_keys(
    store: Map<Seq<u8>, EntryView>,
    scope: EvictionScope,
    keys: Seq<Seq<u8>>,
)
    ensures
        forall|j: int|
            0 <= j < scope_keys(store, scope, keys).len() ==> keys.contains(
                #[trigger] scope_keys(store, scope, keys)[j],
            ),
    decreases keys.len(),
{
    if keys.len() > 0 {
        let front = keys.drop_last();
        lemma_scope_keys(store, scope, front);
        assert forall|j: int| 0 <= j < scope_keys(store, scope, keys).len() implies keys.contains(
            #[trigger] scope_keys(store, scope, keys)[j],
        ) by {
            let rest = scope_keys(store, scope, front);
            if j < rest.len() {
                assert(front.contains(rest[j]));
                let x = choose|x: int| 0 <= x < front.len() && front[x] == rest[j];
                assert(keys[x] == rest[j]);
            } else {
                assert(keys[keys.len() - 1] == keys.last());
            }
        }
    }
}

/// Whether an entry of the queue would go at the first look.
pub open spec fn goes_at_once(
    item: (Seq<u8>, bool),
    store: Map<Seq<u8>, EntryView>,
    scope: EvictionScope,
    ttl_aware: bool,
    now: u128,
) -> bool {
    eligible(store, scope, item.0) && (!item.1 || (ttl_aware && near_expiry(
        store[item.0],
        now,
        SIEVE_S_TTL_THRESHOLD_PERCENT,
    )))
}

/// Whether index `i` is among the `ahead` positions from the hand on, round the
/// end of the queue.
spec fn is_ahead(s: SieveView, ahead: nat, i: int) -> bool {
    (s.look() <= i < s.look() + ahead) || i < s.look() + ahead - s.items.len()
}

proof fn lemma_sweep(
    s: SieveView,
    store: Map<Seq<u8>, EntryView>,
    scope: EvictionScope,
    ttl_aware: bool,
    now: u128,
    ahead: nat,
)
    requires
        s.wf(),
        ahead <= s.items.len(),
        forall|i: int|
            0 <= i < s.items.len() && !is_ahead(s, ahead, i) ==> eligible(
                store,
                scope,
                (#[trigger] s.items[i]).0,
            ) && !s.items[i].1,
    ensures
        ({
            let (victim, after) = s.sweep(store, scope, ttl_aware, now, ahead + 1);
            &&& victim is Some <==> exists|i: int|
                0 <= i < s.items.len() && eligible(store, scope, (#[trigger] s.items[i]).0)
            &&& victim matches Some(k) ==> eligible(store, scope, k) && exists|i: int|
                0 <= i < s.items.len() && (#[trigger] s.items[i]).0 == k
            &&& (exists|i: int|
                0 <= i < s.items.len() && is_ahead(s, ahead, i) && goes_at_once(
                    #[trigger] s.items[i],
                    store,
                    scope,
                    ttl_aware,
                    now,
                )) ==> exists|i: int|
                0 <= i < s.items.len() && is_ahead(s, ahead, i) && goes_at_once(
                    #[trigger] s.items[i],
                    store,
                    scope,
                    ttl_aware,
                    now,
                ) && victim == Some(s.items[i].0)
        }),
    decreases ahead,
{
    if s.items.len() == 0 {
    } else {
        let at = s.look();
        let item = s.items[at];
        if ahead == 0 {
            assert(!is_ahead(s, ahead, at));
            assert(eligible(store, scope, item.0));
            assert forall|i: int| 0 <= i < s.items.len() implies !is_ahead(s, ahead, i) by {}
        } else if !eligible(store, scope, item.0) {
            let t = SieveView { items: s.items.remove(at), hand: at };
            let less = (ahead - 1) as nat;
            assert forall|i: int, j: int|
                0 <= i < t.items.len() && 0 <= j < t.items.len() && (#[trigger] t.items[i]).0 == (
                #[trigger] t.items[j]).0 implies i == j by {
                let oi = if i < at { i } else { i + 1 };
                let oj = if j < at { j } else { j + 1 };
                assert(t.items[i] == s.items[oi]);
                assert(t.items[j] == s.items[oj]);
            }
            assert forall|i: int| 0 <= i < t.items.len() && !is_ahead(t, less, i) implies eligible(
                store,
                scope,
                (#[trigger] t.items[i]).0,
            ) && !t.items[i].1 by {
                let o = if i < at { i } else { i + 1 };
                assert(t.items[i] == s.items[o]);
                assert(!is_ahead(s, ahead, o));
            }
            lemma_sweep(t, store, scope, ttl_aware, now, less);
            let victim = t.sweep(store, scope, ttl_aware, now, ahead).0;
            assert(s.sweep(store, scope, ttl_aware, now, ahead + 1).0 == victim);
            assert forall|i: int|
                0 <= i < s.items.len() && eligible(
                    store,
                    scope,
                    (#[trigger] s.items[i]).0,
                ) implies exists|j: int|
                0 <= j < t.items.len() && eligible(store, scope, (#[trigger] t.items[j]).0) && (
                is_ahead(s, ahead, i) ==> is_ahead(t, less, j)) && t.items[j] == s.items[i] by {
                let j = if i < at { i } else { i - 1 };
                assert(t.items[j] == s.items[i]);
            }
            assert forall|j: int| 0 <= j < t.items.len() implies exists|i: int|
                0 <= i < s.items.len() && (#[trigger] s.items[i]) == (#[trigger] t.items[j]) && (
                is_ahead(t, less, j) ==> is_ahead(s, ahead, i)) by {
                let i = if j < at { j } else { j + 1 };
                assert(t.items[j] == s.items[i]);
            }
        } else if s.gives_way(store, ttl_aware, now) {
            assert(is_ahead(s, ahead, at));
            assert(goes_at_once(s.items[at], store, scope, ttl_aware, now));
        } else {
            let t = SieveView { items: s.items.update(at, (item.0, false)), hand: at + 1 };
            let less = (ahead - 1) as nat;
            assert forall|i: int, j: int|
                0 <= i < t.items.len() && 0 <= j < t.items.len() && (#[trigger] t.items[i]).0 == (
                #[trigger] t.items[j]).0 implies i == j by {
                assert(t.items[i].0 == s.items[i].0);
                assert(t.items[j].0 == s.items[j].0);
            }
            assert forall|i: int| 0 <= i < t.items.len() && !is_ahead(t, less, i) implies eligible(
                store,
                scope,
                (#[trigger] t.items[i]).0,
            ) && !t.items[i].1 by {
                if i != at {
                    assert(t.items[i] == s.items[i]);
                    assert(!is_ahead(s, ahead, i));
                }
            }
            lemma_sweep(t, store, scope, ttl_aware, now, less);
            assert(s.sweep(store, scope, ttl_aware, now, ahead + 1).0 == t.sweep(
                store,
                scope,
                ttl_aware,
                now,
                ahead,
            ).0);
            assert(t.items[at].0 == s.items[at].0);
            assert forall|i: int| 0 <= i < s.items.len() && is_ahead(s, ahead, i) && i != at implies
                is_ahead(t, less, i) && #[trigger] t.items[i] == s.items[i] by {}
            assert forall|i: int| 0 <= i < s.items.len() && is_ahead(t, less, i) implies is_ahead(
                s,
                ahead,
                i,
            ) && #[trigger] t.items[i] == s.items[i] by {}
            assert(!goes_at_once(s.items[at], store, scope, ttl_aware, now));
            assert forall|i: int| 0 <= i < s.items.len() implies (#[trigger] s.items[i]).0
                == t.items[i].0 by {}
        }
    }
}

/// Taking one entry out leaves the others in the queue, and only those.
proof fn lemma_one_out(items: Seq<(Seq<u8>, bool)>, at: int)
    requires
        distinct(items),
        0 <= at < items.len(),
    ensures
        distinct(items.remove(at)),
        !holds(items.remove(at), items[at].0),
        forall|k: Seq<u8>|
            holds(items, k) && k != items[at].0 ==> #[trigger] holds(items.remove(at), k),
{
    let rest = items.remove(at);
    assert forall|i: int, j: int|
        0 <= i < rest.len() && 0 <= j < rest.len() && (#[trigger] rest[i]).0 == (
        #[trigger] rest[j]).0 implies i == j by {
        let oi = if i < at { i } else { i + 1 };
        let oj = if j < at { j } else { j + 1 };
        assert(rest[i] == items[oi]);
        assert(rest[j] == items[oj]);
    }
    if holds(rest, items[at].0) {
        let i = choose|i: int| 0 <= i < rest.len() && (#[trigger] rest[i]).0 == items[at].0;
        let o = if i < at { i } else { i + 1 };
        assert(rest[i] == items[o]);
    }
    assert forall|k: Seq<u8>| holds(items, k) && k != items[at].0 implies #[trigger] holds(
        rest,
        k,
    ) by {
        let i = choose|i: int| 0 <= i < items.len() && (#[trigger] items[i]).0 == k;
        let r = if i < at { i } else { i - 1 };
        assert(rest[r] == items[i]);
    }
}

/// Changing a bit leaves every key in the queue.
proof fn lemma_bit_changed(items: Seq<(Seq<u8>, bool)>, at: int, bit: bool)
    requires
        distinct(items),
        0 <= at < items.len(),
    ensures
        distinct(items.update(at, (items[at].0, bit))),
        forall|k: Seq<u8>|
            holds(items, k) ==> #[trigger] holds(items.update(at, (items[at].0, bit)), k),
{
    let after = items.update(at, (items[at].0, bit));
    assert forall|i: int, j: int|
        0 <= i < after.len() && 0 <= j < after.len() && (#[trigger] after[i]).0 == (
        #[trigger] after[j]).0 implies i == j by {
        assert(after[i].0 == items[i].0);
        assert(after[j].0 == items[j].0);
    }
    assert forall|k: Seq<u8>| holds(items, k) implies #[trigger] holds(after, k) by {
        let i = choose|i: int| 0 <= i < items.len() && (#[trigger] items[i]).0 == k;
        assert(after[i].0 == k);
    }
}

/// A sweep takes the victim out of the queue, and no other key but those that
/// may not go.
pub proof fn lemma_sweep_keeps(
    s: SieveView,
    store: Map<Seq<u8>, EntryView>,
    scope: EvictionScope,
    ttl_aware: bool,
    now: u128,
    looks: nat,
)
    requires
        s.wf(),
    ensures
        s.sweep(store, scope, ttl_aware, now, looks).1.wf(),
        s.sweep(store, scope, ttl_aware, now, looks).0 matches Some(k) ==> eligible(
            store,
            scope,
            k,
        ) && !holds(s.sweep(store, scope, ttl_aware, now, looks).1.items, k),
        forall|k: Seq<u8>|
            holds(s.items, k) && eligible(store, scope, k) && s.sweep(
                store,
                scope,
                ttl_aware,
                now,
                looks,
            ).0 != Some(k) ==> #[trigger] holds(
                s.sweep(store, scope, ttl_aware, now, looks).1.items,
                k,
            ),
    decreases looks,
{
    if looks > 0 && s.items.len() > 0 {
        let at = s.look();
        let less = (looks - 1) as nat;
        if !eligible(store, scope, s.items[at].0) {
            let t = SieveView { items: s.items.remove(at), hand: at };
            lemma_one_out(s.items, at);
            lemma_sweep_keeps(t, store, scope, ttl_aware, now, less);
        } else if s.gives_way(store, ttl_aware, now) {
            lemma_one_out(s.items, at);
        } else {
            let t = SieveView { items: s.items.update(at, (s.items[at].0, false)), hand: at + 1 };
            lemma_bit_changed(s.items, at, false);
            lemma_sweep_keeps(t, store, scope, ttl_aware, now, less);
        }
    }
}

/// What the notifications do to the queue: an insert adds the key, a removal
/// takes it out, an access does neither, and no other key is affected.
pub proof fn lemma_queue_follows(s: SieveView, key: Seq<u8>)
    requires
        s.wf(),
    ensures
        s.inserted(key).wf(),
        s.accessed(key).wf(),
        s.removed(key).wf(),
        holds(s.inserted(key).items, key),
        forall|k: Seq<u8>| holds(s.items, k) ==> #[trigger] holds(s.inserted(key).items, k),
        forall|k: Seq<u8>| holds(s.items, k) ==> #[trigger] holds(s.accessed(key).items, k),
        forall|k: Seq<u8>|
            k != key && holds(s.items, k) ==> #[trigger] holds(s.removed(key).items, k),
{
    if holds(s.items, key) {
        let at = s.index(key);
        assert(0 <= at < s.items.len() && s.items[at].0 == key);
        lemma_bit_changed(s.items, at, false);
        lemma_bit_changed(s.items, at, true);
        lemma_one_out(s.items, at);
    } else {
        let items = s.items.push((key, false));
        assert(items[s.items.len() as int].0 == key);
        assert forall|k: Seq<u8>| holds(s.items, k) implies #[trigger] holds(items, k) by {
            let i = choose|i: int| 0 <= i < s.items.len() && (#[trigger] s.items[i]).0 == k;
            assert(items[i] == s.items[i]);
        }
        assert forall|i: int, j: int|
            0 <= i < items.len() && 0 <= j < items.len() && (#[trigger] items[i]).0 == (
            #[trigger] items[j]).0 implies i == j by {
            if i < s.items.len() && j < s.items.len() {
                assert(items[i] == s.items[i] && items[j] == s.items[j]);
            } else if i < s.items.len() {
                assert(items[i] == s.items[i]);
            } else if j < s.items.len() {
                assert(items[j] == s.items[j]);
            }
        }
    }
}

/// An eviction finds a victim exactly when the queue holds a key that may go,
/// and the victim is such a key.
pub proof fn law_sieve_finds_victim(
    s: SieveView,
    store: Map<Seq<u8>, EntryView>,
    scope: EvictionScope,
    ttl_aware: bool,
    now: u128,
)
    requires
        s.wf(),
    ensures
        s.evicted(store, scope, ttl_aware, now).0 is Some <==> exists|i: int|
            0 <= i < s.items.len() && eligible(store, scope, (#[trigger] s.items[i]).0),
        s.evicted(store, scope, ttl_aware, now).0 matches Some(k) ==> eligible(store, scope, k)
            && holds(s.items, k),
{
    assert forall|i: int| 0 <= i < s.items.len() implies is_ahead(s, s.items.len(), i) by {}
    lemma_sweep(s, store, scope, ttl_aware, now, s.items.len());
}

/// Accessed keys get a second chance: while the queue holds a key that was not
/// accessed since its bit was last cleared, or (for SIEVE-S) one close to its
/// expiry, the victim is such a key.
pub proof fn law_sieve_second_chance(
    s: SieveView,
    store: Map<Seq<u8>, EntryView>,
    scope: EvictionScope,
    ttl_aware: bool,
    now: u128,
)
    requires
        s.wf(),
        exists|i: int|
            0 <= i < s.items.len() && goes_at_once(
                #[trigger] s.items[i],
                store,
                scope,
                ttl_aware,
                now,
            ),
    ensures
        exists|i: int|
            0 <= i < s.items.len() && goes_at_once(
                #[trigger] s.items[i],
                store,
                scope,
                ttl_aware,
                now,
            ) && s.evicted(store, scope, ttl_aware, now).0 == Some(s.items[i].0),
{
    assert forall|i: int| 0 <= i < s.items.len() implies is_ahead(s, s.items.len(), i) by {}
    lemma_sweep(s, store, scope, ttl_aware, now, s.items.len());
}

/// The queue after these keys were inserted, one after the other.
pub open spec fn all_inserted(keys: Seq<Seq<u8>>) -> SieveView
    decreases keys.len(),
{
    if keys.len() == 0 {
        SieveView::empty()
    } else {
        all_inserted(keys.drop_last()).inserted(keys.last())
    }
}

/// The queue after these accesses, one after the other.
pub open spec fn all_accessed(s: SieveView, reads: Seq<Seq<u8>>) -> SieveView
    decreases reads.len(),
{
    if reads.len() == 0 {
        s
    } else {
        all_accessed(s, reads.drop_last()).accessed(reads.last())
    }
}

proof fn lemma_all_inserted(keys: Seq<Seq<u8>>)
    requires
        keys.no_duplicates(),
    ensures
        all_inserted(keys) == (SieveView {
            items: keys.map_values(|k: Seq<u8>| (k, false)),
            hand: 0,
        }),
    decreases keys.len(),
{
    if keys.len() > 0 {
        let front = keys.drop_last();
        lemma_all_inserted(front);
        let items = all_inserted(front).items;
        if holds(items, keys.last()) {
            let i = choose|i: int| 0 <= i < items.len() && (#[trigger] items[i]).0 == keys.last();
            assert(keys[i] == keys[keys.len() - 1]);
        }
        assert(items.push((keys.last(), false)) =~= keys.map_values(|k: Seq<u8>| (k, false)));
    } else {
        assert(keys.map_values(|k: Seq<u8>| (k, false)) =~= SieveView::empty().items);
    }
}

/// Accesses set bits and do nothing else.
proof fn lemma_all_accessed(keys: Seq<Seq<u8>>, reads: Seq<Seq<u8>>)
    requires
        keys.no_duplicates(),
    ensures
        all_accessed(all_inserted(keys), reads) == (SieveView {
            items: keys.map_values(|k: Seq<u8>| (k, reads.contains(k))),
            hand: 0,
        }),
    decreases reads.len(),
{
    if reads.len() > 0 {
        let front = reads.drop_last();
        let last = reads.last();
        lemma_all_accessed(keys, front);
        let before = all_accessed(all_inserted(keys), front);
        let after = keys.map_values(|k: Seq<u8>| (k, reads.contains(k)));
        assert(reads =~= front.push(last));
        assert forall|k: Seq<u8>| #[trigger] reads.contains(k) == (front.contains(k) || k
            == last) by {
            if front.contains(k) {
                let x = choose|x: int| 0 <= x < front.len() && front[x] == k;
                assert(reads[x] == k);
            }
            if k == last {
                assert(reads[reads.len() - 1] == k);
            }
        }
        if holds(before.items, last) {
            let at = before.index(last);
            assert(0 <= at < before.items.len() && before.items[at].0 == last);
            assert(keys[at] == last);
            assert(before.items.update(at, (last, true)) =~= after);
        } else {
            assert forall|i: int| 0 <= i < keys.len() implies keys[i] != last by {
                assert(before.items[i].0 == keys[i]);
            }
            assert(before.items =~= after);
        }
    } else {
        lemma_all_inserted(keys);
        assert(keys.map_values(|k: Seq<u8>| (k, false)) =~= keys.map_values(
            |k: Seq<u8>| (k, reads.contains(k)),
        ));
    }
}

/// Which entry a sweep evicts when the hand stands at `hand` and every entry
/// before it may go and has its bit clear: the first one from the hand on that
/// may go and has its bit clear, else the first that may go. The length of the
/// queue stands for none.
proof fn lemma_sweep_choice(
    s: SieveView,
    store: Map<Seq<u8>, EntryView>,
    scope: EvictionScope,
    now: u128,
) -> (at: int)
    requires
        0 <= s.hand <= s.items.len(),
        forall|j: int|
            0 <= j < s.hand ==> goes_at_once(#[trigger] s.items[j], store, scope, false, now),
    ensures
        0 <= at <= s.items.len(),
        s.sweep(store, scope, false, now, (s.items.len() - s.hand + 1) as nat).0 == (if at
            < s.items.len() {
            Some(s.items[at].0)
        } else {
            None
        }),
        at < s.items.len() ==> eligible(store, scope, s.items[at].0),
        ({
            &&& s.hand <= at < s.items.len()
            &&& !s.items[at].1
            &&& forall|j: int|
                s.hand <= j < at ==> !goes_at_once(#[trigger] s.items[j], store, scope, false, now)
        }) || ({
            &&& forall|j: int|
                s.hand <= j < s.items.len() ==> !goes_at_once(
                    #[trigger] s.items[j],
                    store,
                    scope,
                    false,
                    now,
                )
            &&& forall|j: int|
                0 <= j < at ==> !eligible(store, scope, (#[trigger] s.items[j]).0)
        }),
    decreases s.items.len() - s.hand,
{
    let h = s.hand;
    let looks = (s.items.len() - h + 1) as nat;
    if h == s.items.len() {
        if h > 0 {
            assert(goes_at_once(s.items[0], store, scope, false, now));
        }
        0
    } else if !eligible(store, scope, s.items[h].0) {
        let t = SieveView { items: s.items.remove(h), hand: h };
        assert forall|j: int| 0 <= j < h implies goes_at_once(
            #[trigger] t.items[j],
            store,
            scope,
            false,
            now,
        ) by {
            assert(t.items[j] == s.items[j]);
        }
        let i = lemma_sweep_choice(t, store, scope, now);
        assert(s.sweep(store, scope, false, now, looks).0 == t.sweep(
            store,
            scope,
            false,
            now,
            (looks - 1) as nat,
        ).0);
        assert forall|j: int| 0 <= j < s.items.len() && j != h implies #[trigger] s.items[j]
            == t.items[if j < h { j } else { j - 1 }] by {}
        if i < h {
            i
        } else {
            i + 1
        }
    } else if !s.items[h].1 {
        h
    } else {
        let t = SieveView { items: s.items.update(h, (s.items[h].0, false)), hand: h + 1 };
        assert forall|j: int| 0 <= j < h + 1 implies goes_at_once(
            #[trigger] t.items[j],
            store,
            scope,
            false,
            now,
        ) by {
            if j < h {
                assert(t.items[j] == s.items[j]);
            }
        }
        let i = lemma_sweep_choice(t, store, scope, now);
        assert(s.sweep(store, scope, false, now, looks).0 == t.sweep(
            store,
            scope,
            false,
            now,
            (looks - 1) as nat,
        ).0);
        assert forall|j: int| 0 <= j < s.items.len() implies (#[trigger] s.items[j]).0
            == t.items[j].0 && (j != h ==> s.items[j] == t.items[j]) by {}
        i
    }
}

/// Whether SIEVE takes the key at `at` first, of keys that were inserted in this
/// order and of which `reads` were accessed: it is the first that may go and was
/// not accessed, or, where all that may go were accessed, the first that may go.
pub open spec fn goes_first(
    keys: Seq<Seq<u8>>,
    reads: Seq<Seq<u8>>,
    store: Map<Seq<u8>, EntryView>,
    scope: EvictionScope,
    at: int,
) -> bool {
    &&& 0 <= at < keys.len()
    &&& eligible(store, scope, keys[at])
    &&& if exists|i: int|
        0 <= i < keys.len() && eligible(store, scope, #[trigger] keys[i]) && !reads.contains(
            keys[i],
        ) {
        !reads.contains(keys[at]) && forall|j: int|
            0 <= j < at && eligible(store, scope, #[trigger] keys[j]) ==> reads.contains(keys[j])
    } else {
        forall|j: int| 0 <= j < at ==> !eligible(store, scope, #[trigger] keys[j])
    }
}

/// The order of eviction: of keys that were inserted one after the other, some
/// of them accessed since, the first that may go and was not accessed is taken,
/// or, where all that may go were accessed, the first that may go. None is taken
/// exactly when no key may go. The victim leaves the queue.
pub proof fn law_sieve_takes_first_unread(
    keys: Seq<Seq<u8>>,
    reads: Seq<Seq<u8>>,
    store: Map<Seq<u8>, EntryView>,
    scope: EvictionScope,
    now: u128,
)
    requires
        keys.no_duplicates(),
    ensures
        ({
            let s = all_accessed(all_inserted(keys), reads);
            let (victim, after) = s.evicted(store, scope, false, now);
            match victim {
                Some(k) => !holds(after.items, k) && exists|at: int|
                    #[trigger] goes_first(keys, reads, store, scope, at) && keys[at] == k,
                None => forall|i: int|
                    0 <= i < keys.len() ==> !eligible(store, scope, #[trigger] keys[i]),
            }
        }),
{
    let s = all_accessed(all_inserted(keys), reads);
    lemma_all_accessed(keys, reads);
    assert forall|i: int| 0 <= i < keys.len() implies #[trigger] s.items[i] == (
        keys[i],
        reads.contains(keys[i]),
    ) by {}
    assert(s.wf());
    let at = lemma_sweep_choice(s, store, scope, now);
    lemma_sweep_keeps(s, store, scope, false, now, s.items.len() + 1);
    assert forall|i: int| 0 <= i < keys.len() implies goes_at_once(
        s.items[i],
        store,
        scope,
        false,
        now,
    ) == (eligible(store, scope, #[trigger] keys[i]) && !reads.contains(keys[i])) by {
        assert(s.items[i].0 == keys[i]);
    }
    if at < keys.len() {
        assert(s.items[at].0 == keys[at]);
        assert(goes_first(keys, reads, store, scope, at));
    } else {
        assert forall|i: int| 0 <= i < keys.len() implies !eligible(
            store,
            scope,
            #[trigger] keys[i],
        ) by {
            assert(s.items[i].0 == keys[i]);
        }
    }
}

/// Close to its expiry is a key that has at most six seconds left, a tenth of a minute;
/// another share moves that bound in proportion. A key without a deadline counts too.
pub proof fn law_close_to_expiry(entry: EntryView, now: u128, percent: u64)
    ensures
        entry.expire_at matches Some(deadline) ==> (near_expiry(entry, now, percent) <==> 100 * (
        deadline - now) <= percent * 60_000_000_000),
        entry.expire_at matches Some(deadline) ==> (near_expiry(
            entry,
            now,
            SIEVE_S_TTL_THRESHOLD_PERCENT,
        ) <==> deadline - now <= 6_000_000_000),
        entry.expire_at is None ==> near_expiry(entry, now, percent),
{
    assert(percent * SIEVE_S_HORIZON_MS * 10_000 == percent * 600_000_000) by (nonlinear_arith)
        requires
            SIEVE_S_HORIZON_MS == 60_000,
    ;
}

/// An accessed key under the hand is passed over once, unless the variant minds lifetimes
/// and at most six seconds are left: then it goes, and the next key stays.
pub proof fn law_sieve_minds_lifetimes(
    s: SieveView,
    store: Map<Seq<u8>, EntryView>,
    scope: EvictionScope,
    now: u128,
)
    requires
        s.items.len() >= 2,
        s.hand == 0,
        s.items[0].1,
        !s.items[1].1,
        eligible(store, scope, s.items[0].0),
        eligible(store, scope, s.items[1].0),
        store[s.items[0].0].expire_at is Some,
    ensures
        ({
            let left = store[s.items[0].0].expire_at->0 - now;
            &&& s.evicted(store, scope, false, now).0 == Some(s.items[1].0)
            &&& left <= 6_000_000_000 ==> s.evicted(store, scope, true, now).0 == Some(
                s.items[0].0,
            )
            &&& left > 6_000_000_000 ==> s.evicted(store, scope, true, now).0 == Some(
                s.items[1].0,
            )
        }),
{
    law_close_to_expiry(store[s.items[0].0], now, SIEVE_S_TTL_THRESHOLD_PERCENT);
    reveal_with_fuel(SieveView::sweep, 3);
}

/// A new key enters last and unread; a known one keeps its place and counts as unread
/// again. A read marks the key and moves nothing. The hand stays.
pub proof fn law_sieve_insert_and_access(s: SieveView, key: Seq<u8>, at: int)
    requires
        s.wf(),
        0 <= at < s.items.len() && s.items[at].0 == key,
    ensures
        s.inserted(key).items == s.items.update(at, (key, false)),
        s.accessed(key).items == s.items.update(at, (key, true)),
        s.inserted(key).hand == s.hand,
        s.accessed(key).hand == s.hand,
        forall|new: Seq<u8>| !holds(s.items, new) ==> #[trigger] s.inserted(new).items
            == s.items.push((new, false)) && s.inserted(new).hand == s.hand,
{
    assert(holds(s.items, key));
    let i = s.index(key);
    assert(s.items[i].0 == s.items[at].0);
}

/// A removal moves no other key, and the hand stays on the key that it pointed at; where
/// that key goes, it points at the next, and behind the last at the first.
pub proof fn law_sieve_removal(s: SieveView, key: Seq<u8>, at: int)
    requires
        s.wf(),
        s.hand < s.items.len(),
        0 <= at < s.items.len() && s.items[at].0 == key,
    ensures
        ({
            let t = s.removed(key);
            &&& t.items == s.items.remove(at)
            &&& at != s.hand ==> t.items[t.hand] == s.items[s.hand]
            &&& at == s.hand && at + 1 < s.items.len() ==> t.items[t.hand] == s.items[at + 1]
            &&& at == s.hand && at + 1 == s.items.len() ==> t.hand == 0
        }),
{
    assert(holds(s.items, key));
    let i = s.index(key);
    assert(s.items[i].0 == s.items[at].0);
    assert(i == at);
}

/// An unread key under the hand goes at once, and the hand then points at the next key, or
/// behind the last at the first. A read key under the hand is passed over and counts as
/// unread from then on.
pub proof fn law_sieve_hand_moves_on(
    s: SieveView,
    store: Map<Seq<u8>, EntryView>,
    scope: EvictionScope,
    now: u128,
)
    requires
        s.wf(),
        s.hand < s.items.len(),
        eligible(store, scope, s.items[s.hand].0),
    ensures
        !s.items[s.hand].1 ==> {
            let (victim, t) = s.evicted(store, scope, false, now);
            &&& victim == Some(s.items[s.hand].0)
            &&& t.items == s.items.remove(s.hand)
            &&& s.hand + 1 < s.items.len() ==> t.items[t.hand] == s.items[s.hand + 1]
            &&& s.hand + 1 == s.items.len() ==> t.hand == 0
        },
        s.items[s.hand].1 && s.hand + 1 < s.items.len() && !s.items[s.hand + 1].1 && eligible(
            store,
            scope,
            s.items[s.hand + 1].0,
        ) ==> {
            let (victim, t) = s.evicted(store, scope, false, now);
            &&& victim == Some(s.items[s.hand + 1].0)
            &&& t.items[s.hand] == (s.items[s.hand].0, false)
            &&& t.items.len() == s.items.len() - 1
        },
{
    reveal_with_fuel(SieveView::sweep, 3);
}

} // verus!
