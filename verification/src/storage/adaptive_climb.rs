//! The AdaptiveClimb eviction structure.
//!
//! The live keys stand in a list from most recently used to least recently
//! used. One number, `jump`, says how far a hit lifts a key; hits lower it and
//! inserts raise it, so the list tunes itself between climbing slowly and
//! jumping to the front. Eviction takes the last key that may go.

use indexmap::IndexMap;
use vstd::prelude::*;

use crate::bytes::copied;
use crate::storage::entry::EntryView;
use crate::storage::eviction::EvictionScope;
use crate::storage::keyspace::{
    key_less, lemma_key_less_irreflexive, lists_keys, sorted_keys, Keyspace,
};
use crate::storage::queue::{
    distinct, holds, queue_at, queue_clear, queue_index_of, queue_insert_before, queue_items,
    queue_len, queue_new, queue_remove, queue_remove_at,
};
use crate::storage::sieve::{eligible, entry_in_scope, is_eligible, lemma_scope_keys, scope_keys};

verus! {

/// `n`, but at least `low` and at most `high`.
pub open spec fn clamped(n: int, low: int, high: int) -> int {
    if n < low {
        low
    } else if n > high {
        high
    } else {
        n
    }
}

/// The list from most to least recently used, and the jump.
#[verifier::ext_equal]
pub struct ClimbView {
    pub keys: Seq<Seq<u8>>,
    pub jump: int,
}

/// The keys without `key`.
pub open spec fn without(keys: Seq<Seq<u8>>, key: Seq<u8>) -> Seq<Seq<u8>> {
    if keys.contains(key) {
        keys.remove(keys.index_of(key))
    } else {
        keys
    }
}

impl ClimbView {
    /// No key occurs twice and the jump is at least one.
    pub open spec fn wf(self) -> bool {
        self.keys.no_duplicates() && self.jump >= 1
    }

    pub open spec fn empty() -> ClimbView {
        ClimbView { keys: Seq::empty(), jump: 1 }
    }

    /// The jump brought into the range from one to the list's length.
    pub open spec fn fitted(self) -> ClimbView {
        ClimbView {
            jump: if self.keys.len() == 0 {
                1
            } else {
                clamped(self.jump, 1, self.keys.len() as int)
            },
            ..self
        }
    }

    /// After an insert: the jump grows by one, up to the list's length, and the
    /// key stands `jump` places from the end. A known key enters anew.
    pub open spec fn inserted(self, key: Seq<u8>) -> ClimbView {
        let rest = (ClimbView { keys: without(self.keys, key), ..self }).fitted();
        let len = rest.keys.len() as int;
        let jump = if len == 0 || rest.jump >= len {
            rest.jump
        } else {
            rest.jump + 1
        };
        ClimbView { keys: rest.keys.insert(clamped(len - jump, 0, len), key), jump }
    }

    /// After a hit: the jump shrinks by one, down to one, and the key moves up
    /// by `jump` places.
    pub open spec fn accessed(self, key: Seq<u8>) -> ClimbView {
        if self.keys.contains(key) {
            let at = self.keys.index_of(key);
            let jump = if self.jump > 1 {
                self.jump - 1
            } else {
                self.jump
            };
            ClimbView {
                keys: self.keys.remove(at).insert(clamped(at - jump, 0, at), key),
                jump,
            }
        } else {
            self
        }
    }

    /// After a removal.
    pub open spec fn removed(self, key: Seq<u8>) -> ClimbView {
        (ClimbView { keys: without(self.keys, key), ..self }).fitted()
    }

    /// The list of every eligible key of a store.
    pub open spec fn rebuilt(store: Map<Seq<u8>, EntryView>, scope: EvictionScope) -> ClimbView {
        ClimbView { keys: scope_keys(store, scope, sorted_keys(store)), jump: 1 }
    }

    /// One eviction: the last key that may go leaves the list.
    pub open spec fn evicted(self, store: Map<Seq<u8>, EntryView>, scope: EvictionScope) -> (
        Option<Seq<u8>>,
        ClimbView,
    ) {
        match last_eligible(self.keys, store, scope) {
            Some(at) => (
                Some(self.keys[at]),
                ClimbView { keys: self.keys.remove(at), ..self },
            ),
            None => (None, self),
        }
    }
}

/// The greatest index whose key may go.
pub open spec fn last_eligible(
    keys: Seq<Seq<u8>>,
    store: Map<Seq<u8>, EntryView>,
    scope: EvictionScope,
) -> Option<int>
    decreases keys.len(),
{
    if keys.len() == 0 {
        None
    } else if eligible(store, scope, keys.last()) {
        Some(keys.len() - 1)
    } else {
        last_eligible(keys.drop_last(), store, scope)
    }
}

/// The keys of a queue's entries.
pub open spec fn item_keys(items: Seq<(Seq<u8>, bool)>) -> Seq<Seq<u8>> {
    items.map_values(|item: (Seq<u8>, bool)| item.0)
}

proof fn lemma_item_keys(items: Seq<(Seq<u8>, bool)>)
    ensures
        item_keys(items).no_duplicates() <==> distinct(items),
        forall|key: Seq<u8>|
            #![trigger holds(items, key)]
            #![trigger item_keys(items).contains(key)]
            holds(items, key) <==> item_keys(items).contains(key),
{
    let keys = item_keys(items);
    if keys.no_duplicates() {
        assert forall|i: int, j: int|
            0 <= i < items.len() && 0 <= j < items.len() && (#[trigger] items[i]).0 == (
            #[trigger] items[j]).0 implies i == j by {
            assert(keys[i] == keys[j]);
        }
    }
    if distinct(items) {
        assert forall|i: int, j: int|
            0 <= i < keys.len() && 0 <= j < keys.len() && i != j implies keys[i] != keys[j] by {
            assert(keys[i] == items[i].0);
            assert(keys[j] == items[j].0);
        }
    }
    assert forall|key: Seq<u8>|
        #![trigger holds(items, key)]
        #![trigger item_keys(items).contains(key)]
        holds(items, key) <==> item_keys(items).contains(key) by {
        if holds(items, key) {
            let i = choose|i: int| 0 <= i < items.len() && (#[trigger] items[i]).0 == key;
            assert(keys[i] == key);
        }
        if keys.contains(key) {
            let i = choose|i: int| 0 <= i < keys.len() && keys[i] == key;
            assert(items[i].0 == key);
        }
    }
}

/// The AdaptiveClimb list.
pub struct AdaptiveClimbState {
    queue: IndexMap<Vec<u8>, bool>,
    jump: usize,
}

impl View for AdaptiveClimbState {
    type V = ClimbView;

    closed spec fn view(&self) -> ClimbView {
        ClimbView { keys: item_keys(queue_items(self.queue)), jump: self.jump as int }
    }
}

impl Default for AdaptiveClimbState {
    fn default() -> (s: AdaptiveClimbState)
        ensures
            s@ == ClimbView::empty(),
    {
        AdaptiveClimbState::new()
    }
}

impl AdaptiveClimbState {
    /// An empty list.
    pub fn new() -> (s: AdaptiveClimbState)
        ensures
            s@ == ClimbView::empty(),
    {
        let queue = queue_new();
        assert(item_keys(queue_items(queue)) =~= Seq::<Seq<u8>>::empty());
        AdaptiveClimbState { queue, jump: 1 }
    }

    fn clamp_jump(&mut self)
        ensures
            final(self)@ == old(self)@.fitted(),
    {
        let len: usize = queue_len(&self.queue);
        if len == 0 {
            self.jump = 1;
        } else if self.jump < 1 {
            self.jump = 1;
        } else if self.jump > len {
            self.jump = len;
        }
    }

    fn drop_key(&mut self, key: &[u8])
        requires
            old(self)@.wf(),
        ensures
            final(self)@ == (ClimbView { keys: without(old(self)@.keys, key@), ..old(self)@ }),
            final(self)@.wf(),
            !final(self)@.keys.contains(key@),
    {
        let ghost items = queue_items(self.queue);
        let ghost keys = item_keys(items);
        proof {
            lemma_item_keys(items);
            if keys.contains(key@) {
                let at = keys.index_of(key@);
                assert(items[at].0 == key@);
                assert(item_keys(items.remove(at)) =~= keys.remove(at));
            }
        }
        queue_remove(&mut self.queue, key);
        proof {
            if keys.contains(key@) {
                let at = keys.index_of(key@);
                assert(keys.remove(at).no_duplicates());
                if keys.remove(at).contains(key@) {
                    let j = choose|j: int|
                        0 <= j < keys.remove(at).len() && keys.remove(at)[j] == key@;
                    let o = if j < at { j } else { j + 1 };
                    assert(keys[o] == key@);
                }
            }
        }
    }

    fn put_at(&mut self, at: usize, key: Vec<u8>)
        requires
            old(self)@.wf(),
            at <= old(self)@.keys.len(),
            !old(self)@.keys.contains(key@),
        ensures
            final(self)@ == (ClimbView {
                keys: old(self)@.keys.insert(at as int, key@),
                ..old(self)@
            }),
            final(self)@.wf(),
    {
        let ghost items = queue_items(self.queue);
        let ghost keys = item_keys(items);
        let ghost k = key@;
        proof {
            lemma_item_keys(items);
        }
        queue_insert_before(&mut self.queue, at, key, false);
        proof {
            let grown = keys.insert(at as int, k);
            assert(item_keys(queue_items(self.queue)) =~= grown);
            assert forall|i: int, j: int|
                0 <= i < grown.len() && 0 <= j < grown.len() && i != j implies grown[i]
                != grown[j] by {
                let oi = if i < at { i } else { i - 1 };
                let oj = if j < at { j } else { j - 1 };
                if i != at && j != at {
                    assert(keys[oi] != keys[oj]);
                } else if i == at {
                    assert(grown[j] == keys[oj]);
                } else {
                    assert(grown[i] == keys[oi]);
                }
            }
        }
    }

    /// Records an insert or an overwrite.
    pub fn observe_insert(&mut self, key: &[u8])
        requires
            old(self)@.wf(),
        ensures
            final(self)@ == old(self)@.inserted(key@),
            final(self)@.wf(),
    {
        self.drop_key(key);
        self.clamp_jump();
        let len: usize = queue_len(&self.queue);
        if len != 0 && self.jump < len {
            self.jump = self.jump + 1;
        }
        let at: usize = if self.jump >= len {
            0
        } else {
            len - self.jump
        };
        self.put_at(at, copied(key));
    }

    /// Records a hit.
    pub fn observe_access(&mut self, key: &[u8])
        requires
            old(self)@.wf(),
        ensures
            final(self)@ == old(self)@.accessed(key@),
            final(self)@.wf(),
    {
        let ghost items = queue_items(self.queue);
        let ghost keys = item_keys(items);
        proof {
            lemma_item_keys(items);
        }
        match queue_index_of(&self.queue, key) {
            None => {},
            Some(at) => {
                assert(keys[at as int] == key@);
                assert(keys.contains(key@));
                assert(keys[keys.index_of(key@)] == key@);
                assert(keys.index_of(key@) == at);
                if self.jump > 1 {
                    self.jump = self.jump - 1;
                }
                if at > 0 {
                    let target: usize = if self.jump >= at {
                        0
                    } else {
                        at - self.jump
                    };
                    if let Some((moved, _flag)) = queue_remove_at(&mut self.queue, at) {
                        proof {
                            let rest = keys.remove(at as int);
                            assert(item_keys(queue_items(self.queue)) =~= rest);
                            assert(rest.no_duplicates());
                            if rest.contains(key@) {
                                let j = choose|j: int| 0 <= j < rest.len() && rest[j] == key@;
                                let o = if j < at { j } else { j + 1 };
                                assert(keys[o] == key@);
                            }
                        }
                        self.put_at(target, moved);
                    }
                } else {
                    assert(keys.remove(0).insert(0, key@) =~= keys);
                }
            },
        }
    }

    /// Records a removal.
    pub fn observe_remove(&mut self, key: &[u8])
        requires
            old(self)@.wf(),
        ensures
            final(self)@ == old(self)@.removed(key@),
            final(self)@.wf(),
    {
        self.drop_key(key);
        self.clamp_jump();
    }

    /// Fills the list with the keys of a store that the scope admits.
    pub fn rebuild(&mut self, store: &Keyspace, scope: EvictionScope)
        ensures
            final(self)@ == ClimbView::rebuilt(store@, scope),
            final(self)@.wf(),
    {
        self.clear();
        let n: usize = store.len();
        let ghost keys = sorted_keys(store@);
        let mut i: usize = 0;
        assert(scope_keys(store@, scope, keys.take(0)) =~= Seq::<Seq<u8>>::empty());
        while i < n
            invariant
                i <= n,
                n == keys.len(),
                keys == sorted_keys(store@),
                lists_keys(keys, store@),
                self@.wf(),
                self@ == (ClimbView {
                    keys: scope_keys(store@, scope, keys.take(i as int)),
                    jump: 1,
                }),
            decreases n - i,
        {
            let ghost sofar = keys.take(i as int);
            let ghost more = keys.take(i as int + 1);
            let ghost admitted = scope_keys(store@, scope, sofar);
            assert(more.drop_last() =~= sofar);
            assert(more.last() == keys[i as int]);
            if entry_in_scope(scope, store.entry_at(i)) {
                proof {
                    lemma_scope_keys(store@, scope, sofar);
                    if admitted.contains(keys[i as int]) {
                        let j = choose|j: int|
                            0 <= j < admitted.len() && admitted[j] == keys[i as int];
                        assert(sofar.contains(admitted[j]));
                        let x = choose|x: int| 0 <= x < sofar.len() && sofar[x] == admitted[j];
                        assert(key_less(keys[x], keys[i as int]));
                        lemma_key_less_irreflexive(keys[x]);
                    }
                }
                let len: usize = queue_len(&self.queue);
                self.put_at(len, copied(store.key_at(i).as_slice()));
                assert(admitted.insert(len as int, keys[i as int]) =~= admitted.push(
                    keys[i as int],
                ));
            }
            i += 1;
        }
        assert(keys.take(i as int) =~= keys);
    }

    /// Empties the list.
    pub fn clear(&mut self)
        ensures
            final(self)@ == ClimbView::empty(),
    {
        queue_clear(&mut self.queue);
        assert(item_keys(queue_items(self.queue)) =~= Seq::<Seq<u8>>::empty());
        self.jump = 1;
    }

    /// The number of keys in the list.
    pub fn len(&self) -> (n: usize)
        ensures
            n == self@.keys.len(),
    {
        queue_len(&self.queue)
    }

    /// The present jump.
    pub fn jump(&self) -> (jump: usize)
        ensures
            jump == self@.jump,
    {
        self.jump
    }

    /// The position of a key, counted from the most recently used.
    pub fn position(&self, key: &[u8]) -> (at: Option<usize>)
        ensures
            match at {
                Some(i) => i < self@.keys.len() && self@.keys[i as int] == key@,
                None => !self@.keys.contains(key@),
            },
    {
        proof {
            lemma_item_keys(queue_items(self.queue));
        }
        queue_index_of(&self.queue, key)
    }

    /// Takes the victim out of the list. Keys that may not go stay where they
    /// are.
    pub fn evict_one(&mut self, store: &Keyspace, scope: EvictionScope) -> (victim: Option<Vec<u8>>)
        requires
            old(self)@.wf(),
        ensures
            final(self)@.wf(),
            old(self)@.evicted(store@, scope).1 == final(self)@,
            match (victim, old(self)@.evicted(store@, scope).0) {
                (Some(v), Some(k)) => v@ == k,
                (None, None) => true,
                _ => false,
            },
    {
        let ghost items = queue_items(self.queue);
        let ghost keys = item_keys(items);
        let mut left: usize = queue_len(&self.queue);
        assert(keys.take(left as int) =~= keys);
        while left > 0
            invariant
                left <= items.len(),
                items == queue_items(self.queue),
                keys == item_keys(items),
                old(self)@ == self@,
                self@.wf(),
                last_eligible(keys, store@, scope) == last_eligible(
                    keys.take(left as int),
                    store@,
                    scope,
                ),
            decreases left,
        {
            let at: usize = left - 1;
            assert(keys.take(left as int).drop_last() =~= keys.take(at as int));
            assert(keys.take(left as int).last() == keys[at as int]);
            assert(keys[at as int] == items[at as int].0);
            match queue_at(&self.queue, at) {
                Some((key, _flag)) => {
                    if is_eligible(store, scope, key.as_slice()) {
                        let taken = queue_remove_at(&mut self.queue, at);
                        assert(item_keys(items.remove(at as int)) =~= keys.remove(at as int));
                        assert(keys.remove(at as int).no_duplicates());
                        return Some(key);
                    }
                },
                None => {},
            }
            left = at;
        }
        None
    }
}

proof fn lemma_last_eligible(
    keys: Seq<Seq<u8>>,
    store: Map<Seq<u8>, EntryView>,
    scope: EvictionScope,
)
    ensures
        match last_eligible(keys, store, scope) {
            Some(at) => 0 <= at < keys.len() && eligible(store, scope, keys[at]) && forall|i: int|
                at < i < keys.len() ==> !eligible(store, scope, #[trigger] keys[i]),
            None => forall|i: int| 0 <= i < keys.len() ==> !eligible(
                store,
                scope,
                #[trigger] keys[i],
            ),
        },
    decreases keys.len(),
{
    if keys.len() > 0 && !eligible(store, scope, keys.last()) {
        lemma_last_eligible(keys.drop_last(), store, scope);
        let front = keys.drop_last();
        assert forall|i: int| 0 <= i < front.len() implies front[i] == #[trigger] keys[i] by {}
    }
}

/// The victim is the least recently used key that may go, and there is one
/// whenever any key may go.
pub proof fn law_climb_evicts_lru_end(
    s: ClimbView,
    store: Map<Seq<u8>, EntryView>,
    scope: EvictionScope,
)
    ensures
        match s.evicted(store, scope).0 {
            Some(k) => exists|at: int|
                #![trigger s.keys[at]]
                0 <= at < s.keys.len() && s.keys[at] == k && eligible(store, scope, k) && forall|
                    i: int,
                |
                    at < i < s.keys.len() ==> !eligible(store, scope, #[trigger] s.keys[i]),
            None => forall|i: int|
                0 <= i < s.keys.len() ==> !eligible(store, scope, #[trigger] s.keys[i]),
        },
{
    lemma_last_eligible(s.keys, store, scope);
}

/// A hit never moves a key away from the front, and moves it up by at least one
/// place unless it already stands there.
pub proof fn law_climb_hit_promotes(s: ClimbView, key: Seq<u8>)
    requires
        s.wf(),
        s.keys.contains(key),
    ensures
        s.accessed(key).keys.contains(key),
        s.accessed(key).wf(),
        s.accessed(key).keys.len() == s.keys.len(),
        s.keys.index_of(key) == 0 ==> s.accessed(key).keys.index_of(key) == 0,
        s.keys.index_of(key) > 0 ==> s.accessed(key).keys.index_of(key) < s.keys.index_of(key),
{
    let keys = s.keys;
    let at = keys.index_of(key);
    assert(keys[at] == key);
    let t = s.accessed(key);
    let to = clamped(at - t.jump, 0, at);
    assert(t.keys[to] == key);
    assert forall|i: int, j: int|
        0 <= i < t.keys.len() && 0 <= j < t.keys.len() && i != j implies t.keys[i] != t.keys[j] by {
        let ri = if i < to { i } else { i - 1 };
        let rj = if j < to { j } else { j - 1 };
        let oi = if ri < at { ri } else { ri + 1 };
        let oj = if rj < at { rj } else { rj + 1 };
        if i != to {
            assert(t.keys[i] == keys[oi]);
        }
        if j != to {
            assert(t.keys[j] == keys[oj]);
        }
    }
    assert(t.keys[t.keys.index_of(key)] == key);
}

/// Taking one key out leaves the others in the list.
proof fn lemma_key_out(keys: Seq<Seq<u8>>, at: int)
    requires
        keys.no_duplicates(),
        0 <= at < keys.len(),
    ensures
        keys.remove(at).no_duplicates(),
        !keys.remove(at).contains(keys[at]),
        forall|k: Seq<u8>|
            keys.contains(k) && k != keys[at] ==> #[trigger] keys.remove(at).contains(k),
{
    let rest = keys.remove(at);
    assert forall|i: int, j: int| 0 <= i < rest.len() && 0 <= j < rest.len() && i != j implies rest[i]
        != rest[j] by {
        let oi = if i < at { i } else { i + 1 };
        let oj = if j < at { j } else { j + 1 };
        assert(rest[i] == keys[oi] && rest[j] == keys[oj]);
    }
    assert forall|i: int| 0 <= i < rest.len() implies rest[i] != keys[at] by {
        let oi = if i < at { i } else { i + 1 };
        assert(rest[i] == keys[oi]);
    }
    assert forall|k: Seq<u8>| keys.contains(k) && k != keys[at] implies #[trigger] rest.contains(
        k,
    ) by {
        let i = choose|i: int| 0 <= i < keys.len() && keys[i] == k;
        let r = if i < at { i } else { i - 1 };
        assert(rest[r] == k);
    }
}

/// Putting a new key in leaves the others in the list.
proof fn lemma_key_in(keys: Seq<Seq<u8>>, at: int, key: Seq<u8>)
    requires
        keys.no_duplicates(),
        !keys.contains(key),
        0 <= at <= keys.len(),
    ensures
        keys.insert(at, key).no_duplicates(),
        keys.insert(at, key).contains(key),
        forall|k: Seq<u8>| keys.contains(k) ==> #[trigger] keys.insert(at, key).contains(k),
{
    let more = keys.insert(at, key);
    assert(more[at] == key);
    assert forall|i: int, j: int| 0 <= i < more.len() && 0 <= j < more.len() && i != j implies more[i]
        != more[j] by {
        let oi = if i < at { i } else { i - 1 };
        let oj = if j < at { j } else { j - 1 };
        if i != at {
            assert(more[i] == keys[oi]);
            assert(keys.contains(keys[oi]));
        }
        if j != at {
            assert(more[j] == keys[oj]);
            assert(keys.contains(keys[oj]));
        }
    }
    assert forall|k: Seq<u8>| keys.contains(k) implies #[trigger] more.contains(k) by {
        let i = choose|i: int| 0 <= i < keys.len() && keys[i] == k;
        let r = if i < at { i } else { i + 1 };
        assert(more[r] == k);
    }
}

/// What the notifications do to the list: an insert adds the key, a removal
/// takes it out, an access does neither, and no other key is affected.
pub proof fn lemma_list_follows(s: ClimbView, key: Seq<u8>)
    requires
        s.wf(),
    ensures
        s.inserted(key).wf(),
        s.accessed(key).wf(),
        s.removed(key).wf(),
        s.inserted(key).keys.contains(key),
        forall|k: Seq<u8>| s.keys.contains(k) ==> #[trigger] s.inserted(key).keys.contains(k),
        forall|k: Seq<u8>| s.keys.contains(k) ==> #[trigger] s.accessed(key).keys.contains(k),
        forall|k: Seq<u8>|
            k != key && s.keys.contains(k) ==> #[trigger] s.removed(key).keys.contains(k),
{
    let rest = without(s.keys, key);
    if s.keys.contains(key) {
        let at = s.keys.index_of(key);
        assert(0 <= at < s.keys.len() && s.keys[at] == key);
        lemma_key_out(s.keys, at);
        let jump = s.accessed(key).jump;
        lemma_key_in(rest, clamped(at - jump, 0, at), key);
    }
    assert(!rest.contains(key));
    let len = rest.len() as int;
    lemma_key_in(rest, clamped(len - s.inserted(key).jump, 0, len), key);
}

/// An eviction takes no key but the victim out of the list.
pub proof fn lemma_eviction_keeps(
    s: ClimbView,
    store: Map<Seq<u8>, EntryView>,
    scope: EvictionScope,
)
    requires
        s.wf(),
    ensures
        s.evicted(store, scope).1.wf(),
        forall|k: Seq<u8>|
            s.keys.contains(k) && s.evicted(store, scope).0 != Some(k) ==> #[trigger] s.evicted(
                store,
                scope,
            ).1.keys.contains(k),
{
    lemma_last_eligible(s.keys, store, scope);
    if let Some(at) = last_eligible(s.keys, store, scope) {
        lemma_key_out(s.keys, at);
    }
}

/// A hit shortens the jump by one, to no less than one, and moves the key up by that many
/// places or to the front. The others keep their order.
pub proof fn law_climb_hit(s: ClimbView, key: Seq<u8>)
    requires
        s.wf(),
        s.keys.contains(key),
    ensures
        ({
            let t = s.accessed(key);
            let at = s.keys.index_of(key);
            &&& s.jump > 1 ==> t.jump == s.jump - 1
            &&& s.jump == 1 ==> t.jump == 1
            &&& at >= t.jump ==> t.keys.index_of(key) == at - t.jump
            &&& at < t.jump ==> t.keys.index_of(key) == 0
            &&& without(t.keys, key) == without(s.keys, key)
        }),
{
    law_climb_hit_promotes(s, key);
    let t = s.accessed(key);
    let at = s.keys.index_of(key);
    assert(s.keys[at] == key);
    let to = if at >= t.jump {
        at - t.jump
    } else {
        0
    };
    assert(t.keys[to] == key);
    assert(t.keys.index_of(key) == to);
    assert(t.keys.remove(to) =~= s.keys.remove(at));
}

/// A new key lengthens the jump by one, to no more than the list's length, and enters that
/// many places from the end. The others keep their order.
pub proof fn law_climb_insert(s: ClimbView, key: Seq<u8>)
    requires
        s.wf(),
        !s.keys.contains(key),
        1 <= s.jump <= s.keys.len(),
    ensures
        ({
            let t = s.inserted(key);
            &&& s.jump < s.keys.len() ==> t.jump == s.jump + 1
            &&& s.jump == s.keys.len() ==> t.jump == s.jump
            &&& t.keys.len() == s.keys.len() + 1
            &&& t.keys[t.keys.len() - 1 - t.jump] == key
            &&& t.keys.remove(t.keys.len() - 1 - t.jump) == s.keys
        }),
{
    let t = s.inserted(key);
    assert(t.keys.remove(t.keys.len() - 1 - t.jump) =~= s.keys);
}

/// An eviction takes the victim out and leaves the others in order and the jump as it is;
/// a list that is built anew starts with a jump of one.
pub proof fn law_climb_eviction_keeps_jump(
    s: ClimbView,
    store: Map<Seq<u8>, EntryView>,
    scope: EvictionScope,
)
    ensures
        s.evicted(store, scope).1.jump == s.jump,
        s.evicted(store, scope).0 is None ==> s.evicted(store, scope).1 == s,
        s.evicted(store, scope).0 matches Some(k) ==> exists|at: int|
            0 <= at < s.keys.len() && #[trigger] s.keys[at] == k && s.evicted(store, scope).1.keys
                == s.keys.remove(at),
        ClimbView::rebuilt(store, scope).jump == 1,
        ClimbView::empty().jump == 1,
{
    law_climb_evicts_lru_end(s, store, scope);
    lemma_last_eligible(s.keys, store, scope);
    if let Some(at) = last_eligible(s.keys, store, scope) {
        assert(s.keys[at] == s.evicted(store, scope).0->0);
    }
}

/// A removal leaves the others in order, and the jump no longer than the list.
pub proof fn law_climb_removal(s: ClimbView, key: Seq<u8>)
    requires
        s.wf(),
    ensures
        ({
            let t = s.removed(key);
            &&& t.keys == without(s.keys, key)
            &&& t.keys.len() == 0 ==> t.jump == 1
            &&& t.keys.len() > 0 && s.jump <= t.keys.len() ==> t.jump == s.jump
            &&& t.keys.len() > 0 && s.jump > t.keys.len() ==> t.jump == t.keys.len()
        }),
{
}

} // verus!
