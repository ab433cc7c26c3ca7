//! The key index: a vector of slots kept in ascending key order.
//!
//! Lookup is a binary search. The order of a walk through the keyspace is a
//! function of its contents alone: ascending by key.

use vstd::prelude::*;

use crate::clock::Clock;
use crate::storage::entry::{EntryView, ValueEntry};

verus! {

/// Lexicographic order on byte strings.
pub open spec fn key_less(a: Seq<u8>, b: Seq<u8>) -> bool
    decreases a.len(),
{
    if b.len() == 0 {
        false
    } else if a.len() == 0 {
        true
    } else {
        a[0] < b[0] || (a[0] == b[0] && key_less(a.skip(1), b.skip(1)))
    }
}

/// Keys are in the order of their bytes: the first byte in which two keys differ decides,
/// and a key comes before every longer one that begins with it.
pub proof fn law_key_order(common: Seq<u8>, a: Seq<u8>, b: Seq<u8>)
    requires
        b.len() > 0,
        a.len() > 0 ==> a[0] < b[0],
    ensures
        key_less(common + a, common + b),
        !key_less(common + b, common + a),
    decreases common.len(),
{
    if common.len() > 0 {
        let rest = common.skip(1);
        assert((common + a).skip(1) =~= rest + a);
        assert((common + b).skip(1) =~= rest + b);
        law_key_order(rest, a, b);
    } else {
        assert(common + a =~= a);
        assert(common + b =~= b);
    }
}

pub proof fn lemma_key_less_irreflexive(a: Seq<u8>)
    ensures
        !key_less(a, a),
    decreases a.len(),
{
    if a.len() > 0 {
        lemma_key_less_irreflexive(a.skip(1));
    }
}

pub proof fn lemma_key_less_transitive(a: Seq<u8>, b: Seq<u8>, c: Seq<u8>)
    requires
        key_less(a, b),
        key_less(b, c),
    ensures
        key_less(a, c),
    decreases a.len(),
{
    if a.len() > 0 && b.len() > 0 && c.len() > 0 && a[0] == b[0] && b[0] == c[0] {
        lemma_key_less_transitive(a.skip(1), b.skip(1), c.skip(1));
    }
}

pub proof fn lemma_key_less_total(a: Seq<u8>, b: Seq<u8>)
    ensures
        a == b || key_less(a, b) || key_less(b, a),
    decreases a.len(),
{
    if a.len() == 0 || b.len() == 0 {
        if a.len() == 0 && b.len() == 0 {
            assert(a =~= b);
        }
    } else if a[0] == b[0] {
        lemma_key_less_total(a.skip(1), b.skip(1));
        if a.skip(1) == b.skip(1) {
            assert(a.skip(1).len() == b.skip(1).len());
            assert forall|i: int| 0 <= i < a.len() implies a[i] == b[i] by {
                if i > 0 {
                    assert(a[i] == a.skip(1)[i - 1]);
                    assert(b[i] == b.skip(1)[i - 1]);
                }
            }
            assert(a =~= b);
        }
    }
}

/// Every key comes before every later one.
pub open spec fn ascending(keys: Seq<Seq<u8>>) -> bool {
    forall|i: int, j: int|
        0 <= i < j < keys.len() ==> key_less(#[trigger] keys[i], #[trigger] keys[j])
}

/// `keys` lists each key of `m` once, in ascending order.
pub open spec fn lists_keys(keys: Seq<Seq<u8>>, m: Map<Seq<u8>, EntryView>) -> bool {
    &&& ascending(keys)
    &&& forall|k: Seq<u8>| #[trigger] m.contains_key(k) <==> keys.contains(k)
}

/// The keys of `m` in ascending order.
pub open spec fn sorted_keys(m: Map<Seq<u8>, EntryView>) -> Seq<Seq<u8>> {
    choose|keys: Seq<Seq<u8>>| lists_keys(keys, m)
}

proof fn lemma_ascending_distinct(keys: Seq<Seq<u8>>, i: int, j: int)
    requires
        ascending(keys),
        0 <= i < keys.len(),
        0 <= j < keys.len(),
        keys[i] == keys[j],
    ensures
        i == j,
{
    lemma_key_less_irreflexive(keys[i]);
    if i < j {
        assert(key_less(keys[i], keys[j]));
    } else if j < i {
        assert(key_less(keys[j], keys[i]));
    }
}

proof fn lemma_listing_unique(a: Seq<Seq<u8>>, b: Seq<Seq<u8>>)
    requires
        ascending(a),
        ascending(b),
        forall|k: Seq<u8>| a.contains(k) <==> b.contains(k),
    ensures
        a == b,
    decreases a.len(),
{
    if a.len() == 0 {
        if b.len() > 0 {
            assert(b.contains(b[0]));
            assert(a.contains(b[0]));
        }
        assert(a =~= b);
    } else {
        assert(a.contains(a[0]));
        assert(b.contains(a[0]));
        let i = choose|i: int| 0 <= i < b.len() && b[i] == a[0];
        assert(b.contains(b[0]));
        assert(a.contains(b[0]));
        let j = choose|j: int| 0 <= j < a.len() && a[j] == b[0];
        if i > 0 {
            assert(key_less(b[0], b[i]));
            if j > 0 {
                assert(key_less(a[0], a[j]));
                lemma_key_less_transitive(a[0], b[0], a[0]);
            }
            lemma_key_less_irreflexive(a[0]);
        }
        assert(a[0] == b[0]);
        let ta = a.skip(1);
        let tb = b.skip(1);
        assert forall|k: Seq<u8>| ta.contains(k) implies tb.contains(k) by {
            let x = choose|x: int| 0 <= x < ta.len() && ta[x] == k;
            assert(a[x + 1] == k);
            assert(a.contains(k));
            assert(b.contains(k));
            let y = choose|y: int| 0 <= y < b.len() && b[y] == k;
            if y == 0 {
                lemma_ascending_distinct(a, 0, x + 1);
            }
            assert(tb[y - 1] == k);
        }
        assert forall|k: Seq<u8>| tb.contains(k) implies ta.contains(k) by {
            let x = choose|x: int| 0 <= x < tb.len() && tb[x] == k;
            assert(b[x + 1] == k);
            assert(b.contains(k));
            assert(a.contains(k));
            let y = choose|y: int| 0 <= y < a.len() && a[y] == k;
            if y == 0 {
                lemma_ascending_distinct(b, 0, x + 1);
            }
            assert(ta[y - 1] == k);
        }
        assert(ascending(ta)) by {
            assert forall|x: int, y: int| 0 <= x < y < ta.len() implies key_less(
                #[trigger] ta[x],
                #[trigger] ta[y],
            ) by {
                assert(key_less(a[x + 1], a[y + 1]));
            }
        }
        assert(ascending(tb)) by {
            assert forall|x: int, y: int| 0 <= x < y < tb.len() implies key_less(
                #[trigger] tb[x],
                #[trigger] tb[y],
            ) by {
                assert(key_less(b[x + 1], b[y + 1]));
            }
        }
        lemma_listing_unique(ta, tb);
        assert(a =~= seq![a[0]] + ta);
        assert(b =~= seq![b[0]] + tb);
    }
}

/// Any ascending listing of a keyspace is its sorted key list.
pub proof fn lemma_sorted_keys(keys: Seq<Seq<u8>>, m: Map<Seq<u8>, EntryView>)
    requires
        lists_keys(keys, m),
    ensures
        sorted_keys(m) == keys,
{
    let other = sorted_keys(m);
    assert(lists_keys(other, m));
    assert forall|k: Seq<u8>| keys.contains(k) <==> other.contains(k) by {
        assert(m.contains_key(k) <==> keys.contains(k));
        assert(m.contains_key(k) <==> other.contains(k));
    }
    lemma_listing_unique(keys, other);
}

/// `keys` with `k` put in its place.
spec fn put_in_order(keys: Seq<Seq<u8>>, k: Seq<u8>) -> Seq<Seq<u8>>
    decreases keys.len(),
{
    if keys.len() == 0 || key_less(keys.last(), k) {
        keys.push(k)
    } else {
        put_in_order(keys.drop_last(), k).push(keys.last())
    }
}

proof fn lemma_put_in_order(keys: Seq<Seq<u8>>, k: Seq<u8>)
    requires
        ascending(keys),
        !keys.contains(k),
    ensures
        ascending(put_in_order(keys, k)),
        forall|x: Seq<u8>| #[trigger]
            put_in_order(keys, k).contains(x) <==> keys.contains(x) || x == k,
    decreases keys.len(),
{
    let all = put_in_order(keys, k);
    if keys.len() == 0 || key_less(keys.last(), k) {
        assert forall|i: int, j: int| 0 <= i < j < all.len() implies key_less(
            #[trigger] all[i],
            #[trigger] all[j],
        ) by {
            if j == keys.len() {
                if i < keys.len() - 1 {
                    assert(key_less(keys[i], keys[keys.len() - 1]));
                    lemma_key_less_transitive(keys[i], keys.last(), k);
                }
            } else {
                assert(key_less(keys[i], keys[j]));
            }
        }
        assert forall|x: Seq<u8>| #[trigger] all.contains(x) <==> keys.contains(x) || x == k by {
            if keys.contains(x) {
                let i = choose|i: int| 0 <= i < keys.len() && keys[i] == x;
                assert(all[i] == x);
            }
            assert(all[keys.len() as int] == k);
        }
    } else {
        let front = keys.drop_last();
        let last = keys.last();
        assert(keys.contains(last)) by {
            assert(keys[keys.len() - 1] == last);
        }
        lemma_key_less_total(last, k);
        assert(ascending(front)) by {
            assert forall|i: int, j: int| 0 <= i < j < front.len() implies key_less(
                #[trigger] front[i],
                #[trigger] front[j],
            ) by {
                assert(key_less(keys[i], keys[j]));
            }
        }
        assert forall|x: Seq<u8>| #[trigger] front.contains(x) implies keys.contains(x) by {
            let i = choose|i: int| 0 <= i < front.len() && front[i] == x;
            assert(keys[i] == x);
        }
        lemma_put_in_order(front, k);
        let rest = put_in_order(front, k);
        assert forall|i: int| 0 <= i < rest.len() implies key_less(#[trigger] rest[i], last) by {
            assert(rest.contains(rest[i]));
            if rest[i] != k {
                let j = choose|j: int| 0 <= j < front.len() && front[j] == rest[i];
                assert(key_less(keys[j], keys[keys.len() - 1]));
            }
        }
        assert forall|i: int, j: int| 0 <= i < j < all.len() implies key_less(
            #[trigger] all[i],
            #[trigger] all[j],
        ) by {
            if j < rest.len() {
                assert(key_less(rest[i], rest[j]));
            }
        }
        assert forall|x: Seq<u8>| #[trigger] all.contains(x) <==> keys.contains(x) || x == k by {
            if all.contains(x) {
                let i = choose|i: int| 0 <= i < all.len() && all[i] == x;
                if i < rest.len() {
                    assert(rest.contains(x));
                }
            }
            if keys.contains(x) && x != last {
                let i = choose|i: int| 0 <= i < keys.len() && keys[i] == x;
                assert(front[i] == x);
                assert(front.contains(x));
            }
            if (keys.contains(x) && x != last) || x == k {
                assert(rest.contains(x));
                let i = choose|i: int| 0 <= i < rest.len() && rest[i] == x;
                assert(all[i] == x);
            }
            assert(all[rest.len() as int] == last);
        }
    }
}

/// Every finite keyspace has a sorted key list.
pub proof fn lemma_listed(m: Map<Seq<u8>, EntryView>)
    requires
        m.dom().finite(),
    ensures
        lists_keys(sorted_keys(m), m),
    decreases m.dom().len(),
{
    if m.dom().len() == 0 {
        let none = Seq::<Seq<u8>>::empty();
        assert(m.dom() =~= Set::empty());
        assert forall|k: Seq<u8>| #[trigger] m.contains_key(k) <==> none.contains(k) by {
            assert(!m.dom().contains(k));
        }
        assert(lists_keys(none, m));
    } else {
        let k = m.dom().choose();
        let rest = m.remove(k);
        lemma_listed(rest);
        let keys = sorted_keys(rest);
        assert(!keys.contains(k)) by {
            assert(!rest.contains_key(k));
        }
        lemma_put_in_order(keys, k);
        let all = put_in_order(keys, k);
        assert forall|x: Seq<u8>| #[trigger] m.contains_key(x) <==> all.contains(x) by {
            if x != k {
                assert(rest.contains_key(x) <==> m.contains_key(x));
                assert(rest.contains_key(x) <==> keys.contains(x));
            }
        }
        assert(lists_keys(all, m));
    }
}

/// One key with its entry.
#[derive(Debug)]
pub struct Slot {
    key: Vec<u8>,
    entry: ValueEntry,
}

/// A map from keys to entries.
#[derive(Debug)]
pub struct Keyspace {
    slots: Vec<Slot>,
}

/// How two keys compare.
enum Order {
    Less,
    Equal,
    Greater,
}

fn compare(a: &[u8], b: &[u8]) -> (order: Order)
    ensures
        order is Less <==> key_less(a@, b@),
        order is Equal <==> a@ == b@,
        order is Greater <==> key_less(b@, a@),
{
    let mut i: usize = 0;
    assert(a@.skip(0) =~= a@);
    assert(b@.skip(0) =~= b@);
    proof {
        lemma_key_less_irreflexive(a@);
    }
    while i < a.len() && i < b.len()
        invariant
            i <= a.len(),
            i <= b.len(),
            forall|j: int| 0 <= j < i ==> a@[j] == b@[j],
            key_less(a@, b@) == key_less(a@.skip(i as int), b@.skip(i as int)),
            key_less(b@, a@) == key_less(b@.skip(i as int), a@.skip(i as int)),
            !key_less(a@, a@),
        decreases a.len() - i,
    {
        if a[i] < b[i] {
            return Order::Less;
        }
        if a[i] > b[i] {
            return Order::Greater;
        }
        assert(a@.skip(i as int).skip(1) =~= a@.skip(i as int + 1));
        assert(b@.skip(i as int).skip(1) =~= b@.skip(i as int + 1));
        i += 1;
    }
    if i < b.len() {
        Order::Less
    } else if i < a.len() {
        Order::Greater
    } else {
        assert(a@ =~= b@);
        Order::Equal
    }
}

spec fn slot_keys(slots: Seq<Slot>) -> Seq<Seq<u8>> {
    slots.map_values(|s: Slot| s.key@)
}

spec fn slot_map(slots: Seq<Slot>) -> Map<Seq<u8>, EntryView>
    decreases slots.len(),
{
    if slots.len() == 0 {
        Map::empty()
    } else {
        slot_map(slots.drop_last()).insert(slots.last().key@, slots.last().entry@)
    }
}

proof fn lemma_slot_map(slots: Seq<Slot>)
    requires
        ascending(slot_keys(slots)),
    ensures
        slot_map(slots).dom().finite(),
        slot_map(slots).dom().len() == slots.len(),
        forall|k: Seq<u8>|
            #![trigger slot_map(slots).contains_key(k)]
            #![trigger slot_keys(slots).contains(k)]
            slot_map(slots).contains_key(k) <==> slot_keys(slots).contains(k),
        forall|i: int|
            0 <= i < slots.len() ==> slot_map(slots)[(#[trigger] slots[i]).key@] == slots[i].entry@,
    decreases slots.len(),
{
    if slots.len() > 0 {
        let front = slots.drop_last();
        let keys = slot_keys(slots);
        assert(slot_keys(front) =~= keys.drop_last());
        assert(ascending(slot_keys(front))) by {
            assert forall|i: int, j: int| 0 <= i < j < front.len() implies key_less(
                #[trigger] slot_keys(front)[i],
                #[trigger] slot_keys(front)[j],
            ) by {
                assert(key_less(keys[i], keys[j]));
            }
        }
        lemma_slot_map(front);
        let last = slots.last();
        assert forall|i: int| 0 <= i < front.len() implies (#[trigger] slots[i]).key@
            != last.key@ by {
            assert(keys[i] == slots[i].key@);
            assert(keys[slots.len() - 1] == last.key@);
            if slots[i].key@ == last.key@ {
                lemma_ascending_distinct(keys, i, slots.len() - 1);
            }
        }
        assert(!slot_keys(front).contains(last.key@)) by {
            if slot_keys(front).contains(last.key@) {
                let i = choose|i: int|
                    0 <= i < slot_keys(front).len() && slot_keys(front)[i] == last.key@;
                assert(slots[i].key@ == last.key@);
            }
        }
        assert forall|k: Seq<u8>|
            #![trigger slot_map(slots).contains_key(k)]
            #![trigger slot_keys(slots).contains(k)]
            slot_map(slots).contains_key(k) <==> slot_keys(slots).contains(k) by {
            if keys.contains(k) {
                let i = choose|i: int| 0 <= i < keys.len() && keys[i] == k;
                if i < front.len() {
                    assert(slot_keys(front)[i] == k);
                    assert(slot_keys(front).contains(k));
                }
            }
            if slot_map(slots).contains_key(k) {
                if k == last.key@ {
                    assert(keys[slots.len() - 1] == k);
                } else {
                    assert(slot_keys(front).contains(k));
                    let i = choose|i: int|
                        0 <= i < slot_keys(front).len() && slot_keys(front)[i] == k;
                    assert(keys[i] == k);
                }
            }
        }
        assert forall|i: int| 0 <= i < slots.len() implies slot_map(slots)[(
        #[trigger] slots[i]).key@] == slots[i].entry@ by {
            if i < front.len() {
                assert(front[i] == slots[i]);
            }
        }
    } else {
        assert(slot_keys(slots) =~= Seq::<Seq<u8>>::empty());
    }
}

proof fn lemma_same_map(slots: Seq<Slot>, m: Map<Seq<u8>, EntryView>)
    requires
        ascending(slot_keys(slots)),
        forall|k: Seq<u8>| m.contains_key(k) ==> slot_keys(slots).contains(k),
        forall|i: int|
            0 <= i < slots.len() ==> m.contains_key((#[trigger] slots[i]).key@) && m[slots[i].key@]
                == slots[i].entry@,
    ensures
        slot_map(slots) == m,
{
    lemma_slot_map(slots);
    let keys = slot_keys(slots);
    assert forall|k: Seq<u8>| slot_map(slots).contains_key(k) <==> m.contains_key(k) by {
        if keys.contains(k) {
            let i = choose|i: int| 0 <= i < keys.len() && keys[i] == k;
            assert(slots[i].key@ == k);
        }
    }
    assert forall|k: Seq<u8>| slot_map(slots).contains_key(k) implies slot_map(slots)[k]
        == m[k] by {
        assert(keys.contains(k));
        let i = choose|i: int| 0 <= i < keys.len() && keys[i] == k;
        assert(slots[i].key@ == k);
    }
    assert(slot_map(slots) =~= m);
}

impl View for Keyspace {
    type V = Map<Seq<u8>, EntryView>;

    closed spec fn view(&self) -> Map<Seq<u8>, EntryView> {
        slot_map(self.slots@)
    }
}

impl Keyspace {
    /// The slots are in strictly ascending key order.
    #[verifier::type_invariant]
    closed spec fn ordered(self) -> bool {
        ascending(slot_keys(self.slots@))
    }

    /// An empty keyspace.
    pub fn new() -> (ks: Keyspace)
        ensures
            ks@ == Map::<Seq<u8>, EntryView>::empty(),
    {
        let slots: Vec<Slot> = Vec::new();
        assert(slot_keys(slots@) =~= Seq::<Seq<u8>>::empty());
        Keyspace { slots }
    }

    /// The number of keys.
    pub fn len(&self) -> (n: usize)
        ensures
            n == self@.dom().len(),
            n == sorted_keys(self@).len(),
            self@.dom().finite(),
            lists_keys(sorted_keys(self@), self@),
    {
        proof {
            use_type_invariant(self);
            lemma_slot_map(self.slots@);
            lemma_sorted_keys(slot_keys(self.slots@), self@);
        }
        self.slots.len()
    }

    fn search(&self, key: &[u8]) -> (found: Result<usize, usize>)
        ensures
            match found {
                Ok(i) => i < self.slots.len() && self.slots@[i as int].key@ == key@,
                Err(i) => i <= self.slots.len() && (forall|j: int|
                    0 <= j < i
                        ==> key_less((#[trigger] self.slots@[j]).key@, key@)) && (forall|j: int|
                    i <= j < self.slots.len() ==> key_less(key@, (#[trigger] self.slots@[j]).key@)),
            },
    {
        proof {
            use_type_invariant(self);
        }
        let ghost keys = slot_keys(self.slots@);
        let mut lo: usize = 0;
        let mut hi: usize = self.slots.len();
        while lo < hi
            invariant
                lo <= hi <= self.slots.len(),
                keys == slot_keys(self.slots@),
                ascending(keys),
                forall|j: int| 0 <= j < lo ==> key_less((#[trigger] self.slots@[j]).key@, key@),
                forall|j: int|
                    hi <= j < self.slots.len() ==> key_less(
                        key@,
                        (#[trigger] self.slots@[j]).key@,
                    ),
            decreases hi - lo,
        {
            let mid: usize = lo + (hi - lo) / 2;
            match compare(self.slots[mid].key.as_slice(), key) {
                Order::Equal => {
                    return Ok(mid);
                },
                Order::Less => {
                    proof {
                        assert forall|j: int| 0 <= j < mid + 1 implies key_less(
                            (#[trigger] self.slots@[j]).key@,
                            key@,
                        ) by {
                            if j < mid {
                                assert(key_less(keys[j], keys[mid as int]));
                                lemma_key_less_transitive(keys[j], keys[mid as int], key@);
                            }
                        }
                    }
                    lo = mid + 1;
                },
                Order::Greater => {
                    proof {
                        assert forall|j: int| mid <= j < self.slots.len() implies key_less(
                            key@,
                            (#[trigger] self.slots@[j]).key@,
                        ) by {
                            if mid < j {
                                assert(key_less(keys[mid as int], keys[j]));
                                lemma_key_less_transitive(key@, keys[mid as int], keys[j]);
                            }
                        }
                    }
                    hi = mid;
                },
            }
        }
        Err(lo)
    }

    proof fn lemma_found(&self, i: int)
        requires
            ascending(slot_keys(self.slots@)),
            0 <= i < self.slots.len(),
        ensures
            self@.contains_key(self.slots@[i].key@),
            self@[self.slots@[i].key@] == self.slots@[i].entry@,
    {
        lemma_slot_map(self.slots@);
        assert(slot_keys(self.slots@)[i] == self.slots@[i].key@);
        assert(slot_keys(self.slots@).contains(self.slots@[i].key@));
    }

    proof fn lemma_absent(&self, key: Seq<u8>, i: int)
        requires
            ascending(slot_keys(self.slots@)),
            0 <= i <= self.slots.len(),
            forall|j: int| 0 <= j < i ==> key_less((#[trigger] self.slots@[j]).key@, key),
            forall|j: int| i <= j < self.slots.len()
                ==> key_less(key, (#[trigger] self.slots@[j]).key@),
        ensures
            !self@.contains_key(key),
    {
        lemma_slot_map(self.slots@);
        if self@.contains_key(key) {
            let keys = slot_keys(self.slots@);
            assert(keys.contains(key));
            let j = choose|j: int| 0 <= j < keys.len() && keys[j] == key;
            assert(self.slots@[j].key@ == key);
            lemma_key_less_irreflexive(key);
        }
    }

    /// Looks a key up.
    pub fn get(&self, key: &[u8]) -> (entry: Option<&ValueEntry>)
        ensures
            match entry {
                Some(e) => self@.contains_key(key@) && e@ == self@[key@],
                None => !self@.contains_key(key@),
            },
    {
        proof {
            use_type_invariant(self);
        }
        match self.search(key) {
            Ok(i) => {
                proof {
                    self.lemma_found(i as int);
                }
                Some(&self.slots[i].entry)
            },
            Err(i) => {
                proof {
                    self.lemma_absent(key@, i as int);
                }
                None
            },
        }
    }

    /// Whether a key is present.
    pub fn contains_key(&self, key: &[u8]) -> (yes: bool)
        ensures
            yes == self@.contains_key(key@),
    {
        self.get(key).is_some()
    }

    /// The key at position `i` of the walk.
    pub fn key_at(&self, i: usize) -> (key: &Vec<u8>)
        requires
            i < sorted_keys(self@).len(),
        ensures
            key@ == sorted_keys(self@)[i as int],
            self@.contains_key(key@),
    {
        proof {
            use_type_invariant(self);
            lemma_slot_map(self.slots@);
            lemma_sorted_keys(slot_keys(self.slots@), self@);
            self.lemma_found(i as int);
        }
        &self.slots[i].key
    }

    /// The entry at position `i` of the walk.
    pub fn entry_at(&self, i: usize) -> (entry: &ValueEntry)
        requires
            i < sorted_keys(self@).len(),
        ensures
            entry@ == self@[sorted_keys(self@)[i as int]],
    {
        proof {
            use_type_invariant(self);
            lemma_slot_map(self.slots@);
            lemma_sorted_keys(slot_keys(self.slots@), self@);
            self.lemma_found(i as int);
        }
        &self.slots[i].entry
    }

    /// Puts an entry under a key and returns the one that was there.
    pub fn insert(&mut self, key: Vec<u8>, entry: ValueEntry) -> (previous: Option<ValueEntry>)
        ensures
            final(self)@ == old(self)@.insert(key@, entry@),
            match previous {
                Some(p) => old(self)@.contains_key(key@) && p@ == old(self)@[key@],
                None => !old(self)@.contains_key(key@),
            },
    {
        proof {
            use_type_invariant(&*self);
            lemma_slot_map(self.slots@);
        }
        let ghost before = *self;
        let ghost old_slots = self.slots@;
        let ghost old_keys = slot_keys(old_slots);
        let ghost k = key@;
        let ghost target = old(self)@.insert(key@, entry@);
        match self.search(key.as_slice()) {
            Ok(i) => {
                proof {
                    before.lemma_found(i as int);
                }
                let mut slots: Vec<Slot> = Vec::new();
                std::mem::swap(&mut slots, &mut self.slots);
                let old_slot: Slot = slots.remove(i);
                slots.insert(i, Slot { key, entry });
                proof {
                    assert(slots@ =~= old_slots.update(i as int, Slot { key, entry }));
                    assert(slot_keys(slots@) =~= old_keys);
                    assert forall|x: Seq<u8>| target.contains_key(x) implies slot_keys(
                        slots@,
                    ).contains(x) by {
                        if x == k {
                            assert(old_keys[i as int] == k);
                        }
                    }
                    assert forall|j: int| 0 <= j < slots.len() implies target.contains_key(
                        (#[trigger] slots@[j]).key@,
                    ) && target[slots@[j].key@] == slots@[j].entry@ by {
                        if j != i {
                            before.lemma_found(j);
                            if slots@[j].key@ == k {
                                lemma_ascending_distinct(old_keys, i as int, j);
                            }
                        }
                    }
                    lemma_same_map(slots@, target);
                }
                self.slots = slots;
                Some(old_slot.entry)
            },
            Err(i) => {
                proof {
                    before.lemma_absent(k, i as int);
                }
                let mut slots: Vec<Slot> = Vec::new();
                std::mem::swap(&mut slots, &mut self.slots);
                slots.insert(i, Slot { key, entry });
                proof {
                    let keys = slot_keys(slots@);
                    assert(keys =~= old_keys.insert(i as int, k));
                    assert forall|a: int, b: int| 0 <= a < b < keys.len() implies key_less(
                        #[trigger] keys[a],
                        #[trigger] keys[b],
                    ) by {
                        let oa = if a < i { a } else { a - 1 };
                        let ob = if b < i { b } else { b - 1 };
                        if a == i {
                            assert(old_slots[ob].key@ == keys[b]);
                        } else if b == i {
                            assert(old_slots[oa].key@ == keys[a]);
                        } else {
                            assert(key_less(old_keys[oa], old_keys[ob]));
                        }
                    }
                    assert forall|x: Seq<u8>| target.contains_key(x) implies keys.contains(x) by {
                        if x == k {
                            assert(keys[i as int] == k);
                        } else {
                            assert(old_keys.contains(x));
                            let o = choose|o: int| 0 <= o < old_keys.len() && old_keys[o] == x;
                            if o < i {
                                assert(keys[o] == x);
                            } else {
                                assert(keys[o + 1] == x);
                            }
                        }
                    }
                    assert forall|j: int| 0 <= j < slots.len() implies target.contains_key(
                        (#[trigger] slots@[j]).key@,
                    ) && target[slots@[j].key@] == slots@[j].entry@ by {
                        if j != i {
                            let o = if j < i { j } else { j - 1 };
                            assert(slots@[j] == old_slots[o]);
                            before.lemma_found(o);
                        }
                    }
                    lemma_same_map(slots@, target);
                }
                self.slots = slots;
                None
            },
        }
    }

    /// Removes a key and returns its entry.
    pub fn remove(&mut self, key: &[u8]) -> (removed: Option<ValueEntry>)
        ensures
            final(self)@ == old(self)@.remove(key@),
            match removed {
                Some(e) => old(self)@.contains_key(key@) && e@ == old(self)@[key@],
                None => !old(self)@.contains_key(key@),
            },
    {
        proof {
            use_type_invariant(&*self);
            lemma_slot_map(self.slots@);
        }
        let ghost before = *self;
        let ghost old_slots = self.slots@;
        let ghost old_keys = slot_keys(old_slots);
        let ghost target = old(self)@.remove(key@);
        match self.search(key) {
            Ok(i) => {
                proof {
                    before.lemma_found(i as int);
                }
                let mut slots: Vec<Slot> = Vec::new();
                std::mem::swap(&mut slots, &mut self.slots);
                let old_slot: Slot = slots.remove(i);
                proof {
                    let keys = slot_keys(slots@);
                    assert(keys =~= old_keys.remove(i as int));
                    assert forall|a: int, b: int| 0 <= a < b < keys.len() implies key_less(
                        #[trigger] keys[a],
                        #[trigger] keys[b],
                    ) by {
                        let oa = if a < i { a } else { a + 1 };
                        let ob = if b < i { b } else { b + 1 };
                        assert(key_less(old_keys[oa], old_keys[ob]));
                    }
                    assert forall|x: Seq<u8>| target.contains_key(x) implies keys.contains(x) by {
                        assert(old_keys.contains(x));
                        let o = choose|o: int| 0 <= o < old_keys.len() && old_keys[o] == x;
                        assert(o != i);
                        if o < i {
                            assert(keys[o] == x);
                        } else {
                            assert(keys[o - 1] == x);
                        }
                    }
                    assert forall|j: int| 0 <= j < slots.len() implies target.contains_key(
                        (#[trigger] slots@[j]).key@,
                    ) && target[slots@[j].key@] == slots@[j].entry@ by {
                        let o = if j < i { j } else { j + 1 };
                        assert(slots@[j] == old_slots[o]);
                        before.lemma_found(o);
                        if slots@[j].key@ == key@ {
                            lemma_ascending_distinct(old_keys, i as int, o);
                        }
                    }
                    lemma_same_map(slots@, target);
                }
                self.slots = slots;
                Some(old_slot.entry)
            },
            Err(i) => {
                proof {
                    before.lemma_absent(key@, i as int);
                    assert(target =~= old(self)@);
                }
                None
            },
        }
    }

    proof fn lemma_updated(before: Keyspace, slots: Seq<Slot>, i: int, entry: ValueEntry)
        requires
            ascending(slot_keys(before.slots@)),
            0 <= i < before.slots@.len(),
            slots == before.slots@.update(i, Slot { key: before.slots@[i].key, entry }),
        ensures
            ascending(slot_keys(slots)),
            slot_map(slots) == before@.insert(before.slots@[i].key@, entry@),
    {
        let old_keys = slot_keys(before.slots@);
        let k = before.slots@[i].key@;
        let target = before@.insert(k, entry@);
        lemma_slot_map(before.slots@);
        assert(slot_keys(slots) =~= old_keys);
        assert forall|x: Seq<u8>| target.contains_key(x) implies slot_keys(slots).contains(x) by {
            if x == k {
                assert(old_keys[i] == k);
            }
        }
        assert forall|j: int| 0 <= j < slots.len() implies target.contains_key(
            (#[trigger] slots[j]).key@,
        ) && target[slots[j].key@] == slots[j].entry@ by {
            if j != i {
                before.lemma_found(j);
                if slots[j].key@ == k {
                    lemma_ascending_distinct(old_keys, i, j);
                }
            }
        }
        lemma_same_map(slots, target);
    }

    /// Records an access to a key; nothing happens when the key is absent.
    pub fn touch(&mut self, key: &[u8], now: Clock, draw: u32)
        ensures
            final(self)@ == (if old(self)@.contains_key(key@) {
                old(self)@.insert(key@, old(self)@[key@].touched(now, draw))
            } else {
                old(self)@
            }),
    {
        proof {
            use_type_invariant(&*self);
        }
        let ghost before = *self;
        match self.search(key) {
            Ok(i) => {
                proof {
                    before.lemma_found(i as int);
                }
                let mut slots: Vec<Slot> = Vec::new();
                std::mem::swap(&mut slots, &mut self.slots);
                slots[i].entry.touch(now, draw);
                proof {
                    Keyspace::lemma_updated(before, slots@, i as int, slots@[i as int].entry);
                }
                self.slots = slots;
            },
            Err(i) => {
                proof {
                    before.lemma_absent(key@, i as int);
                }
            },
        }
    }

    /// Sets or clears a key's deadline; nothing happens when the key is absent.
    pub fn set_deadline(&mut self, key: &[u8], deadline: Option<u128>)
        ensures
            final(self)@ == (if old(self)@.contains_key(key@) {
                old(self)@.insert(
                    key@,
                    EntryView { expire_at: deadline, ..old(self)@[key@] },
                )
            } else {
                old(self)@
            }),
    {
        proof {
            use_type_invariant(&*self);
        }
        let ghost before = *self;
        match self.search(key) {
            Ok(i) => {
                proof {
                    before.lemma_found(i as int);
                }
                let mut slots: Vec<Slot> = Vec::new();
                std::mem::swap(&mut slots, &mut self.slots);
                slots[i].entry.expire_at = deadline;
                proof {
                    Keyspace::lemma_updated(before, slots@, i as int, slots@[i as int].entry);
                }
                self.slots = slots;
            },
            Err(i) => {
                proof {
                    before.lemma_absent(key@, i as int);
                }
            },
        }
    }

    /// Removes every key.
    pub fn clear(&mut self)
        ensures
            final(self)@ == Map::<Seq<u8>, EntryView>::empty(),
    {
        *self = Keyspace::new();
    }
}

} // verus!
