//! An ordered queue of keys, each with one flag, on top of `IndexMap`.
//!
//! `IndexMap` keeps its entries in a sequence and finds a key's index by hash.
//! The functions here are the operations that the eviction structures use,
//! stated over the sequence of entries.

use indexmap::IndexMap;
use vstd::prelude::*;

verus! {

/// An `IndexMap`, opaque but for [`queue_items`].
#[verifier::external_type_specification]
#[verifier::external_body]
#[verifier::reject_recursive_types(K)]
#[verifier::reject_recursive_types(V)]
#[verifier::reject_recursive_types(S)]
pub struct ExIndexMap<K, V, S>(IndexMap<K, V, S>);

/// The entries of a queue in order, each a key with its flag.
pub uninterp spec fn queue_items(q: IndexMap<Vec<u8>, bool>) -> Seq<(Seq<u8>, bool)>;

/// Some entry carries this key.
pub open spec fn holds(items: Seq<(Seq<u8>, bool)>, key: Seq<u8>) -> bool {
    exists|i: int| 0 <= i < items.len() && (#[trigger] items[i]).0 == key
}

/// No key occurs twice.
pub open spec fn distinct(items: Seq<(Seq<u8>, bool)>) -> bool {
    forall|i: int, j: int|
        0 <= i < items.len() && 0 <= j < items.len() && (#[trigger] items[i]).0 == (
        #[trigger] items[j]).0 ==> i == j
}

/// `IndexMap::new`: a map without entries.
#[verifier::external_body]
pub(crate) fn queue_new() -> (q: IndexMap<Vec<u8>, bool>)
    ensures
        queue_items(q) == Seq::<(Seq<u8>, bool)>::empty(),
{
    IndexMap::new()
}

/// `IndexMap::len`: the number of entries.
#[verifier::external_body]
pub(crate) fn queue_len(q: &IndexMap<Vec<u8>, bool>) -> (n: usize)
    ensures
        n == queue_items(*q).len(),
{
    q.len()
}

/// `IndexMap::clear`: removes every entry.
#[verifier::external_body]
pub(crate) fn queue_clear(q: &mut IndexMap<Vec<u8>, bool>)
    ensures
        queue_items(*final(q)) == Seq::<(Seq<u8>, bool)>::empty(),
{
    q.clear();
}

/// `IndexMap::insert`: a new key goes to the end; a key that is present keeps
/// its place and gets the new flag.
#[verifier::external_body]
pub(crate) fn queue_insert(q: &mut IndexMap<Vec<u8>, bool>, key: Vec<u8>, flag: bool)
    requires
        distinct(queue_items(*old(q))),
    ensures
        !holds(queue_items(*old(q)), key@) ==> queue_items(*final(q)) == queue_items(*old(q)).push(
            (key@, flag),
        ),
        forall|i: int|
            0 <= i < queue_items(*old(q)).len() && (#[trigger] queue_items(*old(q))[i]).0 == key@
                ==> queue_items(*final(q)) == queue_items(*old(q)).update(i, (key@, flag)),
{
    q.insert(key, flag);
}

/// `IndexMap::get_index_of`: the index of a key, if it is present.
#[verifier::external_body]
pub(crate) fn queue_index_of(q: &IndexMap<Vec<u8>, bool>, key: &[u8]) -> (at: Option<usize>)
    ensures
        match at {
            Some(i) => i < queue_items(*q).len() && queue_items(*q)[i as int].0 == key@,
            None => !holds(queue_items(*q), key@),
        },
{
    q.get_index_of(key)
}

/// `IndexMap::get_index`: the entry at an index, `None` beyond the end. The key
/// comes back as a copy.
#[verifier::external_body]
pub(crate) fn queue_at(q: &IndexMap<Vec<u8>, bool>, at: usize) -> (item: Option<(Vec<u8>, bool)>)
    ensures
        match item {
            Some((key, flag)) => at < queue_items(*q).len() && queue_items(*q)[at as int] == (
                key@,
                flag,
            ),
            None => at >= queue_items(*q).len(),
        },
{
    q.get_index(at).map(|(k, v)| (k.clone(), *v))
}

/// `IndexMap::get_index_mut`: writes the flag of the entry at an index and
/// leaves everything else alone.
#[verifier::external_body]
pub(crate) fn queue_set_flag(q: &mut IndexMap<Vec<u8>, bool>, at: usize, flag: bool)
    requires
        at < queue_items(*old(q)).len(),
    ensures
        queue_items(*final(q)) == queue_items(*old(q)).update(
            at as int,
            (queue_items(*old(q))[at as int].0, flag),
        ),
{
    *q.get_index_mut(at).unwrap().1 = flag;
}

/// `IndexMap::shift_remove`: removes a key's entry and closes the gap; nothing
/// happens when the key is absent.
#[verifier::external_body]
pub(crate) fn queue_remove(q: &mut IndexMap<Vec<u8>, bool>, key: &[u8])
    requires
        distinct(queue_items(*old(q))),
    ensures
        !holds(queue_items(*old(q)), key@) ==> queue_items(*final(q)) == queue_items(*old(q)),
        forall|i: int|
            0 <= i < queue_items(*old(q)).len() && (#[trigger] queue_items(*old(q))[i]).0 == key@
                ==> queue_items(*final(q)) == queue_items(*old(q)).remove(i),
{
    q.shift_remove(key);
}

/// `IndexMap::shift_remove_index`: removes the entry at an index, closes the
/// gap and gives the entry back; `None` beyond the end.
#[verifier::external_body]
pub(crate) fn queue_remove_at(q: &mut IndexMap<Vec<u8>, bool>, at: usize) -> (item: Option<
    (Vec<u8>, bool),
>)
    ensures
        match item {
            Some((key, flag)) => at < queue_items(*old(q)).len() && queue_items(
                *old(q),
            )[at as int] == (key@, flag) && queue_items(*final(q)) == queue_items(*old(q)).remove(
                at as int,
            ),
            None => at >= queue_items(*old(q)).len() && queue_items(*final(q)) == queue_items(
                *old(q),
            ),
        },
{
    q.shift_remove_index(at)
}

/// `IndexMap::insert_before`: puts a key that is not present yet at an index
/// and shifts what stood there behind it.
#[verifier::external_body]
pub(crate) fn queue_insert_before(
    q: &mut IndexMap<Vec<u8>, bool>,
    at: usize,
    key: Vec<u8>,
    flag: bool,
)
    requires
        at <= queue_items(*old(q)).len(),
        !holds(queue_items(*old(q)), key@),
    ensures
        queue_items(*final(q)) == queue_items(*old(q)).insert(at as int, (key@, flag)),
{
    q.insert_before(at, key, flag);
}

} // verus!
