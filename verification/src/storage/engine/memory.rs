//! Facts about the memory charge of a store.

use vstd::prelude::*;

use crate::storage::engine::model::{
    entry_cost, pair_error, total_cost, KEY_MAX_BYTES, PER_ENTRY_OVERHEAD, VALUE_MAX_BYTES,
};
use crate::storage::entry::EntryView;

verus! {

/// Removing a key gives its charge back.
pub proof fn lemma_total_remove(m: Map<Seq<u8>, EntryView>, k: Seq<u8>)
    requires
        m.dom().finite(),
        m.contains_key(k),
    ensures
        total_cost(m) == entry_cost(k, m[k].data.len()) + total_cost(m.remove(k)),
    decreases m.dom().len(),
{
    let c = m.dom().choose();
    assert(m.dom().contains(k));
    assert(m.dom().len() > 0);
    if c != k {
        lemma_total_remove(m.remove(c), k);
        lemma_total_remove(m.remove(k), c);
        assert(m.remove(c).remove(k) =~= m.remove(k).remove(c));
    }
}

/// Storing an entry replaces the charge of the key.
pub proof fn lemma_total_insert(m: Map<Seq<u8>, EntryView>, k: Seq<u8>, e: EntryView)
    requires
        m.dom().finite(),
    ensures
        total_cost(m.insert(k, e)) == entry_cost(k, e.data.len()) + total_cost(m.remove(k)),
        m.contains_key(k) ==> total_cost(m) == entry_cost(k, m[k].data.len()) + total_cost(
            m.remove(k),
        ),
        !m.contains_key(k) ==> total_cost(m) == total_cost(m.remove(k)),
{
    let n = m.insert(k, e);
    lemma_total_remove(n, k);
    assert(n.remove(k) =~= m.remove(k));
    if m.contains_key(k) {
        lemma_total_remove(m, k);
    } else {
        assert(m.remove(k) =~= m);
    }
}

/// The charge of a store of `n` entries within their limits.
pub proof fn lemma_total_bound(m: Map<Seq<u8>, EntryView>)
    requires
        m.dom().finite(),
        forall|k: Seq<u8>| #[trigger] m.contains_key(k) ==> pair_error(k, m[k].data) is None,
    ensures
        0 <= total_cost(m) <= m.dom().len() * (KEY_MAX_BYTES + VALUE_MAX_BYTES
            + PER_ENTRY_OVERHEAD),
    decreases m.dom().len(),
{
    let each = KEY_MAX_BYTES + VALUE_MAX_BYTES + PER_ENTRY_OVERHEAD;
    if m.dom().len() > 0 {
        let k = m.dom().choose();
        assert(m.contains_key(k));
        let rest = m.remove(k);
        assert forall|x: Seq<u8>| #[trigger] rest.contains_key(x) implies pair_error(
            x,
            rest[x].data,
        ) is None by {
            assert(m.contains_key(x));
        }
        lemma_total_bound(rest);
        let n = rest.dom().len() as int;
        assert((n + 1) * each == n * each + each) by (nonlinear_arith);
    }
}

} // verus!
