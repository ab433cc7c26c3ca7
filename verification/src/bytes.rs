//! Small helpers on byte slices.

use vstd::prelude::*;

verus! {

/// Compares two byte slices.
pub fn same_bytes(a: &[u8], b: &[u8]) -> (same: bool)
    ensures
        same == (a@ == b@),
{
    if a.len() != b.len() {
        return false;
    }
    let mut i: usize = 0;
    while i < a.len()
        invariant
            i <= a.len(),
            a.len() == b.len(),
            forall|j: int| 0 <= j < i ==> a@[j] == b@[j],
        decreases a.len() - i,
    {
        if a[i] != b[i] {
            return false;
        }
        i += 1;
    }
    assert(a@ =~= b@);
    true
}

/// Appends `tail` to `out`.
pub fn push_all(out: &mut Vec<u8>, tail: &[u8])
    ensures
        final(out)@ == old(out)@ + tail@,
{
    out.extend_from_slice(tail);
    assert(out@ =~= old(out)@ + tail@);
}

/// Copies a slice into a vector of its own.
pub fn copied(source: &[u8]) -> (copy: Vec<u8>)
    ensures
        copy@ == source@,
{
    let mut copy: Vec<u8> = Vec::with_capacity(source.len());
    push_all(&mut copy, source);
    assert(copy@ =~= source@);
    copy
}

/// Maps an ASCII lower-case letter to upper case and keeps every other byte.
pub open spec fn upper_byte(b: u8) -> u8 {
    if 97 <= b <= 122 {
        (b - 32) as u8
    } else {
        b
    }
}

/// The bytes with every ASCII letter in upper case.
pub open spec fn upper_bytes(s: Seq<u8>) -> Seq<u8> {
    s.map_values(|b: u8| upper_byte(b))
}

/// Upper-cases the ASCII letters of a byte string.
pub fn to_upper(source: &[u8]) -> (upper: Vec<u8>)
    ensures
        upper@ == upper_bytes(source@),
{
    let mut upper: Vec<u8> = Vec::with_capacity(source.len());
    let mut i: usize = 0;
    while i < source.len()
        invariant
            i <= source.len(),
            upper@ == upper_bytes(source@.take(i as int)),
        decreases source.len() - i,
    {
        let b: u8 = source[i];
        upper.push(if 97 <= b && b <= 122 { b - 32 } else { b });
        assert(source@.take(i as int + 1) =~= source@.take(i as int).push(b));
        assert(upper@ =~= upper_bytes(source@.take(i as int + 1)));
        i += 1;
    }
    assert(source@.take(i as int) =~= source@);
    upper
}

} // verus!
