//! Integers as decimal text.
//!
//! `dec_nat` and `dec_int` say how an integer is written; `text_to_nat` and
//! `text_to_int` say which texts denote an integer and which one.

use vstd::arithmetic::div_mod::lemma_div_denominator;
use vstd::arithmetic::power::{lemma_pow0, lemma_pow_positive, pow};
use vstd::prelude::*;

verus! {

/// The decimal digits of `n`, most significant first, without leading zeros.
pub open spec fn dec_nat(n: nat) -> Seq<u8>
    decreases n,
{
    if n < 10 {
        seq![(48 + n) as u8]
    } else {
        dec_nat(n / 10).push((48 + n % 10) as u8)
    }
}

/// The decimal text of `i`, with a leading `-` when it is negative.
pub open spec fn dec_int(i: int) -> Seq<u8> {
    if i < 0 {
        seq![45u8] + dec_nat((-i) as nat)
    } else {
        dec_nat(i as nat)
    }
}

pub open spec fn is_digit(b: u8) -> bool {
    48 <= b <= 57
}

pub open spec fn all_digits(s: Seq<u8>) -> bool {
    forall|i: int| 0 <= i < s.len() ==> is_digit(#[trigger] s[i])
}

/// The number that a run of decimal digits denotes.
pub open spec fn digits_value(s: Seq<u8>) -> nat
    decreases s.len(),
{
    if s.len() == 0 {
        0
    } else {
        digits_value(s.drop_last()) * 10 + (s.last() - 48) as nat
    }
}

/// A non-empty run of digits, read as a number.
pub open spec fn text_to_nat(s: Seq<u8>) -> Option<nat> {
    if s.len() > 0 && all_digits(s) {
        Some(digits_value(s))
    } else {
        None
    }
}

/// Digits with an optional leading `+`.
pub open spec fn text_to_unsigned(s: Seq<u8>) -> Option<nat> {
    if s.len() > 0 && s[0] == 43 {
        text_to_nat(s.skip(1))
    } else {
        text_to_nat(s)
    }
}

/// Digits with an optional leading `+` or `-`.
pub open spec fn text_to_int(s: Seq<u8>) -> Option<int> {
    if s.len() > 0 && s[0] == 45 {
        match text_to_nat(s.skip(1)) {
            Some(n) => Some(-(n as int)),
            None => None,
        }
    } else {
        match text_to_unsigned(s) {
            Some(n) => Some(n as int),
            None => None,
        }
    }
}

/// The signed 64-bit integer that `s` denotes, if it denotes one.
pub open spec fn text_to_i64(s: Seq<u8>) -> Option<i64> {
    match text_to_int(s) {
        Some(i) if i64::MIN <= i <= i64::MAX => Some(i as i64),
        _ => None,
    }
}

/// The unsigned integer of at most `max` that `s` denotes, if it denotes one.
pub open spec fn text_to_bounded(s: Seq<u8>, max: u64) -> Option<u64> {
    match text_to_unsigned(s) {
        Some(n) if n <= max => Some(n as u64),
        _ => None,
    }
}

proof fn lemma_prefix_value(s: Seq<u8>, k: int)
    requires
        0 <= k <= s.len(),
        all_digits(s),
    ensures
        digits_value(s.take(k)) <= digits_value(s),
    decreases s.len(),
{
    if k == s.len() {
        assert(s.take(k) =~= s);
    } else {
        lemma_prefix_value(s.drop_last(), k);
        assert(s.drop_last().take(k) =~= s.take(k));
        assert(is_digit(s.last()));
    }
}

/// A formatted number consists of digits and reads back as itself.
pub proof fn lemma_dec_nat(n: nat)
    ensures
        dec_nat(n).len() > 0,
        all_digits(dec_nat(n)),
        digits_value(dec_nat(n)) == n,
    decreases n,
{
    if n < 10 {
        let s = dec_nat(n);
        assert(s.drop_last() =~= Seq::<u8>::empty());
        assert(digits_value(s.drop_last()) == 0);
    } else {
        lemma_dec_nat(n / 10);
        let s = dec_nat(n);
        assert(s.drop_last() =~= dec_nat(n / 10));
    }
}

/// The text of an integer reads back as that integer.
pub proof fn lemma_dec_int_round_trip(i: i64)
    ensures
        text_to_i64(dec_int(i as int)) == Some(i),
{
    if i < 0 {
        let n = (-(i as int)) as nat;
        lemma_dec_nat(n);
        assert(dec_int(i as int).skip(1) =~= dec_nat(n));
    } else {
        lemma_dec_nat(i as nat);
        assert(is_digit(dec_nat(i as nat)[0]));
    }
}

/// Powers of ten.
pub open spec fn ten_to(d: nat) -> nat
    decreases d,
{
    if d == 0 {
        1
    } else {
        10 * ten_to((d - 1) as nat)
    }
}

proof fn lemma_dec_nat_len(n: nat, d: nat)
    requires
        d >= 1,
        n < ten_to(d),
    ensures
        dec_nat(n).len() <= d,
    decreases d,
{
    reveal_with_fuel(ten_to, 2);
    if n >= 10 {
        lemma_dec_nat_len(n / 10, (d - 1) as nat);
    }
}

/// The text of a 64-bit integer has at most 20 characters.
pub proof fn lemma_dec_int_len(i: i64)
    ensures
        0 < dec_int(i as int).len() <= 20,
{
    reveal_with_fuel(ten_to, 20);
    assert(ten_to(19) == 10_000_000_000_000_000_000);
    let n = (if i < 0 {
        -(i as int)
    } else {
        i as int
    }) as nat;
    lemma_dec_nat(n);
    lemma_dec_nat_len(n, 19);
}

/// Neither a digit nor the minus sign is a carriage return, so the text of a
/// number never contains a line break.
pub proof fn lemma_dec_int_bytes(i: int)
    ensures
        dec_int(i).len() > 0,
        forall|k: int|
            0 <= k < dec_int(i).len() ==> is_digit(#[trigger] dec_int(i)[k]) || dec_int(i)[k] == 45,
{
    if i < 0 {
        lemma_dec_nat((-i) as nat);
        assert forall|k: int| 0 <= k < dec_int(i).len() implies is_digit(#[trigger] dec_int(i)[k])
            || dec_int(i)[k] == 45 by {
            if k > 0 {
                assert(dec_int(i)[k] == dec_nat((-i) as nat)[k - 1]);
            }
        }
    } else {
        lemma_dec_nat(i as nat);
    }
}

/// Appends the decimal digits of `n`.
pub fn push_u64(out: &mut Vec<u8>, n: u64)
    ensures
        final(out)@ == old(out)@ + dec_nat(n as nat),
    decreases n,
{
    if n >= 10 {
        push_u64(out, n / 10);
    }
    let ghost before = out@;
    out.push(48 + (n % 10) as u8);
    proof {
        if n >= 10 {
            assert(out@ =~= old(out)@ + dec_nat(n as nat));
        } else {
            assert(n % 10 == n);
            assert(out@ =~= old(out)@ + dec_nat(n as nat));
        }
    }
}

/// Appends the decimal text of `n`.
pub fn push_i64(out: &mut Vec<u8>, n: i64)
    ensures
        final(out)@ == old(out)@ + dec_int(n as int),
{
    if n < 0 {
        out.push(45);
        let magnitude: u64 = (-(n as i128)) as u64;
        push_u64(out, magnitude);
        assert(out@ =~= old(out)@ + dec_int(n as int));
    } else {
        push_u64(out, n as u64);
    }
}

/// The decimal text of `n` as a vector.
pub fn format_i64(n: i64) -> (text: Vec<u8>)
    ensures
        text@ == dec_int(n as int),
{
    let mut text: Vec<u8> = Vec::new();
    push_i64(&mut text, n);
    assert(text@ =~= dec_int(n as int));
    text
}

fn parse_digits(s: &[u8], max: u64) -> (n: Option<u64>)
    ensures
        n == (match text_to_nat(s@) {
            Some(v) if v <= max => Some(v as u64),
            _ => None,
        }),
{
    if s.len() == 0 {
        return None;
    }
    let mut value: u64 = 0;
    let mut i: usize = 0;
    while i < s.len()
        invariant
            i <= s.len(),
            all_digits(s@.take(i as int)),
            value == digits_value(s@.take(i as int)),
            value <= max,
        decreases s.len() - i,
    {
        let b: u8 = s[i];
        if b < 48 || b > 57 {
            assert(!is_digit(s@[i as int]));
            return None;
        }
        let next: u128 = (value as u128) * 10 + ((b - 48) as u128);
        proof {
            let longer = s@.take(i as int + 1);
            assert(longer.drop_last() =~= s@.take(i as int));
            assert(longer.last() == b);
            assert(digits_value(longer) == next);
            assert forall|j: int| 0 <= j < longer.len() implies is_digit(#[trigger] longer[j]) by {
                if j < i {
                    assert(longer[j] == s@.take(i as int)[j]);
                }
            }
        }
        if next > max as u128 {
            proof {
                if all_digits(s@) {
                    lemma_prefix_value(s@, i as int + 1);
                }
            }
            return None;
        }
        value = next as u64;
        i += 1;
    }
    assert(s@.take(i as int) =~= s@);
    Some(value)
}

fn tail_of(s: &[u8]) -> (tail: &[u8])
    requires
        s.len() > 0,
    ensures
        tail@ == s@.skip(1),
{
    let tail = vstd::slice::slice_subrange(s, 1, s.len());
    assert(tail@ =~= s@.skip(1));
    tail
}

/// Reads an unsigned integer of at most `max`; a leading `+` is accepted.
pub fn parse_bounded(s: &[u8], max: u64) -> (n: Option<u64>)
    ensures
        n == text_to_bounded(s@, max),
{
    if s.len() > 0 && s[0] == 43 {
        parse_digits(tail_of(s), max)
    } else {
        parse_digits(s, max)
    }
}

/// Reads a signed 64-bit integer; a leading `+` or `-` is accepted.
pub fn parse_i64(s: &[u8]) -> (n: Option<i64>)
    ensures
        n == text_to_i64(s@),
{
    if s.len() > 0 && s[0] == 45 {
        match parse_digits(tail_of(s), 0x8000_0000_0000_0000) {
            Some(magnitude) => Some((-(magnitude as i128)) as i64),
            None => None,
        }
    } else {
        match parse_bounded(s, 0x7fff_ffff_ffff_ffff) {
            Some(n) => Some(n as i64),
            None => None,
        }
    }
}

/// The digits of a number stand in their places: counted from the right, the digit
/// at place `i` is the number of ten-to-the-`i`s that are left over, as an ASCII
/// digit. There is no leading zero and no digit is missing.
pub proof fn law_digits_stand_in_their_places(n: nat, i: nat)
    requires
        i < dec_nat(n).len(),
    ensures
        dec_nat(n)[dec_nat(n).len() - 1 - i] == 48 + (n as int / pow(10, i)) % 10,
        (n as int) < pow(10, dec_nat(n).len()),
        n > 0 ==> dec_nat(n)[0] != 48,
        n == 0 ==> dec_nat(n) == seq![48u8],
    decreases n,
{
    reveal(pow);
    lemma_pow0(10);
    if n < 10 {
        assert(pow(10, 1) == 10 * pow(10, 0));
        assert(n as int / 1 == n);
    } else {
        let front = dec_nat(n / 10);
        assert(front.len() > 0) by {
            lemma_dec_nat(n / 10);
        }
        let j: nat = if i == 0 {
            0
        } else {
            (i - 1) as nat
        };
        law_digits_stand_in_their_places(n / 10, j);
        assert(pow(10, dec_nat(n).len()) == 10 * pow(10, front.len()));
        if i > 0 {
            lemma_pow_positive(10, j);
            assert(pow(10, i) == 10 * pow(10, j));
            lemma_div_denominator(n as int, 10, pow(10, j));
        } else {
            assert(n as int / 1 == n);
        }
    }
}

/// A number reads back from its digits, with a sign in front or without, and a
/// leading zero makes no difference.
pub proof fn law_signs_and_zeros(n: nat)
    ensures
        text_to_int(dec_nat(n)) == Some(n as int),
        text_to_int(seq![43u8] + dec_nat(n)) == Some(n as int),
        text_to_int(seq![45u8] + dec_nat(n)) == Some(-(n as int)),
        text_to_int(seq![48u8] + dec_nat(n)) == Some(n as int),
        text_to_unsigned(dec_nat(n)) == Some(n),
        text_to_unsigned(seq![43u8] + dec_nat(n)) == Some(n),
        text_to_unsigned(seq![45u8] + dec_nat(n)) is None,
        n > 0 ==> dec_int(-(n as int)) == seq![45u8] + dec_nat(n),
        dec_int(n as int) == dec_nat(n),
{
    let d = dec_nat(n);
    lemma_dec_nat(n);
    assert((seq![43u8] + d).skip(1) =~= d);
    assert((seq![45u8] + d).skip(1) =~= d);
    assert(is_digit(d[0]));
    assert(!is_digit((seq![45u8] + d)[0]));
    let z = seq![48u8] + d;
    assert forall|i: int| 0 <= i < z.len() implies is_digit(#[trigger] z[i]) by {
        if i > 0 {
            assert(is_digit(d[i - 1]));
        }
    }
    lemma_leading_zero(d);
}

proof fn lemma_leading_zero(d: Seq<u8>)
    ensures
        digits_value(seq![48u8] + d) == digits_value(d),
    decreases d.len(),
{
    let z = seq![48u8] + d;
    if d.len() == 0 {
        assert(z =~= seq![48u8]);
        assert(z.drop_last() =~= Seq::<u8>::empty());
        assert(digits_value(z.drop_last()) == 0);
    } else {
        assert(z.drop_last() =~= seq![48u8] + d.drop_last());
        lemma_leading_zero(d.drop_last());
    }
}

/// Only digits make a number, behind one sign at most: a text with another byte in
/// it, or with none, is none. A number is read as one of 64 bits exactly when it is
/// within their range, and as a bounded one exactly when it is within the bound.
pub proof fn law_only_digits_make_numbers(s: Seq<u8>, at: int, max: u64)
    ensures
        0 <= at < s.len() && !(48 <= s[at] <= 57) && (at > 0 || (s[at] != 43 && s[at] != 45))
            ==> text_to_int(s) is None && text_to_unsigned(s) is None,
        s.len() == 0 || s == seq![43u8] || s == seq![45u8] ==> text_to_int(s) is None
            && text_to_unsigned(s) is None,
        text_to_i64(s) == (match text_to_int(s) {
            Some(n) if -9_223_372_036_854_775_808 <= n <= 9_223_372_036_854_775_807 => Some(
                n as i64,
            ),
            _ => None,
        }),
        text_to_bounded(s, max) == (match text_to_unsigned(s) {
            Some(n) if n <= max => Some(n as u64),
            _ => None,
        }),
{
    if 0 <= at < s.len() && !(48 <= s[at] <= 57) && (at > 0 || (s[at] != 43 && s[at] != 45)) {
        if at > 0 {
            assert(s.skip(1)[at - 1] == s[at]);
            assert(!is_digit(s.skip(1)[at - 1]));
        }
        assert(!is_digit(s[at]));
    }
    if s == seq![45u8] {
        assert(!is_digit(s[0]));
    }
}

} // verus!
