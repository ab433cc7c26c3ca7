//! Text helpers: characters, trimming, ASCII case and number formatting.

use vstd::prelude::*;
use vstd::string::*;
use vstd::utf8::{decode_utf8, encode_utf8, is_ascii_chars, valid_utf8};

use crate::bytes::{copied, same_bytes};
use crate::decimal::{dec_nat, push_u64};

verus! {

/// `String::push` puts one character behind the text.
pub assume_specification[ String::push ](s: &mut String, c: char)
    ensures
        final(s)@ == old(s)@.push(c),
;

/// What `String::from_utf8_lossy` makes of a byte string: the text itself
/// where the bytes are UTF-8, else the text with each flaw replaced.
pub uninterp spec fn lossy(b: Seq<u8>) -> Seq<char>;

/// The text that a byte string is shown as: the text itself where the bytes are
/// UTF-8, else with each flaw replaced.
pub open spec fn readable(b: Seq<u8>) -> Seq<char> {
    if valid_utf8(b) {
        decode_utf8(b)
    } else {
        lossy(b)
    }
}

/// Shows a byte string as text.
pub fn readable_text(b: &[u8]) -> (text: String)
    ensures
        text@ == readable(b@),
{
    lossy_text(b)
}

/// `String::from_utf8_lossy`. Bytes that are valid UTF-8 come back as the text
/// they encode; for other bytes the result is only named.
#[verifier::external_body]
fn lossy_text(b: &[u8]) -> (text: String)
    ensures
        text@ == lossy(b@),
        valid_utf8(b@) ==> text@ == decode_utf8(b@),
{
    String::from_utf8_lossy(b).into_owned()
}

/// `str::from_utf8`. It succeeds exactly on valid UTF-8 and then gives the text
/// that the bytes encode.
#[verifier::external_body]
pub(crate) fn utf8_text(b: &[u8]) -> (text: Option<String>)
    ensures
        text is Some <==> valid_utf8(b@),
        text matches Some(t) ==> t@ == decode_utf8(b@),
{
    std::str::from_utf8(b).ok().map(String::from)
}

/// What `str::to_uppercase` makes of a text.
pub uninterp spec fn uppercase(s: Seq<char>) -> Seq<char>;

pub open spec fn upper_char(c: char) -> char {
    if 'a' <= c <= 'z' {
        ((c as u32) - 32) as char
    } else {
        c
    }
}

/// `str::to_uppercase`. On ASCII text it maps the letters `a` to `z` and keeps
/// the rest; on other text the result is only named.
#[verifier::external_body]
fn uppercased(s: &str) -> (upper: String)
    ensures
        upper@ == uppercase(s@),
        is_ascii_chars(s@) ==> upper@ == s@.map_values(|c: char| upper_char(c)),
{
    s.to_uppercase()
}

/// A text with its ASCII letters in upper case.
pub open spec fn ascii_raised(s: Seq<char>) -> Seq<char> {
    s.map_values(|c: char| upper_char(c))
}

/// A text in upper case: its ASCII letters first, and where it holds other
/// characters, those too.
pub open spec fn raised(s: Seq<char>) -> Seq<char> {
    if is_ascii_chars(ascii_raised(s)) {
        ascii_raised(s)
    } else {
        uppercase(ascii_raised(s))
    }
}

/// Puts a character into upper case if it is an ASCII letter.
fn raise_char(c: char) -> (upper: char)
    ensures
        upper == upper_char(c),
{
    if 'a' <= c && c <= 'z' {
        (c as u8 - 32) as char
    } else {
        c
    }
}

proof fn lemma_raised_twice(s: Seq<char>)
    ensures
        ascii_raised(ascii_raised(s)) == ascii_raised(s),
{
    assert(ascii_raised(ascii_raised(s)) =~= ascii_raised(s));
}

/// A text in upper case.
pub fn raised_text(s: &str) -> (upper: String)
    ensures
        upper@ == raised(s@),
{
    let chars: Vec<char> = chars_of(s);
    let mut letters: String = String::new();
    let mut i: usize = 0;
    assert(letters@ =~= ascii_raised(chars@.take(0)));
    while i < chars.len()
        invariant
            i <= chars.len(),
            letters@ == ascii_raised(chars@.take(i as int)),
        decreases chars.len() - i,
    {
        letters.push(raise_char(chars[i]));
        i += 1;
        assert(letters@ =~= ascii_raised(chars@.take(i as int)));
    }
    assert(chars@.take(i as int) =~= chars@);
    proof {
        lemma_raised_twice(s@);
    }
    uppercased(letters.as_str())
}

/// The characters of a text.
pub fn chars_of(s: &str) -> (chars: Vec<char>)
    ensures
        chars@ == s@,
{
    let mut chars: Vec<char> = Vec::new();
    for c in iter: s.chars()
        invariant
            chars@ == s@.take(iter.index()),
            iter.seq() == s@,
    {
        chars.push(c);
        assert(s@.take(iter.index() + 1) =~= s@.take(iter.index()).push(c));
    }
    assert(s@.take(s@.len() as int) =~= s@);
    chars
}

/// The text of a run of characters.
pub fn text_of(chars: &[char]) -> (text: String)
    ensures
        text@ == chars@,
{
    let mut text: String = String::new();
    let mut i: usize = 0;
    while i < chars.len()
        invariant
            i <= chars.len(),
            text@ == chars@.take(i as int),
        decreases chars.len() - i,
    {
        text.push(chars[i]);
        assert(chars@.take(i as int + 1) =~= chars@.take(i as int).push(chars@[i as int]));
        i += 1;
    }
    assert(chars@.take(i as int) =~= chars@);
    text
}

/// The UTF-8 bytes of a text, in a vector of their own.
pub fn bytes_of(s: &str) -> (b: Vec<u8>)
    ensures
        b@ == encode_utf8(s@),
{
    copied(s.as_bytes())
}

/// Equal encodings mean equal texts.
pub proof fn lemma_same_encoding(a: Seq<char>, b: Seq<char>)
    ensures
        encode_utf8(a) == encode_utf8(b) <==> a == b,
{
    vstd::utf8::encode_utf8_decode_utf8(a);
    vstd::utf8::encode_utf8_decode_utf8(b);
}

/// Compares two texts.
pub fn same_text(a: &str, b: &str) -> (same: bool)
    ensures
        same == (a@ == b@),
{
    proof {
        lemma_same_encoding(a@, b@);
    }
    same_bytes(a.as_bytes(), b.as_bytes())
}

/// The characters with the Unicode property `White_Space`.
pub open spec fn white_space(c: char) -> bool {
    let u = c as u32;
    ||| 0x9 <= u <= 0xd
    ||| u == 0x20
    ||| u == 0x85
    ||| u == 0xa0
    ||| u == 0x1680
    ||| 0x2000 <= u <= 0x200a
    ||| u == 0x2028
    ||| u == 0x2029
    ||| u == 0x202f
    ||| u == 0x205f
    ||| u == 0x3000
}

/// Whether `c` is white space.
pub fn is_white_space(c: char) -> (white: bool)
    ensures
        white == white_space(c),
{
    let u: u32 = c as u32;
    (0x9 <= u && u <= 0xd) || u == 0x20 || u == 0x85 || u == 0xa0 || u == 0x1680 || (0x2000 <= u
        && u <= 0x200a) || u == 0x2028 || u == 0x2029 || u == 0x202f || u == 0x205f || u == 0x3000
}

/// `s` without its leading white space.
pub open spec fn trim_start_of(s: Seq<char>) -> Seq<char>
    decreases s.len(),
{
    if s.len() > 0 && white_space(s[0]) {
        trim_start_of(s.skip(1))
    } else {
        s
    }
}

/// `s` without its trailing white space.
pub open spec fn trim_end_of(s: Seq<char>) -> Seq<char>
    decreases s.len(),
{
    if s.len() > 0 && white_space(s.last()) {
        trim_end_of(s.drop_last())
    } else {
        s
    }
}

/// `s` without white space at either end.
pub open spec fn trim_of(s: Seq<char>) -> Seq<char> {
    trim_end_of(trim_start_of(s))
}

proof fn lemma_trim_start(before: Seq<char>, s: Seq<char>)
    requires
        forall|i: int| 0 <= i < before.len() ==> white_space(#[trigger] before[i]),
    ensures
        trim_start_of(before + s) == trim_start_of(s),
    decreases before.len(),
{
    if before.len() == 0 {
        assert(before + s =~= s);
    } else {
        let rest = before.skip(1);
        assert((before + s)[0] == before[0]);
        assert((before + s).skip(1) =~= rest + s);
        lemma_trim_start(rest, s);
    }
}

proof fn lemma_trim_end(s: Seq<char>, after: Seq<char>)
    requires
        forall|i: int| 0 <= i < after.len() ==> white_space(#[trigger] after[i]),
    ensures
        trim_end_of(s + after) == trim_end_of(s),
    decreases after.len(),
{
    if after.len() == 0 {
        assert(s + after =~= s);
    } else {
        let rest = after.drop_last();
        assert(after[after.len() - 1] == after.last());
        assert((s + after).last() == after.last());
        assert((s + after).drop_last() =~= s + rest);
        lemma_trim_end(s, rest);
    }
}

/// What follows a text that is not all white space is out of reach of its start.
proof fn lemma_trim_start_keeps(s: Seq<char>, after: Seq<char>)
    ensures
        trim_start_of(s).len() > 0 ==> trim_start_of(s + after) == trim_start_of(s) + after,
        trim_start_of(s).len() == 0 ==> trim_start_of(s + after) == trim_start_of(after),
    decreases s.len(),
{
    if s.len() == 0 {
        assert(s + after =~= after);
    } else if white_space(s[0]) {
        assert((s + after).skip(1) =~= s.skip(1) + after);
        lemma_trim_start_keeps(s.skip(1), after);
    }
}

/// White space around a text goes when it is trimmed.
pub proof fn lemma_margins(before: Seq<char>, s: Seq<char>, after: Seq<char>)
    requires
        forall|i: int| 0 <= i < before.len() ==> white_space(#[trigger] before[i]),
        forall|i: int| 0 <= i < after.len() ==> white_space(#[trigger] after[i]),
    ensures
        trim_of(before + s + after) == trim_of(s),
{
    let none = Seq::<char>::empty();
    assert(before + s + after =~= before + (s + after));
    lemma_trim_start(before, s + after);
    lemma_trim_start_keeps(s, after);
    if trim_start_of(s).len() > 0 {
        lemma_trim_end(trim_start_of(s), after);
    } else {
        lemma_trim_start(after, none);
        assert(after + none =~= after);
        assert(trim_start_of(s) =~= none);
    }
}

/// Drops leading white space.
pub fn trim_start(s: &[char]) -> (rest: &[char])
    ensures
        rest@ == trim_start_of(s@),
{
    let mut i: usize = 0;
    assert(s@.skip(0) =~= s@);
    while i < s.len() && is_white_space(s[i])
        invariant
            i <= s.len(),
            trim_start_of(s@) == trim_start_of(s@.skip(i as int)),
        decreases s.len() - i,
    {
        assert(s@.skip(i as int).skip(1) =~= s@.skip(i as int + 1));
        i += 1;
    }
    let rest = vstd::slice::slice_subrange(s, i, s.len());
    assert(rest@ =~= s@.skip(i as int));
    rest
}

/// Drops leading and trailing white space.
pub fn trim(s: &[char]) -> (middle: &[char])
    ensures
        middle@ == trim_of(s@),
{
    let t = trim_start(s);
    let mut n: usize = t.len();
    assert(t@.take(n as int) =~= t@);
    while n > 0 && is_white_space(t[n - 1])
        invariant
            n <= t.len(),
            trim_end_of(t@) == trim_end_of(t@.take(n as int)),
        decreases n,
    {
        assert(t@.take(n as int).drop_last() =~= t@.take(n as int - 1));
        n -= 1;
    }
    let middle = vstd::slice::slice_subrange(t, 0, n);
    assert(middle@ =~= t@.take(n as int));
    middle
}

/// Maps an ASCII capital to lower case and keeps every other character.
pub open spec fn lower_char(c: char) -> char {
    if 'A' <= c <= 'Z' {
        ((c as u32) + 32) as char
    } else {
        c
    }
}

/// The text with every ASCII letter in lower case.
pub open spec fn lower_of(s: Seq<char>) -> Seq<char> {
    s.map_values(|c: char| lower_char(c))
}

fn lowered(c: char) -> (lower: char)
    ensures
        lower == lower_char(c),
{
    if 'A' <= c && c <= 'Z' {
        let u: u8 = c as u8;
        (u + 32) as char
    } else {
        c
    }
}

/// Lower-cases the ASCII letters of a text.
pub fn to_lower(s: &[char]) -> (lower: Vec<char>)
    ensures
        lower@ == lower_of(s@),
{
    let mut lower: Vec<char> = Vec::new();
    let mut i: usize = 0;
    while i < s.len()
        invariant
            i <= s.len(),
            lower@ == lower_of(s@.take(i as int)),
        decreases s.len() - i,
    {
        lower.push(lowered(s[i]));
        assert(s@.take(i as int + 1) =~= s@.take(i as int).push(s@[i as int]));
        assert(lower@ =~= lower_of(s@.take(i as int + 1)));
        i += 1;
    }
    assert(s@.take(i as int) =~= s@);
    lower
}

/// ASCII bytes as characters.
pub open spec fn ascii_text(b: Seq<u8>) -> Seq<char> {
    b.map_values(|x: u8| x as char)
}

/// A number as decimal text.
pub open spec fn number_text(n: nat) -> Seq<char> {
    ascii_text(dec_nat(n))
}

/// Appends a number in decimal.
pub fn push_number(out: &mut String, n: u64)
    ensures
        final(out)@ == old(out)@ + number_text(n as nat),
{
    let mut digits: Vec<u8> = Vec::new();
    push_u64(&mut digits, n);
    assert(digits@ =~= dec_nat(n as nat));
    let mut i: usize = 0;
    assert(out@ =~= old(out)@ + ascii_text(digits@.take(0)));
    while i < digits.len()
        invariant
            i <= digits.len(),
            out@ == old(out)@ + ascii_text(digits@.take(i as int)),
        decreases digits.len() - i,
    {
        out.push(digits[i] as char);
        assert(digits@.take(i as int + 1) =~= digits@.take(i as int).push(digits@[i as int]));
        assert(out@ =~= old(out)@ + ascii_text(digits@.take(i as int + 1)));
        i += 1;
    }
    assert(digits@.take(i as int) =~= digits@);
}

/// The 26 letters change their case into each other, and nothing else changes.
pub proof fn law_case_of_letters(k: u8, c: char)
    requires
        k < 26,
        !('a' <= c <= 'z'),
        !('A' <= c <= 'Z'),
    ensures
        lower_char((65 + k) as u8 as char) == (97 + k) as u8 as char,
        upper_char((97 + k) as u8 as char) == (65 + k) as u8 as char,
        lower_char((97 + k) as u8 as char) == (97 + k) as u8 as char,
        upper_char((65 + k) as u8 as char) == (65 + k) as u8 as char,
        lower_char(c) == c,
        upper_char(c) == c,
        crate::bytes::upper_byte((97 + k) as u8) == 65 + k,
        crate::bytes::upper_byte((65 + k) as u8) == 65 + k,
        c as u32 <= 127 ==> crate::bytes::upper_byte(c as u8) == c as u8,
{
}

/// Blanks, tabs and line breaks are white space; what can be seen is not.
pub proof fn law_white_space(c: char)
    ensures
        white_space(' ') && white_space('\t') && white_space('\n') && white_space('\r'),
        '!' <= c <= '~' ==> !white_space(c),
{
}

} // verus!
