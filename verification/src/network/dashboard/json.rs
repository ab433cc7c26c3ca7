//! JSON string literals.

use vstd::prelude::*;
use vstd::string::*;

use crate::decimal::{dec_int, push_i64};
use crate::text::{ascii_text, chars_of};

verus! {

/// A hexadecimal digit, in lower case.
pub open spec fn hex_digit(n: int) -> char {
    if n < 10 {
        (48 + n) as char
    } else {
        (87 + n) as char
    }
}

/// A character as it stands inside a JSON string.
pub open spec fn json_char(c: char) -> Seq<char> {
    if c == '"' {
        seq!['\\', '"']
    } else if c == '\\' {
        seq!['\\', '\\']
    } else if c == '\n' {
        seq!['\\', 'n']
    } else if c == '\r' {
        seq!['\\', 'r']
    } else if c == '\t' {
        seq!['\\', 't']
    } else if (c as u32) < 32 {
        seq!['\\', 'u', '0', '0', hex_digit(c as u32 as int / 16), hex_digit(c as u32 as int % 16)]
    } else {
        seq![c]
    }
}

/// The characters of a text as they stand inside a JSON string.
pub open spec fn json_chars(s: Seq<char>) -> Seq<char>
    decreases s.len(),
{
    if s.len() == 0 {
        Seq::empty()
    } else {
        json_chars(s.drop_last()) + json_char(s.last())
    }
}

/// A text as a JSON string literal.
pub open spec fn json_text(s: Seq<char>) -> Seq<char> {
    seq!['"'] + json_chars(s) + seq!['"']
}

/// A number as text.
pub open spec fn signed_text(n: int) -> Seq<char> {
    ascii_text(dec_int(n))
}

fn hex(n: u32) -> (c: char)
    requires
        n < 16,
    ensures
        c == hex_digit(n as int),
{
    if n < 10 {
        (48 + n) as u8 as char
    } else {
        (87 + n) as u8 as char
    }
}

/// Escapes a text for embedding inside a JSON double-quoted literal, quotes
/// included.
pub fn json_string(s: &str) -> (out: String)
    ensures
        out@ == json_text(s@),
{
    let chars: Vec<char> = chars_of(s);
    let mut out: String = String::new();
    out.push('"');
    let mut i: usize = 0;
    assert(out@ =~= seq!['"'] + json_chars(chars@.take(0)));
    while i < chars.len()
        invariant
            i <= chars.len(),
            chars@ == s@,
            out@ == seq!['"'] + json_chars(chars@.take(i as int)),
        decreases chars.len() - i,
    {
        let c: char = chars[i];
        let ghost before = out@;
        if c == '"' {
            out.push('\\');
            out.push('"');
        } else if c == '\\' {
            out.push('\\');
            out.push('\\');
        } else if c == '\n' {
            out.push('\\');
            out.push('n');
        } else if c == '\r' {
            out.push('\\');
            out.push('r');
        } else if c == '\t' {
            out.push('\\');
            out.push('t');
        } else if (c as u32) < 32 {
            let code: u32 = c as u32;
            out.push('\\');
            out.push('u');
            out.push('0');
            out.push('0');
            out.push(hex(code / 16));
            out.push(hex(code % 16));
        } else {
            out.push(c);
        }
        assert(out@ =~= before + json_char(c));
        assert(chars@.take(i as int + 1).drop_last() =~= chars@.take(i as int));
        assert(out@ =~= seq!['"'] + json_chars(chars@.take(i as int + 1)));
        i += 1;
    }
    assert(chars@.take(i as int) =~= s@);
    out.push('"');
    assert(out@ =~= json_text(s@));
    out
}

/// Appends a number.
pub fn push_signed(out: &mut String, n: i64)
    ensures
        final(out)@ == old(out)@ + signed_text(n as int),
{
    let mut digits: Vec<u8> = Vec::new();
    push_i64(&mut digits, n);
    assert(digits@ =~= dec_int(n as int));
    let mut i: usize = 0;
    assert(out@ =~= old(out)@ + ascii_text(digits@.take(0)));
    while i < digits.len()
        invariant
            i <= digits.len(),
            out@ == old(out)@ + ascii_text(digits@.take(i as int)),
        decreases digits.len() - i,
    {
        out.push(digits[i] as char);
        assert(digits@.take(i as int + 1) =~= digits@.take(i as int).push(digits@[i as int]));
        assert(out@ =~= old(out)@ + ascii_text(digits@.take(i as int + 1)));
        i += 1;
    }
    assert(digits@.take(i as int) =~= digits@);
}

/// The value of a hexadecimal digit in lower case.
pub open spec fn hex_value(c: char) -> int {
    if '0' <= c <= '9' {
        c as int - 48
    } else {
        c as int - 87
    }
}

/// How many characters of a JSON string stand for its first character.
pub open spec fn unit_len(s: Seq<char>) -> int {
    if s[0] != '\\' {
        1
    } else if s.len() > 1 && s[1] == 'u' {
        6
    } else {
        2
    }
}

/// What the first unit of a JSON string stands for.
pub open spec fn unit_char(s: Seq<char>) -> char {
    if s[0] != '\\' {
        s[0]
    } else if s[1] == 'u' {
        (16 * hex_value(s[4]) + hex_value(s[5])) as u32 as char
    } else if s[1] == 'n' {
        '\n'
    } else if s[1] == 'r' {
        '\r'
    } else if s[1] == 't' {
        '\t'
    } else {
        s[1]
    }
}

/// The text that the inside of a JSON string stands for, by the escapes of the
/// JSON grammar that [`json_char`] uses.
pub open spec fn json_meaning(s: Seq<char>) -> Seq<char>
    decreases s.len(),
{
    if s.len() == 0 || unit_len(s) > s.len() {
        Seq::empty()
    } else {
        seq![unit_char(s)] + json_meaning(s.skip(unit_len(s)))
    }
}

/// Escaping, seen from the front.
proof fn lemma_json_front(s: Seq<char>)
    requires
        s.len() > 0,
    ensures
        json_chars(s) == json_char(s[0]) + json_chars(s.skip(1)),
    decreases s.len(),
{
    if s.len() == 1 {
        assert(s.drop_last() =~= Seq::<char>::empty());
        assert(s.skip(1) =~= Seq::<char>::empty());
        assert(json_chars(s.drop_last()) =~= Seq::<char>::empty());
        assert(json_chars(s) =~= json_char(s[0]));
        assert(json_chars(s.skip(1)) =~= Seq::<char>::empty());
        assert(json_chars(s) =~= json_char(s[0]) + json_chars(s.skip(1)));
    } else {
        lemma_json_front(s.drop_last());
        assert(s.drop_last().skip(1) =~= s.skip(1).drop_last());
        assert(json_chars(s) =~= json_char(s[0]) + json_chars(s.skip(1)));
    }
}

/// A JSON string literal stands for the text it was made from: two texts never
/// share a literal, and nothing in a text can end its literal early.
pub proof fn law_json_text_reads_back(s: Seq<char>)
    ensures
        json_meaning(json_chars(s)) == s,
        json_text(s).subrange(1, json_text(s).len() - 1) == json_chars(s),
    decreases s.len(),
{
    assert(json_text(s).subrange(1, json_text(s).len() - 1) =~= json_chars(s));
    if s.len() > 0 {
        lemma_json_front(s);
        law_json_text_reads_back(s.skip(1));
        let c = s[0];
        let whole = json_chars(s);
        let rest = json_chars(s.skip(1));
        assert(unit_len(whole) == json_char(c).len());
        assert(whole.skip(unit_len(whole)) =~= rest);
        if (c as u32) < 32 {
            let code = c as u32 as int;
            assert(hex_value(hex_digit(code / 16)) == code / 16);
            assert(hex_value(hex_digit(code % 16)) == code % 16);
            vstd::utf8::char_u32_cast(c, code as u32);
        }
        assert(unit_char(whole) == c);
        assert(json_meaning(whole) =~= s);
    } else {
        assert(json_meaning(json_chars(s)) =~= s);
    }
}

/// No control character stands in a JSON string literal, and every quote mark
/// inside it is escaped.
pub proof fn law_json_text_is_safe(s: Seq<char>, i: int)
    requires
        0 <= i < json_chars(s).len(),
    ensures
        json_chars(s)[i] as u32 >= 32,
        json_chars(s)[i] == '"' ==> i > 0 && json_chars(s)[i - 1] == '\\',
    decreases s.len(),
{
    let front = json_chars(s.drop_last());
    if i < front.len() {
        law_json_text_is_safe(s.drop_last(), i);
    }
}

} // verus!
