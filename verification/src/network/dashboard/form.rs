//! URL-encoded forms and query strings.

use vstd::prelude::*;
use vstd::string::*;
use vstd::utf8::valid_utf8;

use crate::protocol::reader::{find_byte, index_of_byte};
use crate::text::{readable, readable_text, same_text};

verus! {

/// The value of a hexadecimal digit in either case.
pub open spec fn hex_of(b: u8) -> Option<u8> {
    if 48 <= b <= 57 {
        Some((b - 48) as u8)
    } else if 97 <= b <= 102 {
        Some((b - 87) as u8)
    } else if 65 <= b <= 70 {
        Some((b - 55) as u8)
    } else {
        None
    }
}

/// Whether an escaped byte stands at `i`.
pub open spec fn escape_at(s: Seq<u8>, i: int) -> bool {
    s[i] == 37 && i + 2 < s.len() && hex_of(s[i + 1]) is Some && hex_of(s[i + 2]) is Some
}

/// The bytes that a URL-encoded text stands for, from `i` on: `+` is a space,
/// `%` and two hexadecimal digits are a byte, and all else stands for itself.
pub open spec fn decoded_from(s: Seq<u8>, i: int) -> Seq<u8>
    decreases s.len() - i,
{
    if i >= s.len() {
        Seq::empty()
    } else if s[i] == 43 {
        seq![32u8] + decoded_from(s, i + 1)
    } else if escape_at(s, i) {
        seq![(16 * hex_of(s[i + 1])->0 + hex_of(s[i + 2])->0) as u8] + decoded_from(s, i + 3)
    } else {
        seq![s[i]] + decoded_from(s, i + 1)
    }
}

/// The text that a URL-encoded text stands for.
pub open spec fn url_decoded(s: Seq<u8>) -> Seq<char> {
    readable(decoded_from(s, 0))
}

/// One field: name and value, divided by the first `=`.
pub open spec fn field_of(s: Seq<u8>) -> (Seq<char>, Seq<char>) {
    let at = index_of_byte(s, 0, 61);
    if at < s.len() {
        (url_decoded(s.take(at)), url_decoded(s.skip(at + 1)))
    } else {
        (url_decoded(s), url_decoded(Seq::empty()))
    }
}

/// The fields of a form from `pos` on, divided by `&`; empty ones do not count.
pub open spec fn fields_from(s: Seq<u8>, pos: int) -> Seq<(Seq<char>, Seq<char>)>
    decreases s.len() - pos,
{
    if pos >= s.len() {
        Seq::empty()
    } else {
        let end = index_of_byte(s, pos, 38);
        if end == pos {
            fields_from(s, pos + 1)
        } else if pos < end < s.len() {
            seq![field_of(s.subrange(pos, end))] + fields_from(s, end + 1)
        } else {
            seq![field_of(s.skip(pos))]
        }
    }
}

/// The fields of a form.
pub open spec fn form_fields(s: Seq<u8>) -> Seq<(Seq<char>, Seq<char>)> {
    fields_from(s, 0)
}

/// The value of a field; of several with one name the last counts.
pub open spec fn value_of(fields: Seq<(Seq<char>, Seq<char>)>, name: Seq<char>) -> Option<Seq<char>>
    decreases fields.len(),
{
    if fields.len() == 0 {
        None
    } else if fields.last().0 == name {
        Some(fields.last().1)
    } else {
        value_of(fields.drop_last(), name)
    }
}

/// The fields of a request body; a body that is not UTF-8 has none.
pub open spec fn body_fields(body: Seq<u8>) -> Seq<(Seq<char>, Seq<char>)> {
    if valid_utf8(body) {
        form_fields(body)
    } else {
        Seq::empty()
    }
}

/// The texts of a list of fields.
pub open spec fn field_views(fields: Seq<(String, String)>) -> Seq<(Seq<char>, Seq<char>)> {
    fields.map_values(|f: (String, String)| (f.0@, f.1@))
}

fn hex_value(b: u8) -> (v: Option<u8>)
    ensures
        v == hex_of(b),
        v matches Some(n) ==> n < 16,
{
    if 48 <= b && b <= 57 {
        Some(b - 48)
    } else if 97 <= b && b <= 102 {
        Some(b - 87)
    } else if 65 <= b && b <= 70 {
        Some(b - 55)
    } else {
        None
    }
}

/// Decodes a URL-encoded text.
pub fn url_decode(s: &[u8]) -> (text: String)
    ensures
        text@ == url_decoded(s@),
{
    let mut out: Vec<u8> = Vec::new();
    let mut i: usize = 0;
    assert(out@ + decoded_from(s@, 0) =~= decoded_from(s@, 0));
    while i < s.len()
        invariant
            i <= s.len(),
            out@ + decoded_from(s@, i as int) == decoded_from(s@, 0),
        decreases s.len() - i,
    {
        let b: u8 = s[i];
        let ghost before = out@;
        let ghost whole = decoded_from(s@, i as int);
        let escaped: Option<u8> = if b == 37 && s.len() - i > 2 {
            match (hex_value(s[i + 1]), hex_value(s[i + 2])) {
                (Some(hi), Some(lo)) => Some(hi * 16 + lo),
                _ => None,
            }
        } else {
            None
        };
        if b == 43 {
            out.push(32);
            i += 1;
        } else {
            match escaped {
                Some(byte) => {
                    out.push(byte);
                    i += 3;
                },
                None => {
                    out.push(b);
                    i += 1;
                },
            }
        }
        assert(out@ + decoded_from(s@, i as int) =~= before + whole);
    }
    assert(out@ =~= decoded_from(s@, 0));
    readable_text(out.as_slice())
}

/// Reads one field.
fn read_field(s: &[u8]) -> (field: (String, String))
    ensures
        (field.0@, field.1@) == field_of(s@),
{
    let at: usize = find_byte(s, 0, 61);
    if at < s.len() {
        let name: &[u8] = vstd::slice::slice_subrange(s, 0, at);
        let value: &[u8] = vstd::slice::slice_subrange(s, at + 1, s.len());
        assert(name@ =~= s@.take(at as int));
        assert(value@ =~= s@.skip(at as int + 1));
        (url_decode(name), url_decode(value))
    } else {
        let nothing: Vec<u8> = Vec::new();
        assert(nothing@ =~= Seq::<u8>::empty());
        (url_decode(s), url_decode(nothing.as_slice()))
    }
}

/// Reads a query string or a form.
pub fn parse_query(s: &[u8]) -> (fields: Vec<(String, String)>)
    ensures
        field_views(fields@) == form_fields(s@),
{
    let mut fields: Vec<(String, String)> = Vec::new();
    let mut pos: usize = 0;
    assert(field_views(fields@) + fields_from(s@, 0) =~= fields_from(s@, 0));
    while pos < s.len()
        invariant
            pos <= s.len(),
            field_views(fields@) + fields_from(s@, pos as int) == fields_from(s@, 0),
        decreases s.len() - pos,
    {
        let end: usize = find_byte(s, pos, 38);
        let ghost before = field_views(fields@);
        let ghost whole = fields_from(s@, pos as int);
        if end > pos {
            let part: &[u8] = vstd::slice::slice_subrange(s, pos, end);
            let field = read_field(part);
            fields.push(field);
            assert(field_views(fields@) =~= before.push(field_of(part@)));
            assert(end == s.len() ==> part@ =~= s@.skip(pos as int));
        }
        pos = if end < s.len() {
            end + 1
        } else {
            s.len()
        };
        assert(field_views(fields@) + fields_from(s@, pos as int) =~= before + whole);
    }
    assert(field_views(fields@) =~= form_fields(s@));
    fields
}

/// Reads a request body.
pub fn parse_body(body: &[u8]) -> (fields: Vec<(String, String)>)
    ensures
        field_views(fields@) == body_fields(body@),
{
    match crate::text::utf8_text(body) {
        Some(_) => parse_query(body),
        None => {
            let none: Vec<(String, String)> = Vec::new();
            assert(field_views(none@) =~= Seq::<(Seq<char>, Seq<char>)>::empty());
            none
        },
    }
}

/// Looks a field up.
pub fn field_value(fields: &[(String, String)], name: &str) -> (value: Option<String>)
    ensures
        match value {
            Some(v) => value_of(field_views(fields@), name@) == Some(v@),
            None => value_of(field_views(fields@), name@) is None,
        },
{
    let mut i: usize = fields.len();
    assert(fields@.take(i as int) =~= fields@);
    while i > 0
        invariant
            i <= fields.len(),
            value_of(field_views(fields@), name@) == value_of(
                field_views(fields@.take(i as int)),
                name@,
            ),
        decreases i,
    {
        let ghost here = field_views(fields@.take(i as int));
        assert(here.drop_last() =~= field_views(fields@.take(i as int - 1)));
        assert(here.last() == (fields@[i as int - 1].0@, fields@[i as int - 1].1@));
        i -= 1;
        if same_text(fields[i].0.as_str(), name) {
            return Some(fields[i].1.clone());
        }
    }
    None
}

} // verus!
