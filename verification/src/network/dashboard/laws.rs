//! What users of the dashboard see.

use vstd::prelude::*;
use vstd::string::*;
use vstd::utf8::encode_utf8;

use crate::clock::Clock;
use crate::config::file::lemma_number_text;
use crate::decimal::{law_signs_and_zeros, text_to_i64};
use crate::network::dashboard::form::{
    decoded_from, field_of, fields_from, form_fields, url_decoded, value_of,
};
use crate::network::dashboard::json::{json_text, signed_text};
use crate::network::dashboard::routes::{delete_effect, detail_effect, write_effect};
use crate::protocol::reader::index_of_byte;
use crate::storage::engine::laws::{law_expire_then_ttl, law_set_then_get};
use crate::storage::engine::model::{EngineView, TtlStatus};
use crate::text::{number_text, readable};

verus! {

/// A hexadecimal digit, in capitals or not.
pub open spec fn hexadecimal(n: int, capital: bool) -> u8 {
    if n < 10 {
        (48 + n) as u8
    } else if capital {
        (55 + n) as u8
    } else {
        (87 + n) as u8
    }
}

/// A text with each byte escaped: `%` and two hexadecimal digits.
pub open spec fn all_escaped(b: Seq<u8>, capital: bool) -> Seq<u8>
    decreases b.len(),
{
    if b.len() == 0 {
        Seq::empty()
    } else {
        seq![37u8, hexadecimal(b[0] as int / 16, capital), hexadecimal(b[0] as int % 16, capital)]
            + all_escaped(b.skip(1), capital)
    }
}

proof fn lemma_escaped_from(before: Seq<u8>, b: Seq<u8>, capital: bool)
    ensures
        decoded_from(before + all_escaped(b, capital), before.len() as int) == b,
    decreases b.len(),
{
    let s = before + all_escaped(b, capital);
    if b.len() == 0 {
        assert(b =~= Seq::<u8>::empty());
    } else {
        let i = before.len() as int;
        let head = seq![
            37u8,
            hexadecimal(b[0] as int / 16, capital),
            hexadecimal(b[0] as int % 16, capital),
        ];
        let rest = b.skip(1);
        lemma_escaped_from(before + head, rest, capital);
        assert(s =~= (before + head) + all_escaped(rest, capital));
        assert(s[i] == head[0] && s[i + 1] == head[1] && s[i + 2] == head[2]);
        assert(seq![b[0]] + rest =~= b);
    }
}

/// A URL-encoded text stands for the bytes that were encoded, whatever they are, and the
/// case of the digits does not matter.
pub proof fn law_escaped_text_reads_back(b: Seq<u8>, capital: bool)
    ensures
        url_decoded(all_escaped(b, capital)) == readable(b),
{
    lemma_escaped_from(Seq::empty(), b, capital);
    assert(Seq::<u8>::empty() + all_escaped(b, capital) =~= all_escaped(b, capital));
}

proof fn lemma_plain_from(s: Seq<u8>, i: int)
    requires
        0 <= i <= s.len(),
        forall|j: int| 0 <= j < s.len() ==> #[trigger] s[j] != 37,
    ensures
        decoded_from(s, i) == s.skip(i).map_values(
            |b: u8|
                if b == 43 {
                    32u8
                } else {
                    b
                },
        ),
    decreases s.len() - i,
{
    let spaced = |b: u8|
        if b == 43 {
            32u8
        } else {
            b
        };
    if i < s.len() {
        lemma_plain_from(s, i + 1);
        assert(s.skip(i).map_values(spaced) =~= seq![spaced(s[i])] + s.skip(i + 1).map_values(
            spaced,
        ));
    } else {
        assert(s.skip(i).map_values(spaced) =~= Seq::<u8>::empty());
    }
}

/// A URL-encoded text without escapes stands for itself, with a space for each `+`.
pub proof fn law_plus_is_a_space(s: Seq<u8>)
    requires
        forall|j: int| 0 <= j < s.len() ==> #[trigger] s[j] != 37,
    ensures
        url_decoded(s) == readable(
            s.map_values(
                |b: u8|
                    if b == 43 {
                        32u8
                    } else {
                        b
                    },
            ),
        ),
{
    lemma_plain_from(s, 0);
    assert(s.skip(0) =~= s);
}

/// Where a byte stands behind a text that does not hold it.
pub proof fn lemma_index(before: Seq<u8>, b: u8, after: Seq<u8>, pos: int)
    requires
        0 <= pos <= before.len(),
        forall|j: int| pos <= j < before.len() ==> #[trigger] before[j] != b,
    ensures
        index_of_byte(before + seq![b] + after, pos, b) == before.len(),
        index_of_byte(before, pos, b) == before.len(),
    decreases before.len() - pos,
{
    let s = before + seq![b] + after;
    if pos < before.len() {
        assert(s[pos] == before[pos]);
        lemma_index(before, b, after, pos + 1);
    } else {
        assert(s[pos] == b);
    }
}

/// A field of a form has its name in front of the first `=` and its value behind it.
pub proof fn law_field_is_name_and_value(name: Seq<u8>, value: Seq<u8>)
    requires
        forall|j: int| 0 <= j < name.len() ==> #[trigger] name[j] != 61,
    ensures
        field_of(name + seq![61u8] + value) == (url_decoded(name), url_decoded(value)),
        field_of(name) == (url_decoded(name), url_decoded(Seq::empty())),
{
    let s = name + seq![61u8] + value;
    lemma_index(name, 61, value, 0);
    assert(s.take(name.len() as int) =~= name);
    assert(s.skip(name.len() as int + 1) =~= value);
}

proof fn lemma_index_shift(before: Seq<u8>, s: Seq<u8>, pos: int, b: u8)
    requires
        0 <= pos <= s.len(),
    ensures
        index_of_byte(before + s, before.len() + pos, b) == before.len() + index_of_byte(s, pos, b),
        pos <= index_of_byte(s, pos, b) <= s.len(),
    decreases s.len() - pos,
{
    if pos < s.len() {
        assert((before + s)[before.len() + pos] == s[pos]);
        if s[pos] != b {
            lemma_index_shift(before, s, pos + 1, b);
        }
    }
}

proof fn lemma_fields_shift(before: Seq<u8>, s: Seq<u8>, pos: int)
    requires
        0 <= pos <= s.len(),
    ensures
        fields_from(before + s, before.len() + pos) == fields_from(s, pos),
    decreases s.len() - pos,
{
    let all = before + s;
    let at = before.len() + pos;
    if pos < s.len() {
        lemma_index_shift(before, s, pos, 38);
        let end = index_of_byte(s, pos, 38);
        assert(all.skip(at) =~= s.skip(pos));
        if end == pos {
            lemma_fields_shift(before, s, pos + 1);
        } else if end < s.len() {
            assert(all.subrange(at, before.len() + end) =~= s.subrange(pos, end));
            lemma_fields_shift(before, s, end + 1);
        }
    }
}

/// The fields of a form are divided by `&` and come in order; empty ones do not count.
pub proof fn law_form_is_its_fields(first: Seq<u8>, rest: Seq<u8>)
    requires
        forall|j: int| 0 <= j < first.len() ==> #[trigger] first[j] != 38,
    ensures
        form_fields(Seq::empty()) == Seq::<(Seq<char>, Seq<char>)>::empty(),
        first.len() > 0 ==> form_fields(first) == seq![field_of(first)],
        first.len() > 0 ==> form_fields(first + seq![38u8] + rest) == seq![field_of(first)]
            + form_fields(rest),
        first.len() == 0 ==> form_fields(first + seq![38u8] + rest) == form_fields(rest),
{
    let s = first + seq![38u8] + rest;
    let front = first + seq![38u8];
    lemma_index(first, 38, rest, 0);
    lemma_fields_shift(front, rest, 0);
    assert(s =~= front + rest);
    assert(s.subrange(0, first.len() as int) =~= first);
    assert(first.skip(0) =~= first);
}

/// Of several fields with one name the last counts.
pub proof fn law_last_field_counts(
    fields: Seq<(Seq<char>, Seq<char>)>,
    name: Seq<char>,
    value: Seq<char>,
    other: Seq<char>,
)
    requires
        other != name,
    ensures
        value_of(fields.push((name, value)), name) == Some(value),
        value_of(fields.push((other, value)), name) == value_of(fields, name),
        value_of(Seq::empty(), name) is None,
{
    assert(fields.push((name, value)).drop_last() =~= fields);
    assert(fields.push((other, value)).drop_last() =~= fields);
}

/// A value that was written through a form with a lifetime lives for that many seconds;
/// zero gives it no deadline, and what is no number changes nothing.
pub proof fn law_form_lifetime(
    s: EngineView,
    key: Seq<u8>,
    value: Seq<char>,
    seconds: nat,
    other: Seq<char>,
    done: Seq<char>,
    now: Clock,
)
    requires
        now.epoch_ms >= 0,
        now.epoch_ms + seconds * 1000 <= i64::MAX,
        text_to_i64(encode_utf8(other)) is None,
        write_effect(s, key, value, None, done, now).response.status == 200,
    ensures
        ({
            let plain = write_effect(s, key, value, None, done, now);
            let timed = write_effect(s, key, value, Some(number_text(seconds)), done, now);
            let odd = write_effect(s, key, value, Some(other), done, now);
            &&& timed.response == plain.response
            &&& seconds > 0 ==> timed.engine.ttl(key, now) == TtlStatus::Millis(
                (seconds * 1000) as i64,
            )
            &&& seconds == 0 ==> timed.engine.ttl(key, now) == TtlStatus::NoExpire
            &&& timed.engine.store[key].data == encode_utf8(value)
            &&& odd == plain
        }),
{
    let t = s.set(key, encode_utf8(value), now).1;
    law_set_then_get(s, key, encode_utf8(value), now, now);
    lemma_number_text(seconds);
    law_signs_and_zeros(seconds);
    if seconds > 0 {
        law_expire_then_ttl(t, key, (now.epoch_ms + seconds * 1000) as i64, now);
    }
}

/// A key is shown with its value and the milliseconds that it has left, `-1` where it has
/// no deadline; a key that is not there is not found.
pub proof fn law_key_is_shown(s: EngineView, key: Seq<u8>, now: Clock)
    ensures
        ({
            let r = detail_effect(s, key, now).response;
            let shown = "{\"key\":"@ + json_text(readable(key)) + ",\"type\":\"string\",\"value\":"@
                + json_text(readable(s.store[key].data)) + ",\"ttl_ms\":"@;
            &&& !s.live(key, now) ==> r.status == 404
            &&& s.live(key, now) ==> r.status == 200
            &&& s.live(key, now) && s.store[key].expire_at is None ==> r.body == encode_utf8(
                shown + signed_text(-1) + "}"@,
            )
            &&& s.ttl(key, now) matches TtlStatus::Millis(ms) ==> r.body == encode_utf8(
                shown + signed_text(ms as int) + "}"@,
            )
        }),
{
    reveal(detail_effect);
}

/// Deleting a key says whether it was there, and it is gone.
pub proof fn law_deleted_key(s: EngineView, key: Seq<u8>, now: Clock, later: Clock)
    requires
        s.live(key, now),
    ensures
        ({
            let first = delete_effect(s, key, now);
            let second = delete_effect(first.engine, key, later);
            &&& first.response.status == 200
            &&& first.response.body == encode_utf8("{\"deleted\":true}"@)
            &&& second.response.status == 200
            &&& second.response.body == encode_utf8("{\"deleted\":false}"@)
            &&& detail_effect(first.engine, key, later).response.status == 404
        }),
{
    reveal(delete_effect);
    reveal(detail_effect);
}

} // verus!
