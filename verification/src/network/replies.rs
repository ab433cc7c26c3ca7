//! What clients see.
//!
//! The laws here state replies byte by byte and relate the replies of commands
//! that follow each other.

use vstd::prelude::*;
use vstd::string::*;
use vstd::utf8::{encode_utf8, is_ascii_chars, is_ascii_chars_encode_utf8};

use crate::clock::Clock;
use crate::decimal::{dec_int, dec_nat, lemma_dec_int_round_trip, text_to_i64, text_to_int};
use crate::network::execute::{
    append_effect, auth_effect, bg_rewrite_aof_effect, clamp_i64, db_size_effect, del_effect,
    executed, exists_effect, expire_effect, flush_db_effect, get_effect, incr_by_effect,
    m_get_effect, m_set_effect, memory_usage_effect, p_expire_at_effect,
    p_expire_effect, p_ttl_effect, persist_effect, ping_effect, set_key_effect, set_nx_effect,
    str_len_effect, ttl_effect, value_replies, value_reply,
};
use crate::protocol::frame::WireCommand;
use crate::storage::engine::laws::{
    law_append_keeps_ttl, law_del_many_removes, law_expire_then_ttl, law_incr_keeps_ttl,
    law_mset_all_or_nothing, law_set_succeeds, lemma_live_count, live_among,
};
use crate::storage::engine::model::{deadline_of, EngineView};

verus! {

/// A line of a reply: what marks its kind, a text and a line break.
pub open spec fn reply_line(mark: u8, text: Seq<u8>) -> Seq<u8> {
    seq![mark] + text + seq![13u8, 10u8]
}

/// `+OK`
pub open spec fn said_ok() -> Seq<u8> {
    seq![43u8, 79u8, 75u8, 13u8, 10u8]
}

/// `$-1`
pub open spec fn said_nothing() -> Seq<u8> {
    seq![36u8, 45u8, 49u8, 13u8, 10u8]
}

/// A number: `:` and its decimal digits.
pub open spec fn said_number(n: int) -> Seq<u8> {
    reply_line(58, dec_int(n))
}

/// A value: `$` and its length, and the value on a line of its own.
pub open spec fn said_value(v: Seq<u8>) -> Seq<u8> {
    reply_line(36, dec_nat(v.len())) + v + seq![13u8, 10u8]
}

/// An error: a line that `-` marks.
pub open spec fn said_error(r: Seq<u8>) -> bool {
    r.len() > 0 && r[0] == 45
}

/// The ASCII text of a literal, byte by byte.
pub proof fn lemma_ascii(text: Seq<char>)
    requires
        is_ascii_chars(text),
    ensures
        encode_utf8(text).len() == text.len(),
        forall|i: int| 0 <= i < text.len() ==> #[trigger] encode_utf8(text)[i] == text[i] as u8,
{
    is_ascii_chars_encode_utf8(text);
}

/// `+OK` and `+PONG`, byte by byte.
pub proof fn lemma_ok()
    ensures
        crate::network::execute::ok_reply() == said_ok(),
        crate::protocol::encoder::simple_string(encode_utf8("PONG"@)) == seq![
            43u8,
            80u8,
            79u8,
            78u8,
            71u8,
            13u8,
            10u8,
        ],
{
    reveal_strlit("OK");
    reveal_strlit("PONG");
    lemma_ascii("OK"@);
    lemma_ascii("PONG"@);
    assert(crate::network::execute::ok_reply() =~= said_ok());
    assert(crate::protocol::encoder::simple_string(encode_utf8("PONG"@)) =~= seq![
        43u8,
        80u8,
        79u8,
        78u8,
        71u8,
        13u8,
        10u8,
    ]);
}

/// The forms of the other replies.
pub proof fn lemma_forms(v: Seq<u8>, n: int)
    ensures
        crate::protocol::encoder::bulk_string(v) == said_value(v),
        crate::protocol::encoder::null_bulk() == said_nothing(),
        crate::protocol::encoder::integer(n) == said_number(n),
        said_number(n) != said_nothing(),
        said_number(n) != said_ok(),
        said_value(v) != said_ok(),
        !said_error(said_ok()),
        !said_error(said_number(n)),
        !said_error(said_value(v)),
        !said_error(said_nothing()),
{
    assert(crate::protocol::encoder::bulk_string(v) =~= said_value(v));
    assert(crate::protocol::encoder::integer(n) =~= said_number(n));
    assert(said_number(n)[0] == 58);
    assert(said_value(v)[0] == 36);
    assert(said_ok()[0] == 43);
    assert(said_nothing()[0] == 36);
}

proof fn lemma_numbers_differ(a: i64, b: i64)
    requires
        said_number(a as int) == said_number(b as int),
    ensures
        a == b,
{
    let x = said_number(a as int);
    let y = said_number(b as int);
    assert(x.subrange(1, x.len() - 2) =~= dec_int(a as int));
    assert(y.subrange(1, y.len() - 2) =~= dec_int(b as int));
    lemma_dec_int_round_trip(a);
    lemma_dec_int_round_trip(b);
}

/// `SET` then `GET`: a write that is answered with `+OK` is read back byte for byte,
/// at any later time, and the key has no deadline. Without a memory limit exactly
/// the keys of 1 to 65536 bytes with values of at most 16777216 bytes are accepted;
/// what is refused is answered with an error.
pub proof fn law_set_reply(s: EngineView, key: Seq<u8>, value: Seq<u8>, now: Clock, later: Clock)
    requires
        s.wf(),
    ensures
        ({
            let (r, t) = executed(s, WireCommand::SetKey { key, value }, now);
            &&& r == said_ok() || said_error(r)
            &&& r == said_ok() ==> executed(t, WireCommand::Get { key }, later).0 == said_value(
                value,
            ) && executed(t, WireCommand::Ttl { key }, later).0 == said_number(-1)
            &&& s.cfg.max_memory == 0 ==> (r == said_ok() <==> 1 <= key.len() <= 65_536
                && value.len() <= 16_777_216)
        }),
{
    reveal(set_key_effect);
    reveal(get_effect);
    reveal(ttl_effect);
    lemma_ok();
    lemma_forms(value, -1);
    if s.cfg.max_memory == 0 {
        law_set_succeeds(s, key, value, now);
    }
}

/// `GET` answers with the value of a live key and with nothing otherwise. A hit adds
/// one to the hits and a miss one to the misses, up to the counters' end.
pub proof fn law_get_reply(s: EngineView, key: Seq<u8>, now: Clock)
    ensures
        ({
            let (r, t) = executed(s, WireCommand::Get { key }, now);
            let found = s.store.contains_key(key) && match s.store[key].expire_at {
                Some(d) => d > now.mono_ns,
                None => true,
            };
            &&& found ==> r == said_value(s.store[key].data) && t.misses == s.misses && (s.hits
                < u64::MAX ==> t.hits == s.hits + 1)
            &&& !found ==> r == said_nothing() && t.hits == s.hits && (s.misses < u64::MAX
                ==> t.misses == s.misses + 1)
            &&& t.store.contains_key(key) <==> found
            &&& found ==> t.store[key].data == s.store[key].data && t.store[key].expire_at
                == s.store[key].expire_at && t.store[key].last_access == now.mono_ns
        }),
{
    reveal(get_effect);
    if s.live(key, now) {
        lemma_forms(s.store[key].data, 0);
    } else {
        lemma_forms(Seq::empty(), 0);
    }
}

/// `SETNX` answers `:1` where nothing live stood and the value is stored, `:0` where
/// something live stands, which then keeps its value.
pub proof fn law_setnx_reply(
    s: EngineView,
    key: Seq<u8>,
    value: Seq<u8>,
    now: Clock,
    later: Clock,
)
    ensures
        ({
            let (r, t) = executed(s, WireCommand::SetNx { key, value }, now);
            &&& r == said_number(1) || r == said_number(0) || said_error(r)
            &&& r == said_number(1) ==> !s.live(key, now) && executed(
                t,
                WireCommand::Get { key },
                later,
            ).0 == said_value(value)
            &&& r == said_number(0) ==> s.live(key, now) && t == s
        }),
{
    reveal(set_nx_effect);
    reveal(get_effect);
    lemma_forms(value, 1);
    lemma_forms(value, 0);
    if said_number(1) == said_number(0) {
        lemma_numbers_differ(1, 0);
    }
}

/// `APPEND` answers with the length of the value that the key then holds: the old
/// one, if there was a live one, followed by the suffix. `STRLEN` answers with the
/// same number, and the deadline stays.
pub proof fn law_append_reply(s: EngineView, key: Seq<u8>, suffix: Seq<u8>, now: Clock)
    ensures
        ({
            let (r, t) = executed(s, WireCommand::Append { key, value: suffix }, now);
            let old = if s.live(key, now) {
                s.store[key].data
            } else {
                Seq::empty()
            };
            said_error(r) || {
                &&& t.live(key, now)
                &&& t.store[key].data == old + suffix
                &&& r == said_number((old.len() + suffix.len()) as int)
                &&& executed(t, WireCommand::StrLen { key }, now).0 == r
                &&& executed(t, WireCommand::Get { key }, now).0 == said_value(old + suffix)
                &&& s.live(key, now) ==> t.store[key].expire_at == s.store[key].expire_at
            }
        }),
{
    reveal(append_effect);
    reveal(str_len_effect);
    reveal(get_effect);
    let (r, t) = s.append(key, suffix, now);
    if r is Ok {
        law_append_keeps_ttl(s, key, suffix, now);
        lemma_forms(t.store[key].data, r->Ok_0 as int);
    }
}

/// `STRLEN` answers with the length of what `GET` gives back, and with zero where
/// `GET` finds nothing.
pub proof fn law_strlen_reply(s: EngineView, key: Seq<u8>, now: Clock)
    ensures
        s.live(key, now) ==> executed(s, WireCommand::StrLen { key }, now).0 == said_number(
            s.store[key].data.len() as int,
        ),
        !s.live(key, now) ==> executed(s, WireCommand::StrLen { key }, now).0 == said_number(0),
{
    reveal(str_len_effect);
    lemma_forms(Seq::empty(), s.value_len(key, now) as int);
}

/// `PEXPIRE` with a positive number of milliseconds on a live key is answered with
/// `:1`; at once `PTTL` gives that number back, and when `passed` milliseconds have
/// gone by, that many less. The value stays.
pub proof fn law_pexpire_then_pttl(
    s: EngineView,
    key: Seq<u8>,
    millis: i64,
    passed: int,
    now: Clock,
    later: Clock,
)
    requires
        s.live(key, now),
        millis > 0,
        now.epoch_ms + millis <= i64::MAX,
        0 <= passed < millis,
        later.mono_ns == now.mono_ns + passed * 1_000_000,
    ensures
        ({
            let (r, t) = executed(s, WireCommand::PExpire { key, millis }, now);
            &&& r == said_number(1)
            &&& executed(t, WireCommand::PTtl { key }, now).0 == said_number(millis as int)
            &&& executed(t, WireCommand::PTtl { key }, later).0 == said_number(millis - passed)
            &&& executed(t, WireCommand::Get { key }, later).0 == said_value(s.store[key].data)
        }),
{
    reveal(p_expire_effect);
    reveal(p_ttl_effect);
    reveal(get_effect);
    let at = (now.epoch_ms + millis) as i64;
    assert(clamp_i64(now.epoch_ms + millis) == at);
    let t = s.expire_at(key, at, now).1;
    let d = deadline_of(at, now);
    assert(d == now.mono_ns + millis * 1_000_000);
    assert(((d - now.mono_ns) as u128) / 1_000_000 == millis);
    assert(((d - later.mono_ns) as u128) / 1_000_000 == millis - passed);
    lemma_forms(s.store[key].data, 1);
    lemma_forms(s.store[key].data, millis as int);
    lemma_forms(s.store[key].data, millis - passed);
}

/// `EXPIRE` counts in seconds: `TTL` gives the number back at once, and `PTTL` a
/// thousand times as much. When the time is up the key is gone.
pub proof fn law_expire_then_ttl_reply(
    s: EngineView,
    key: Seq<u8>,
    seconds: i64,
    now: Clock,
    later: Clock,
)
    requires
        s.live(key, now),
        seconds > 0,
        now.epoch_ms + seconds * 1000 <= i64::MAX,
        now.epoch_ms >= 0,
        later.mono_ns >= now.mono_ns + seconds * 1_000_000_000,
    ensures
        ({
            let (r, t) = executed(s, WireCommand::Expire { key, seconds }, now);
            &&& r == said_number(1)
            &&& executed(t, WireCommand::Ttl { key }, now).0 == said_number(seconds as int)
            &&& executed(t, WireCommand::PTtl { key }, now).0 == said_number(seconds * 1000)
            &&& executed(t, WireCommand::Get { key }, later).0 == said_nothing()
            &&& executed(t, WireCommand::Ttl { key }, later).0 == said_number(-2)
            &&& executed(t, WireCommand::PTtl { key }, later).0 == said_number(-2)
        }),
{
    reveal(expire_effect);
    reveal(ttl_effect);
    reveal(p_ttl_effect);
    reveal(get_effect);
    let millis = seconds * 1000;
    let at = (now.epoch_ms + millis) as i64;
    assert(clamp_i64(now.epoch_ms + millis) == at);
    let t = s.expire_at(key, at, now).1;
    let d = deadline_of(at, now);
    assert(d == now.mono_ns + millis * 1_000_000);
    assert(((d - now.mono_ns) as u128) / 1_000_000 == millis);
    assert((millis + 500) / 1000 == seconds);
    lemma_forms(Seq::empty(), 1);
    lemma_forms(Seq::empty(), -2);
    lemma_forms(Seq::empty(), millis);
    lemma_forms(Seq::empty(), seconds as int);
}

/// `PEXPIREAT` names the moment: `PTTL` gives the milliseconds until it. A moment
/// that has come removes the key at once. On a key that is not live all three answer
/// `:0` and set nothing.
pub proof fn law_pexpireat_reply(s: EngineView, key: Seq<u8>, at: i64, now: Clock)
    requires
        now.epoch_ms >= 0,
    ensures
        ({
            let (r, t) = executed(s, WireCommand::PExpireAt { key, abs_epoch_ms: at }, now);
            &&& s.live(key, now) ==> r == said_number(1)
            &&& s.live(key, now) && at > now.epoch_ms ==> executed(
                t,
                WireCommand::PTtl { key },
                now,
            ).0 == said_number(at - now.epoch_ms) && t.store[key].data == s.store[key].data
            &&& s.live(key, now) && at <= now.epoch_ms ==> executed(
                t,
                WireCommand::Get { key },
                now,
            ).0 == said_nothing()
            &&& !s.live(key, now) ==> r == said_number(0) && !t.store.contains_key(key)
        }),
        !s.live(key, now) ==> executed(s, WireCommand::PExpire { key, millis: at }, now).0
            == said_number(0) && executed(s, WireCommand::Expire { key, seconds: at }, now).0
            == said_number(0),
{
    reveal(p_expire_at_effect);
    reveal(p_expire_effect);
    reveal(expire_effect);
    reveal(p_ttl_effect);
    reveal(get_effect);
    lemma_forms(Seq::empty(), 1);
    lemma_forms(Seq::empty(), 0);
    lemma_forms(Seq::empty(), at - now.epoch_ms);
    if s.live(key, now) {
        law_expire_then_ttl(s, key, at, now);
    }
}

/// A lifetime of zero or less ends the key at once, in seconds and in milliseconds.
pub proof fn law_no_lifetime_ends_the_key(s: EngineView, key: Seq<u8>, n: i64, now: Clock)
    requires
        s.live(key, now),
        n <= 0,
    ensures
        executed(
            executed(s, WireCommand::PExpire { key, millis: n }, now).1,
            WireCommand::Get { key },
            now,
        ).0 == said_nothing(),
        executed(
            executed(s, WireCommand::Expire { key, seconds: n }, now).1,
            WireCommand::Get { key },
            now,
        ).0 == said_nothing(),
        executed(s, WireCommand::PExpire { key, millis: n }, now).0 == said_number(1),
        executed(s, WireCommand::Expire { key, seconds: n }, now).0 == said_number(1),
{
    reveal(p_expire_effect);
    reveal(expire_effect);
    reveal(get_effect);
    lemma_forms(Seq::empty(), 1);
}

/// `TTL` and `PTTL` answer `:-2` for a key that is not live and `:-1` for one without
/// a deadline. Otherwise `PTTL` gives the whole milliseconds that are left, and `TTL`
/// is no more than half a second away from it.
pub proof fn law_ttl_reply(s: EngineView, key: Seq<u8>, now: Clock)
    ensures
        !s.live(key, now) ==> executed(s, WireCommand::Ttl { key }, now).0 == said_number(-2)
            && executed(s, WireCommand::PTtl { key }, now).0 == said_number(-2),
        s.live(key, now) && s.store[key].expire_at is None ==> executed(
            s,
            WireCommand::Ttl { key },
            now,
        ).0 == said_number(-1) && executed(s, WireCommand::PTtl { key }, now).0 == said_number(-1),
        s.live(key, now) && s.store[key].expire_at is Some && (s.store[key].expire_at->0
            - now.mono_ns) / 1_000_000 <= i64::MAX ==> {
            let ms = (s.store[key].expire_at->0 - now.mono_ns) / 1_000_000;
            &&& executed(s, WireCommand::PTtl { key }, now).0 == said_number(ms)
            &&& exists|secs: int|
                executed(s, WireCommand::Ttl { key }, now).0 == #[trigger] said_number(secs)
                    && secs * 1000 - ms <= 500 && ms - secs * 1000 < 500
        },
{
    reveal(ttl_effect);
    reveal(p_ttl_effect);
    lemma_forms(Seq::empty(), -2);
    lemma_forms(Seq::empty(), -1);
    if s.live(key, now) && s.store[key].expire_at is Some {
        let d = s.store[key].expire_at->0;
        let ms = (d - now.mono_ns) / 1_000_000;
        if ms <= i64::MAX {
            assert(((d - now.mono_ns) as u128) / 1_000_000 == ms);
            let secs = (ms + 500) / 1000;
            lemma_forms(Seq::empty(), ms);
            lemma_forms(Seq::empty(), secs);
        }
    }
}

/// `PERSIST` answers `:1` for a live key with a deadline, which then has none and
/// keeps its value, and `:0` otherwise.
pub proof fn law_persist_reply(s: EngineView, key: Seq<u8>, now: Clock, later: Clock)
    ensures
        ({
            let (r, t) = executed(s, WireCommand::Persist { key }, now);
            let timed = s.live(key, now) && s.store[key].expire_at is Some;
            &&& timed ==> r == said_number(1) && executed(t, WireCommand::Ttl { key }, later).0
                == said_number(-1) && executed(t, WireCommand::Get { key }, later).0 == said_value(
                s.store[key].data,
            )
            &&& !timed ==> r == said_number(0)
        }),
{
    reveal(persist_effect);
    reveal(ttl_effect);
    reveal(get_effect);
    lemma_forms(s.store[key].data, 1);
    lemma_forms(s.store[key].data, 0);
    lemma_forms(s.store[key].data, -1);
}

/// `DBSIZE` answers with the number of live keys. `FLUSHDB` answers `+OK` and leaves
/// none.
pub proof fn law_dbsize_reply(s: EngineView, key: Seq<u8>, now: Clock, later: Clock)
    requires
        s.store.dom().finite(),
    ensures
        executed(s, WireCommand::DbSize, now) == (
            said_number(s.store.dom().filter(|k: Seq<u8>| s.live(k, now)).len() as int),
            s,
        ),
        executed(s, WireCommand::FlushDb, now).0 == said_ok(),
        executed(
            executed(s, WireCommand::FlushDb, now).1,
            WireCommand::Get { key },
            later,
        ).0 == said_nothing(),
        executed(executed(s, WireCommand::FlushDb, now).1, WireCommand::DbSize, later).0
            == said_number(0),
{
    reveal(db_size_effect);
    reveal(flush_db_effect);
    reveal(get_effect);
    lemma_ok();
    lemma_live_count(s, now);
    let t = s.cleared();
    lemma_live_count(t, later);
    assert(t.store.dom().filter(|k: Seq<u8>| t.live(k, later)) =~= Set::empty());
    lemma_forms(Seq::empty(), s.store.dom().filter(|k: Seq<u8>| s.live(k, now)).len() as int);
    lemma_forms(Seq::empty(), 0);
}

/// `DEL` answers with the number of different live keys among those named; none of
/// them is there afterwards, and every other key is.
pub proof fn law_del_reply(s: EngineView, keys: Seq<Seq<u8>>, key: Seq<u8>, now: Clock, later: Clock)
    requires
        s.wf(),
    ensures
        ({
            let (r, t) = executed(s, WireCommand::Del { keys }, now);
            &&& r == said_number(live_among(s, keys, now).len() as int)
            &&& keys.contains(key) ==> executed(t, WireCommand::Get { key }, later).0
                == said_nothing()
            &&& !keys.contains(key) ==> executed(t, WireCommand::Get { key }, later).0 == executed(
                s,
                WireCommand::Get { key },
                later,
            ).0
        }),
{
    reveal(del_effect);
    reveal(get_effect);
    law_del_many_removes(s, keys, now);
    let (n, t) = s.del_many(keys, now);
    assert(t.store.contains_key(key) <==> s.store.contains_key(key) && !keys.contains(key));
    lemma_forms(Seq::empty(), n as int);
}

/// `EXISTS` answers with how many of the named keys are live, one named twice being
/// counted twice.
pub proof fn law_exists_reply(s: EngineView, keys: Seq<Seq<u8>>, now: Clock)
    ensures
        executed(s, WireCommand::Exists { keys }, now).0 == said_number(
            keys.filter(|k: Seq<u8>| s.live(k, now)).len() as int,
        ),
{
    reveal(exists_effect);
    lemma_exists_counts(s, keys, now);
    lemma_forms(Seq::empty(), s.exists_many(keys, now).0 as int);
}

/// Testing for keys changes neither which keys are live nor their values.
proof fn lemma_exists_counts(s: EngineView, keys: Seq<Seq<u8>>, now: Clock)
    ensures
        s.exists_many(keys, now).0 == keys.filter(|k: Seq<u8>| s.live(k, now)).len(),
        forall|k: Seq<u8>| #[trigger] s.exists_many(keys, now).1.live(k, now) == s.live(k, now),
    decreases keys.len(),
{
    reveal(Seq::filter);
    if keys.len() > 0 {
        let front = keys.drop_last();
        lemma_exists_counts(s, front, now);
        let m = s.exists_many(front, now).1;
        assert(m.live(keys.last(), now) == s.live(keys.last(), now));
        assert forall|k: Seq<u8>| #[trigger] s.exists_many(keys, now).1.live(k, now) == s.live(
            k,
            now,
        ) by {
            assert(m.live(k, now) == s.live(k, now));
        }
    }
}

/// What `GET` would answer for each key, one after the other.
pub open spec fn each_answer(s: EngineView, keys: Seq<Seq<u8>>, now: Clock) -> Seq<u8>
    decreases keys.len(),
{
    if keys.len() == 0 {
        Seq::empty()
    } else {
        each_answer(s, keys.drop_last(), now) + executed(
            s,
            WireCommand::Get { key: keys.last() },
            now,
        ).0
    }
}

/// `MGET` answers with an array of what `GET` would answer for each key, in the order
/// in which the keys are named.
pub proof fn law_mget_reply(s: EngineView, keys: Seq<Seq<u8>>, now: Clock)
    ensures
        executed(s, WireCommand::MGet { keys }, now).0 == reply_line(42, dec_nat(keys.len()))
            + each_answer(s, keys, now),
{
    reveal(m_get_effect);
    lemma_mget_values(s, keys, now);
    assert(crate::protocol::encoder::array_header(keys.len()) =~= reply_line(
        42,
        dec_nat(keys.len()),
    ));
}

proof fn lemma_mget_values(s: EngineView, keys: Seq<Seq<u8>>, now: Clock)
    ensures
        s.mget(keys, now).0.len() == keys.len(),
        value_replies(s.mget(keys, now).0) == each_answer(s, keys, now),
        forall|k: Seq<u8>| #[trigger]
            s.mget(keys, now).1.live_value(k, now) == s.live_value(k, now),
    decreases keys.len(),
{
    reveal(get_effect);
    if keys.len() > 0 {
        let front = keys.drop_last();
        let last = keys.last();
        lemma_mget_values(s, front, now);
        let (vs, m) = s.mget(front, now);
        let (v, t) = m.fetched(last, now);
        assert(m.live_value(last, now) == s.live_value(last, now));
        assert(v == s.live_value(last, now));
        assert(vs.push(v).drop_last() =~= vs);
        assert(value_reply(v) == executed(s, WireCommand::Get { key: last }, now).0);
        assert forall|k: Seq<u8>| #[trigger] t.live_value(k, now) == s.live_value(k, now) by {
            assert(m.live_value(k, now) == s.live_value(k, now));
        }
    }
}

/// `MSET` that is answered with `+OK` stores each pair; where a key is named twice the
/// last value counts.
pub proof fn law_mset_reply(
    s: EngineView,
    pairs: Seq<(Seq<u8>, Seq<u8>)>,
    i: int,
    now: Clock,
    later: Clock,
)
    requires
        0 <= i < pairs.len(),
        forall|j: int| i < j < pairs.len() ==> (#[trigger] pairs[j]).0 != pairs[i].0,
    ensures
        ({
            let (r, t) = executed(s, WireCommand::MSet { pairs }, now);
            &&& r == said_ok() || said_error(r)
            &&& r == said_ok() ==> executed(t, WireCommand::Get { key: pairs[i].0 }, later).0
                == said_value(pairs[i].1)
        }),
{
    reveal(m_set_effect);
    reveal(get_effect);
    lemma_ok();
    lemma_forms(pairs[i].1, 0);
    law_mset_all_or_nothing(s, pairs, now, later);
    if s.mset(pairs, now).0 is Ok {
        assert(s.mset(pairs, now).1.fetched(pairs[i].0, later).0 == Some(pairs[i].1));
    }
}

/// `INCRBY` that is not refused answers with the number that the key then holds,
/// letter for letter as `GET` gives it: the old number, or zero for a key that is not
/// live, plus the increment. The deadline stays.
pub proof fn law_incr_reply(s: EngineView, key: Seq<u8>, delta: i64, now: Clock)
    ensures
        ({
            let (r, t) = executed(s, WireCommand::IncrBy { key, delta }, now);
            said_error(r) || {
                &&& t.live(key, now)
                &&& r == reply_line(58, t.store[key].data)
                &&& executed(t, WireCommand::Get { key }, now).0 == said_value(t.store[key].data)
                &&& text_to_int(t.store[key].data) == Some(
                    delta + if s.live(key, now) {
                        text_to_int(s.store[key].data)->0
                    } else {
                        0
                    },
                )
                &&& s.live(key, now) ==> t.store[key].expire_at == s.store[key].expire_at
            }
        }),
{
    reveal(incr_by_effect);
    reveal(get_effect);
    let (r, t) = s.incr_by(key, delta, now);
    if r is Ok {
        law_incr_keeps_ttl(s, key, delta, now);
        lemma_dec_int_round_trip(r->Ok_0);
        lemma_forms(t.store[key].data, r->Ok_0 as int);
    }
}

/// `INCRBY` on a value that is no 64-bit integer, or past the end of their range, is
/// answered with an error and changes nothing; without a memory limit nothing else
/// is refused to a key of 1 to 65536 bytes.
pub proof fn law_incr_refusal(s: EngineView, key: Seq<u8>, delta: i64, now: Clock)
    requires
        1 <= key.len() <= 65_536,
        s.live(key, now),
    ensures
        ({
            let (r, t) = executed(s, WireCommand::IncrBy { key, delta }, now);
            let fine = text_to_i64(s.store[key].data) matches Some(n)
                && -9_223_372_036_854_775_808 <= n + delta <= 9_223_372_036_854_775_807;
            &&& !fine ==> said_error(r) && t == s
            &&& fine && s.cfg.max_memory == 0 ==> !said_error(r)
        }),
{
    reveal(incr_by_effect);
    lemma_forms(Seq::empty(), s.incr_by(key, delta, now).0->Ok_0 as int);
}

/// `PING` answers `+PONG`, or with the message that it was given, and `MEMORY USAGE`
/// with the bytes of key and value and 48 more for the entry, or with nothing for a
/// key that is not live.
pub proof fn law_ping_and_memory_reply(
    s: EngineView,
    msg: Seq<u8>,
    key: Seq<u8>,
    now: Clock,
)
    ensures
        executed(s, WireCommand::Ping { msg: None }, now) == (
            seq![43u8, 80u8, 79u8, 78u8, 71u8, 13u8, 10u8],
            s,
        ),
        executed(s, WireCommand::Ping { msg: Some(msg) }, now) == (said_value(msg), s),
        s.live(key, now) ==> executed(s, WireCommand::MemoryUsage { key }, now) == (
            said_number(key.len() + s.store[key].data.len() + 48int),
            s,
        ),
        !s.live(key, now) ==> executed(s, WireCommand::MemoryUsage { key }, now).0
            == said_nothing(),
{
    reveal(ping_effect);
    reveal(memory_usage_effect);
    lemma_ok();
    lemma_forms(msg, key.len() + s.store[key].data.len() + 48int);
}

/// `AUTH` answers `+OK` exactly for the password that is asked for, and with an error
/// for any other, and where none is asked for. `BGREWRITEAOF` answers `+OK` exactly
/// where there is a log.
pub proof fn law_auth_reply(s: EngineView, password: Seq<u8>, now: Clock)
    ensures
        ({
            let (r, t) = executed(s, WireCommand::Auth { password }, now);
            &&& t == s
            &&& r == said_ok() <==> s.password == Some(password)
            &&& r == said_ok() || said_error(r)
        }),
        ({
            let (r, t) = executed(s, WireCommand::BgRewriteAof, now);
            &&& t == s
            &&& r == said_ok() <==> s.log is Some
            &&& r == said_ok() || said_error(r)
        }),
{
    reveal(auth_effect);
    reveal(bg_rewrite_aof_effect);
    lemma_ok();
    lemma_forms(Seq::empty(), 0);
}

/// What asks about a key without reading it counts neither as a hit nor as a miss, and is
/// no access.
pub proof fn law_asking_is_not_reading(s: EngineView, key: Seq<u8>, now: Clock, c: WireCommand)
    requires
        ({
            ||| c == WireCommand::Ttl { key }
            ||| c == WireCommand::PTtl { key }
            ||| c == WireCommand::StrLen { key }
            ||| c == WireCommand::MemoryUsage { key }
            ||| c == WireCommand::Persist { key }
            ||| c is DbSize
        }),
    ensures
        ({
            let t = executed(s, c, now).1;
            &&& t.hits == s.hits
            &&& t.misses == s.misses
            &&& s.live(key, now) ==> t.store[key].last_access == s.store[key].last_access
                && t.store[key].lfu_counter == s.store[key].lfu_counter && t.store[key].data
                == s.store[key].data
        }),
{
    reveal(ttl_effect);
    reveal(p_ttl_effect);
    reveal(str_len_effect);
    reveal(memory_usage_effect);
    reveal(persist_effect);
    reveal(db_size_effect);
}

/// A lifetime that would end behind the last moment that can be told ends at that moment.
pub proof fn law_far_deadline(s: EngineView, key: Seq<u8>, n: i64, now: Clock)
    requires
        s.live(key, now),
        now.epoch_ms >= 0,
        now.epoch_ms < i64::MAX,
    ensures
        now.epoch_ms + n > i64::MAX ==> {
            let (r, t) = executed(s, WireCommand::PExpire { key, millis: n }, now);
            r == said_number(1) && executed(t, WireCommand::PTtl { key }, now).0 == said_number(
                i64::MAX - now.epoch_ms,
            )
        },
        now.epoch_ms + n * 1000 > i64::MAX ==> {
            let (r, t) = executed(s, WireCommand::Expire { key, seconds: n }, now);
            r == said_number(1) && executed(t, WireCommand::PTtl { key }, now).0 == said_number(
                i64::MAX - now.epoch_ms,
            )
        },
{
    reveal(p_expire_effect);
    reveal(expire_effect);
    reveal(p_ttl_effect);
    law_expire_then_ttl(s, key, i64::MAX, now);
    lemma_forms(Seq::empty(), 1);
    lemma_forms(Seq::empty(), i64::MAX - now.epoch_ms);
}

} // verus!
