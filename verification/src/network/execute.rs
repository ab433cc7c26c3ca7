//! Executing commands and encoding their replies.

use vstd::prelude::*;
use vstd::string::*;
use vstd::utf8::{decode_utf8, encode_utf8, valid_utf8};

use crate::bytes::{copied, push_all, to_upper, upper_bytes};
use crate::clock::Clock;
use crate::config::file::{byte_size, parse_bytes, ByteSize};
use crate::decimal::{
    dec_int, dec_nat, parse_bounded, parse_i64, push_i64, push_u64, text_to_bounded, text_to_i64,
};
use crate::error::{ErrorView, FerrumError};
use crate::persistence::resp::vec_views;
use crate::protocol::encoder::{
    array_header, bulk_string, crlf, encode_array_header, encode_bulk_string, encode_integer,
    encode_null_bulk, encode_simple_string, integer, null_bulk, push_crlf, simple_string,
};
use crate::protocol::frame::{word, Command, WireCommand};
use crate::storage::engine::glob::{glob, glob_match};
use crate::storage::engine::model::{total_cost, EngineView, TtlStatus};
use crate::storage::engine::operations::pair_views;
use crate::storage::engine::slowlog::{SlowEntryView, SlowLogEntry, SlowLogView};
use crate::storage::engine::{bytes_view, KvEngine};
use crate::storage::eviction::{EvictionConfig, EvictionPolicy};
use crate::storage::keyspace::sorted_keys;
use crate::text::{bytes_of, chars_of, lower_of, text_of, to_lower, utf8_text};

verus! {

/// A byte of an error line: line breaks become spaces.
pub open spec fn one_line_byte(b: u8) -> u8 {
    if b == 13 || b == 10 {
        32
    } else {
        b
    }
}

/// The bytes with every line break turned into a space.
pub open spec fn one_line(s: Seq<u8>) -> Seq<u8> {
    s.map_values(|b: u8| one_line_byte(b))
}

/// An error line made of raw text.
pub open spec fn raw_error(message: Seq<u8>) -> Seq<u8> {
    seq![45u8] + one_line(message) + crlf()
}

/// The reply for an error: `-OOM ...` when memory ran out, `-ERR ...` otherwise.
pub open spec fn error_reply(e: ErrorView) -> Seq<u8> {
    raw_error(
        encode_utf8(
            if e == ErrorView::OutOfMemory {
                "OOM "@
            } else {
                "ERR "@
            },
        ) + encode_utf8(e.message()),
    )
}

/// The reply `+OK`.
pub open spec fn ok_reply() -> Seq<u8> {
    simple_string(encode_utf8("OK"@))
}

/// The reply for a truth value: `:1` or `:0`.
pub open spec fn flag_reply(yes: bool) -> Seq<u8> {
    integer(
        if yes {
            1
        } else {
            0
        },
    )
}

/// The reply for an optional value.
pub open spec fn value_reply(v: Option<Seq<u8>>) -> Seq<u8> {
    match v {
        Some(b) => bulk_string(b),
        None => null_bulk(),
    }
}

/// The replies for several optional values, one after the other.
pub open spec fn value_replies(vs: Seq<Option<Seq<u8>>>) -> Seq<u8>
    decreases vs.len(),
{
    if vs.len() == 0 {
        Seq::empty()
    } else {
        value_replies(vs.drop_last()) + value_reply(vs.last())
    }
}

/// Milliseconds as seconds, rounded to the nearest.
pub open spec fn whole_seconds(ms: i64) -> int {
    (ms + 500) / 1000
}

/// The reply of `TTL` and `PTTL`.
pub open spec fn ttl_reply(t: TtlStatus, in_seconds: bool) -> Seq<u8> {
    match t {
        TtlStatus::Missing => integer(-2),
        TtlStatus::NoExpire => integer(-1),
        TtlStatus::Millis(ms) => integer(
            if in_seconds {
                whole_seconds(ms)
            } else {
                ms as int
            },
        ),
    }
}

/// `n` kept within 64 bits.
pub open spec fn clamp_i64(n: int) -> i64 {
    if n > i64::MAX {
        i64::MAX
    } else if n < i64::MIN {
        i64::MIN
    } else {
        n as i64
    }
}

/// The names of the runtime parameters, in the order of a listing.
pub open spec fn parameter_name(i: int) -> Seq<char> {
    if i == 0 {
        "maxmemory"@
    } else if i == 1 {
        "maxmemory-policy"@
    } else if i == 2 {
        "maxmemory-samples"@
    } else if i == 3 {
        "requirepass"@
    } else if i == 4 {
        "slowlog-log-slower-than"@
    } else {
        "slowlog-max-len"@
    }
}

/// The value of a runtime parameter.
pub open spec fn parameter_value(s: EngineView, i: int) -> Seq<u8> {
    if i == 0 {
        dec_nat(s.cfg.max_memory as nat)
    } else if i == 1 {
        encode_utf8(s.cfg.policy.wire_name())
    } else if i == 2 {
        dec_nat(s.cfg.samples as nat)
    } else if i == 3 {
        match s.password {
            Some(pw) => pw,
            None => Seq::empty(),
        }
    } else if i == 4 {
        dec_int(s.slow.threshold_us as int)
    } else {
        dec_nat(s.slow.max_len as nat)
    }
}

/// The parameters below index `n` whose names match a pattern: how many, and
/// their names and values as bulk strings.
pub open spec fn matching_parameters(s: EngineView, pattern: Seq<u8>, n: nat) -> (nat, Seq<u8>)
    decreases n,
{
    if n == 0 {
        (0, Seq::empty())
    } else {
        let (count, body) = matching_parameters(s, pattern, (n - 1) as nat);
        let name = encode_utf8(parameter_name(n - 1));
        if glob(pattern, name) {
            (count + 1, body + bulk_string(name) + bulk_string(parameter_value(s, n - 1)))
        } else {
            (count, body)
        }
    }
}

/// The reply of `CONFIG GET`.
pub open spec fn config_get_reply(s: EngineView, pattern: Seq<u8>) -> Seq<u8> {
    let (count, body) = matching_parameters(s, pattern, 6);
    array_header(2 * count) + body
}

/// The policy that a value of `maxmemory-policy` names.
pub open spec fn policy_of(value: Seq<u8>) -> Option<EvictionPolicy> {
    if valid_utf8(value) && EvictionPolicy::is_name(lower_of(decode_utf8(value))) {
        Some(
            choose|p: EvictionPolicy| #[trigger]
                p.wire_name() == lower_of(decode_utf8(value)),
        )
    } else {
        None
    }
}

/// The number of bytes that a value of `maxmemory` denotes.
pub open spec fn memory_of_text(value: Seq<u8>) -> Option<u64> {
    if valid_utf8(value) {
        match byte_size(decode_utf8(value)) {
            ByteSize::Bytes(n) => Some(n),
            _ => None,
        }
    } else {
        None
    }
}

/// The message for a parameter value that is refused.
pub open spec fn invalid_argument(parameter: Seq<u8>, value: Seq<u8>) -> Seq<u8> {
    encode_utf8("ERR Invalid argument '"@) + value + encode_utf8("' for CONFIG SET '"@)
        + parameter + encode_utf8("'"@)
}

/// `CONFIG SET`: the state after it, or the message of its error.
pub open spec fn config_set(s: EngineView, parameter: Seq<u8>, value: Seq<u8>) -> Result<
    EngineView,
    Seq<u8>,
> {
    let name = upper_bytes(parameter);
    if name == word("MAXMEMORY"@) {
        match memory_of_text(value) {
            Some(n) => Ok(s.configured(EvictionConfig { max_memory: n, ..s.cfg })),
            None => Err(invalid_argument(parameter, value)),
        }
    } else if name == word("MAXMEMORY-POLICY"@) {
        match policy_of(value) {
            Some(policy) => Ok(s.configured(EvictionConfig { policy, ..s.cfg })),
            None => Err(invalid_argument(parameter, value)),
        }
    } else if name == word("MAXMEMORY-SAMPLES"@) {
        match text_to_bounded(value, usize::MAX as u64) {
            Some(n) => Ok(s.configured(EvictionConfig { samples: n as usize, ..s.cfg })),
            None => Err(invalid_argument(parameter, value)),
        }
    } else if name == word("REQUIREPASS"@) {
        Ok(
            EngineView {
                password: if value.len() == 0 {
                    None
                } else {
                    Some(value)
                },
                ..s
            },
        )
    } else if name == word("SLOWLOG-LOG-SLOWER-THAN"@) {
        match text_to_i64(value) {
            Some(us) => Ok(
                EngineView { slow: SlowLogView { threshold_us: us, ..s.slow }, ..s },
            ),
            None => Err(invalid_argument(parameter, value)),
        }
    } else if name == word("SLOWLOG-MAX-LEN"@) {
        match text_to_bounded(value, u64::MAX) {
            Some(n) if n >= 1 => Ok(
                EngineView { slow: SlowLogView { max_len: n, ..s.slow }, ..s },
            ),
            _ => Err(invalid_argument(parameter, value)),
        }
    } else {
        Err(encode_utf8("ERR Unknown parameter '"@) + parameter + encode_utf8("'"@))
    }
}

/// The bulk strings of a command's parts.
pub open spec fn arg_bulks(args: Seq<Seq<u8>>) -> Seq<u8>
    decreases args.len(),
{
    if args.len() == 0 {
        Seq::empty()
    } else {
        arg_bulks(args.drop_last()) + bulk_string(args.last())
    }
}

/// One entry of the slow log: id, second, duration, command, client address and
/// an empty client name.
pub open spec fn slow_entry_reply(e: SlowEntryView) -> Seq<u8> {
    array_header(6) + integer(e.id as int) + integer(e.ts_secs as int) + integer(
        e.duration_us as int,
    ) + array_header(e.args.len()) + arg_bulks(e.args) + bulk_string(encode_utf8(e.peer))
        + bulk_string(Seq::empty())
}

/// The newest `n` entries of a ring, newest first.
pub open spec fn slow_replies(ring: Seq<SlowEntryView>, n: nat) -> Seq<u8>
    decreases n,
{
    if n == 0 {
        Seq::empty()
    } else {
        slow_replies(ring, (n - 1) as nat) + slow_entry_reply(ring[ring.len() - n])
    }
}

/// The reply of `SLOWLOG GET`.
pub open spec fn slowlog_get_reply(ring: Seq<SlowEntryView>, count: Option<usize>) -> Seq<u8> {
    let n: nat = match count {
        Some(c) if c < ring.len() => c as nat,
        _ => ring.len(),
    };
    array_header(n) + slow_replies(ring, n)
}

/// `name:value` and a line break.
pub open spec fn info_line(name: Seq<char>, value: Seq<u8>) -> Seq<u8> {
    encode_utf8(name) + seq![58u8] + value + crlf()
}

/// Three decimal places of a number in thousandths.
pub open spec fn milli_text(milli: u16) -> Seq<u8> {
    dec_nat((milli / 1000) as nat) + seq![
        46u8,
        (48 + (milli / 100) % 10) as u8,
        (48 + (milli / 10) % 10) as u8,
        (48 + milli % 10) as u8,
    ]
}

/// The memory charge as it is reported.
pub open spec fn reported_memory(s: EngineView) -> nat {
    if total_cost(s.store) <= u64::MAX {
        total_cost(s.store) as nat
    } else {
        u64::MAX as nat
    }
}

/// The memory section of `INFO`.
pub open spec fn info_memory(s: EngineView) -> Seq<u8> {
    encode_utf8("# Memory"@) + crlf() + info_line("used_memory"@, dec_nat(reported_memory(s)))
        + info_line("maxmemory"@, dec_nat(s.cfg.max_memory as nat)) + info_line(
        "maxmemory_policy"@,
        encode_utf8(s.cfg.policy.wire_name()),
    ) + info_line("maxmemory_samples"@, dec_nat(s.cfg.samples as nat)) + info_line(
        "ahe_alpha"@,
        milli_text(s.alpha_milli),
    )
}

/// The statistics section of `INFO`.
pub open spec fn info_stats(s: EngineView) -> Seq<u8> {
    encode_utf8("# Stats"@) + crlf() + info_line("keyspace_hits"@, dec_nat(s.hits as nat))
        + info_line("keyspace_misses"@, dec_nat(s.misses as nat))
}

/// The keyspace section of `INFO`.
pub open spec fn info_keyspace(s: EngineView, now: Clock) -> Seq<u8> {
    encode_utf8("# Keyspace"@) + crlf() + info_line(
        "keys"@,
        dec_nat(s.live_keys(sorted_keys(s.store), now).len()),
    ) + info_line("expires"@, dec_nat(s.timed_keys(now).len())) + info_line(
        "avg_ttl"@,
        dec_nat(s.mean_ttl(now)),
    )
}

/// The text of `INFO`: one section by name, or all of them.
pub open spec fn info_text(s: EngineView, section: Option<Seq<u8>>, now: Clock) -> Seq<u8> {
    match section {
        Some(name) => if upper_bytes(name) == word("MEMORY"@) {
            info_memory(s)
        } else if upper_bytes(name) == word("STATS"@) {
            info_stats(s)
        } else if upper_bytes(name) == word("KEYSPACE"@) {
            info_keyspace(s, now)
        } else {
            Seq::empty()
        },
        None => info_memory(s) + info_stats(s) + info_keyspace(s, now),
    }
}

/// The reply to a password.
pub open spec fn auth_reply(s: EngineView, password: Seq<u8>) -> Seq<u8> {
    match s.authenticated(password) {
        Ok(true) => ok_reply(),
        Ok(false) => raw_error(
            encode_utf8("WRONGPASS invalid username-password pair or user is disabled."@),
        ),
        Err(e) => error_reply(e),
    }
}

/// `SET`: its reply and its effect.
#[verifier::opaque]
pub open spec fn set_key_effect(
    s: EngineView,
    key: Seq<u8>,
    value: Seq<u8>,
    now: Clock,
) -> (Seq<u8>, EngineView) {
    let (r, t) = s.set(key, value, now);
    (
        match r {
            Ok(_) => ok_reply(),
            Err(e) => error_reply(e),
        },
        t,
    )
}

/// `SETNX`: its reply and its effect.
#[verifier::opaque]
pub open spec fn set_nx_effect(
    s: EngineView,
    key: Seq<u8>,
    value: Seq<u8>,
    now: Clock,
) -> (Seq<u8>, EngineView) {
    let (r, t) = s.set_nx(key, value, now);
    (
        match r {
            Ok(yes) => flag_reply(yes),
            Err(e) => error_reply(e),
        },
        t,
    )
}

/// `GET`: its reply and its effect.
#[verifier::opaque]
pub open spec fn get_effect(s: EngineView, key: Seq<u8>, now: Clock) -> (Seq<u8>, EngineView) {
    let (v, t) = s.fetched(key, now);
    (value_reply(v), t)
}

/// `APPEND`: its reply and its effect.
#[verifier::opaque]
pub open spec fn append_effect(
    s: EngineView,
    key: Seq<u8>,
    value: Seq<u8>,
    now: Clock,
) -> (Seq<u8>, EngineView) {
    let (r, t) = s.append(key, value, now);
    (
        match r {
            Ok(n) => integer(n as int),
            Err(e) => error_reply(e),
        },
        t,
    )
}

/// `STRLEN`: its reply and its effect.
#[verifier::opaque]
pub open spec fn str_len_effect(s: EngineView, key: Seq<u8>, now: Clock) -> (Seq<u8>, EngineView) {
    (
        integer(s.value_len(key, now) as int),
        s.purged(key, now),
    )
}

/// `PEXPIREAT`: its reply and its effect.
#[verifier::opaque]
pub open spec fn p_expire_at_effect(
    s: EngineView,
    key: Seq<u8>,
    abs_epoch_ms: i64,
    now: Clock,
) -> (Seq<u8>, EngineView) {
    let (done, t) = s.expire_at(key, abs_epoch_ms, now);
    (flag_reply(done), t)
}

/// `PEXPIRE`: its reply and its effect.
#[verifier::opaque]
pub open spec fn p_expire_effect(
    s: EngineView,
    key: Seq<u8>,
    millis: i64,
    now: Clock,
) -> (Seq<u8>, EngineView) {
    let (done, t) = s.expire_at(key, clamp_i64(now.epoch_ms + millis), now);
    (flag_reply(done), t)
}

/// `EXPIRE`: its reply and its effect.
#[verifier::opaque]
pub open spec fn expire_effect(
    s: EngineView,
    key: Seq<u8>,
    seconds: i64,
    now: Clock,
) -> (Seq<u8>, EngineView) {
    let (done, t) = s.expire_at(key, clamp_i64(now.epoch_ms + seconds * 1000), now);
    (flag_reply(done), t)
}

/// `PERSIST`: its reply and its effect.
#[verifier::opaque]
pub open spec fn persist_effect(s: EngineView, key: Seq<u8>, now: Clock) -> (Seq<u8>, EngineView) {
    let (done, t) = s.persist(key, now);
    (flag_reply(done), t)
}

/// `TTL`: its reply and its effect.
#[verifier::opaque]
pub open spec fn ttl_effect(s: EngineView, key: Seq<u8>, now: Clock) -> (Seq<u8>, EngineView) {
    (ttl_reply(s.ttl(key, now), true), s.purged(key, now))
}

/// `PTTL`: its reply and its effect.
#[verifier::opaque]
pub open spec fn p_ttl_effect(s: EngineView, key: Seq<u8>, now: Clock) -> (Seq<u8>, EngineView) {
    (ttl_reply(s.ttl(key, now), false), s.purged(key, now))
}

/// `DBSIZE`: its reply and its effect.
#[verifier::opaque]
pub open spec fn db_size_effect(s: EngineView, now: Clock) -> (Seq<u8>, EngineView) {
    (
        integer(s.live_keys(sorted_keys(s.store), now).len() as int),
        s,
    )
}

/// `FLUSHDB`: its reply and its effect.
#[verifier::opaque]
pub open spec fn flush_db_effect(s: EngineView, now: Clock) -> (Seq<u8>, EngineView) {
    (ok_reply(), s.cleared())
}

/// `BGREWRITEAOF`: its reply and its effect.
#[verifier::opaque]
pub open spec fn bg_rewrite_aof_effect(s: EngineView, now: Clock) -> (Seq<u8>, EngineView) {
    (
        match s.log {
            Some(_) => ok_reply(),
            None => error_reply(ErrorView::AofNotEnabled),
        },
        s,
    )
}

/// `AUTH`: its reply and its effect.
#[verifier::opaque]
pub open spec fn auth_effect(
    s: EngineView,
    password: Seq<u8>,
    now: Clock,
) -> (Seq<u8>, EngineView) {
    (auth_reply(s, password), s)
}

/// `DEL`: its reply and its effect.
#[verifier::opaque]
pub open spec fn del_effect(
    s: EngineView,
    keys: Seq<Seq<u8>>,
    now: Clock,
) -> (Seq<u8>, EngineView) {
    let (n, t) = s.del_many(keys, now);
    (integer(n as int), t)
}

/// `EXISTS`: its reply and its effect.
#[verifier::opaque]
pub open spec fn exists_effect(
    s: EngineView,
    keys: Seq<Seq<u8>>,
    now: Clock,
) -> (Seq<u8>, EngineView) {
    let (n, t) = s.exists_many(keys, now);
    (integer(n as int), t)
}

/// `MGET`: its reply and its effect.
#[verifier::opaque]
pub open spec fn m_get_effect(
    s: EngineView,
    keys: Seq<Seq<u8>>,
    now: Clock,
) -> (Seq<u8>, EngineView) {
    let (vs, t) = s.mget(keys, now);
    (array_header(vs.len()) + value_replies(vs), t)
}

/// `MSET`: its reply and its effect.
#[verifier::opaque]
pub open spec fn m_set_effect(
    s: EngineView,
    pairs: Seq<(Seq<u8>, Seq<u8>)>,
    now: Clock,
) -> (Seq<u8>, EngineView) {
    let (r, t) = s.mset(pairs, now);
    (
        match r {
            Ok(_) => ok_reply(),
            Err(e) => error_reply(e),
        },
        t,
    )
}

/// `INCRBY`: its reply and its effect.
#[verifier::opaque]
pub open spec fn incr_by_effect(
    s: EngineView,
    key: Seq<u8>,
    delta: i64,
    now: Clock,
) -> (Seq<u8>, EngineView) {
    let (r, t) = s.incr_by(key, delta, now);
    (
        match r {
            Ok(n) => integer(n as int),
            Err(e) => error_reply(e),
        },
        t,
    )
}

/// `PING`: its reply and its effect.
#[verifier::opaque]
pub open spec fn ping_effect(
    s: EngineView,
    msg: Option<Seq<u8>>,
    now: Clock,
) -> (Seq<u8>, EngineView) {
    (
        match msg {
            Some(m) => bulk_string(m),
            None => simple_string(encode_utf8("PONG"@)),
        },
        s,
    )
}

/// `MEMORY USAGE`: its reply and its effect.
#[verifier::opaque]
pub open spec fn memory_usage_effect(
    s: EngineView,
    key: Seq<u8>,
    now: Clock,
) -> (Seq<u8>, EngineView) {
    let (cost, t) = s.measured(key, now);
    (
        match cost {
            Some(n) => integer(n),
            None => null_bulk(),
        },
        t,
    )
}

/// `CONFIG GET`: its reply and its effect.
#[verifier::opaque]
pub open spec fn config_get_effect(
    s: EngineView,
    pattern: Seq<u8>,
    now: Clock,
) -> (Seq<u8>, EngineView) {
    (config_get_reply(s, pattern), s)
}

/// `CONFIG SET`: its reply and its effect.
#[verifier::opaque]
pub open spec fn config_set_effect(
    s: EngineView,
    parameter: Seq<u8>,
    value: Seq<u8>,
    now: Clock,
) -> (Seq<u8>, EngineView) {
    match config_set(s, parameter, value) {
        Ok(t) => (ok_reply(), t),
        Err(message) => (raw_error(message), s),
    }
}

/// `SLOWLOG GET`: its reply and its effect.
#[verifier::opaque]
pub open spec fn slow_log_get_effect(
    s: EngineView,
    count: Option<usize>,
    now: Clock,
) -> (Seq<u8>, EngineView) {
    (slowlog_get_reply(s.slow.ring, count), s)
}

/// `SLOWLOG LEN`: its reply and its effect.
#[verifier::opaque]
pub open spec fn slow_log_len_effect(s: EngineView, now: Clock) -> (Seq<u8>, EngineView) {
    (integer(s.slow.ring.len() as int), s)
}

/// `SLOWLOG RESET`: its reply and its effect.
#[verifier::opaque]
pub open spec fn slow_log_reset_effect(s: EngineView, now: Clock) -> (Seq<u8>, EngineView) {
    (
        ok_reply(),
        EngineView { slow: SlowLogView { ring: Seq::empty(), ..s.slow }, ..s },
    )
}

/// `INFO`: its reply and its effect.
#[verifier::opaque]
pub open spec fn info_effect(
    s: EngineView,
    section: Option<Seq<u8>>,
    now: Clock,
) -> (Seq<u8>, EngineView) {
    (bulk_string(info_text(s, section, now)), s)
}

/// A command's reply and its effect on the engine.
pub open spec fn executed(s: EngineView, c: WireCommand, now: Clock) -> (Seq<u8>, EngineView) {
    match c {
        WireCommand::SetKey { key, value } => set_key_effect(s, key, value, now),
        WireCommand::SetNx { key, value } => set_nx_effect(s, key, value, now),
        WireCommand::Get { key } => get_effect(s, key, now),
        WireCommand::Append { key, value } => append_effect(s, key, value, now),
        WireCommand::StrLen { key } => str_len_effect(s, key, now),
        WireCommand::PExpireAt { key, abs_epoch_ms } => p_expire_at_effect(
            s,
            key,
            abs_epoch_ms,
            now,
        ),
        WireCommand::PExpire { key, millis } => p_expire_effect(s, key, millis, now),
        WireCommand::Expire { key, seconds } => expire_effect(s, key, seconds, now),
        WireCommand::Persist { key } => persist_effect(s, key, now),
        WireCommand::Ttl { key } => ttl_effect(s, key, now),
        WireCommand::PTtl { key } => p_ttl_effect(s, key, now),
        WireCommand::DbSize => db_size_effect(s, now),
        WireCommand::FlushDb => flush_db_effect(s, now),
        WireCommand::BgRewriteAof => bg_rewrite_aof_effect(s, now),
        WireCommand::Auth { password } => auth_effect(s, password, now),
        WireCommand::Del { keys } => del_effect(s, keys, now),
        WireCommand::Exists { keys } => exists_effect(s, keys, now),
        WireCommand::MGet { keys } => m_get_effect(s, keys, now),
        WireCommand::MSet { pairs } => m_set_effect(s, pairs, now),
        WireCommand::IncrBy { key, delta } => incr_by_effect(s, key, delta, now),
        WireCommand::Ping { msg } => ping_effect(s, msg, now),
        WireCommand::MemoryUsage { key } => memory_usage_effect(s, key, now),
        WireCommand::ConfigGet { pattern } => config_get_effect(s, pattern, now),
        WireCommand::ConfigSet { parameter, value } => config_set_effect(s, parameter, value, now),
        WireCommand::SlowLogGet { count } => slow_log_get_effect(s, count, now),
        WireCommand::SlowLogLen => slow_log_len_effect(s, now),
        WireCommand::SlowLogReset => slow_log_reset_effect(s, now),
        WireCommand::Info { section } => info_effect(s, section, now),
    }
}

/// Appends a text.
fn push_text(out: &mut Vec<u8>, text: &str)
    ensures
        final(out)@ == old(out)@ + encode_utf8(text@),
{
    push_all(out, text.as_bytes());
}

/// Appends an error line; line breaks in the message become spaces.
pub fn push_raw_error(out: &mut Vec<u8>, message: &[u8])
    ensures
        final(out)@ == old(out)@ + raw_error(message@),
{
    out.push(45);
    let mut i: usize = 0;
    assert(out@ =~= old(out)@ + seq![45u8] + one_line(message@.take(0)));
    while i < message.len()
        invariant
            i <= message.len(),
            out@ == old(out)@ + seq![45u8] + one_line(message@.take(i as int)),
        decreases message.len() - i,
    {
        let b: u8 = message[i];
        out.push(
            if b == 13 || b == 10 {
                32
            } else {
                b
            },
        );
        assert(message@.take(i as int + 1) =~= message@.take(i as int).push(b));
        assert(out@ =~= old(out)@ + seq![45u8] + one_line(message@.take(i as int + 1)));
        i += 1;
    }
    assert(message@.take(i as int) =~= message@);
    push_crlf(out);
    assert(out@ =~= old(out)@ + raw_error(message@));
}

/// Appends the reply for an error.
pub fn write_ferrum_error(out: &mut Vec<u8>, err: &FerrumError)
    ensures
        final(out)@ == old(out)@ + error_reply(err@),
{
    let mut message: Vec<u8> = match err {
        FerrumError::OutOfMemory => bytes_of("OOM "),
        _ => bytes_of("ERR "),
    };
    let text: String = err.to_string();
    push_text(&mut message, text.as_str());
    push_raw_error(out, message.as_slice());
}

proof fn lemma_single_lines()
    ensures
        crate::protocol::encoder::single_line(encode_utf8("OK"@)),
        crate::protocol::encoder::single_line(encode_utf8("PONG"@)),
{
    reveal_strlit("OK");
    reveal_strlit("PONG");
    vstd::utf8::is_ascii_chars_encode_utf8("OK"@);
    vstd::utf8::is_ascii_chars_encode_utf8("PONG"@);
}

fn push_ok(out: &mut Vec<u8>)
    ensures
        final(out)@ == old(out)@ + ok_reply(),
{
    proof {
        lemma_single_lines();
    }
    encode_simple_string(out, "OK");
}

fn push_flag(out: &mut Vec<u8>, yes: bool)
    ensures
        final(out)@ == old(out)@ + flag_reply(yes),
{
    encode_integer(
        out,
        if yes {
            1
        } else {
            0
        },
    );
}

/// Appends an integer reply for a count.
fn push_count(out: &mut Vec<u8>, n: u64)
    ensures
        final(out)@ == old(out)@ + integer(n as int),
{
    out.push(58);
    push_u64(out, n);
    push_crlf(out);
    assert(out@ =~= old(out)@ + integer(n as int));
}

fn push_value(out: &mut Vec<u8>, v: &Option<Vec<u8>>)
    ensures
        final(out)@ == old(out)@ + value_reply(bytes_view(*v)),
{
    match v {
        Some(b) => encode_bulk_string(out, b.as_slice()),
        None => encode_null_bulk(out),
    }
}

fn push_values(out: &mut Vec<u8>, vs: &Vec<Option<Vec<u8>>>)
    ensures
        final(out)@ == old(out)@ + array_header(vs.len() as nat) + value_replies(
            crate::storage::engine::operations::option_views(vs@),
        ),
{
    let ghost all = crate::storage::engine::operations::option_views(vs@);
    encode_array_header(out, vs.len());
    let ghost head = out@;
    let mut i: usize = 0;
    assert(out@ =~= head + value_replies(all.take(0)));
    while i < vs.len()
        invariant
            i <= vs.len(),
            all == crate::storage::engine::operations::option_views(vs@),
            out@ == head + value_replies(all.take(i as int)),
        decreases vs.len() - i,
    {
        push_value(out, &vs[i]);
        assert(all.take(i as int + 1).drop_last() =~= all.take(i as int));
        assert(all.take(i as int + 1).last() == all[i as int]);
        assert(out@ =~= head + value_replies(all.take(i as int + 1)));
        i += 1;
    }
    assert(all.take(i as int) =~= all);
}

fn push_ttl(out: &mut Vec<u8>, t: TtlStatus, in_seconds: bool)
    ensures
        final(out)@ == old(out)@ + ttl_reply(t, in_seconds),
{
    match t {
        TtlStatus::Missing => encode_integer(out, -2),
        TtlStatus::NoExpire => encode_integer(out, -1),
        TtlStatus::Millis(ms) => if in_seconds {
            let shifted: i128 = ms as i128 + 500;
            let mut secs: i128 = shifted / 1000;
            if shifted < 0 && shifted % 1000 != 0 {
                secs = secs - 1;
            }
            assert(secs == whole_seconds(ms));
            encode_integer(out, secs as i64);
        } else {
            encode_integer(out, ms);
        },
    }
}

/// `n`, kept within 64 bits.
fn clamped(n: i128) -> (c: i64)
    ensures
        c == clamp_i64(n as int),
{
    if n > 0x7fff_ffff_ffff_ffff {
        i64::MAX
    } else if n < -0x8000_0000_0000_0000 {
        i64::MIN
    } else {
        n as i64
    }
}

fn name_of_parameter(i: usize) -> (name: &'static str)
    ensures
        name@ == parameter_name(i as int),
{
    if i == 0 {
        "maxmemory"
    } else if i == 1 {
        "maxmemory-policy"
    } else if i == 2 {
        "maxmemory-samples"
    } else if i == 3 {
        "requirepass"
    } else if i == 4 {
        "slowlog-log-slower-than"
    } else {
        "slowlog-max-len"
    }
}

fn value_of_parameter(engine: &KvEngine, i: usize) -> (value: Vec<u8>)
    ensures
        value@ == parameter_value(engine@, i as int),
{
    let mut value: Vec<u8> = Vec::new();
    let cfg: EvictionConfig = engine.config();
    if i == 0 {
        push_u64(&mut value, cfg.max_memory);
    } else if i == 1 {
        push_text(&mut value, cfg.policy.name());
    } else if i == 2 {
        push_u64(&mut value, cfg.samples as u64);
    } else if i == 3 {
        if let Ok(Some(pw)) = engine.requirepass() {
            push_all(&mut value, pw.as_slice());
        }
    } else if i == 4 {
        push_i64(&mut value, engine.slowlog_threshold_us());
    } else {
        push_u64(&mut value, engine.slowlog_max_len());
    }
    assert(value@ =~= parameter_value(engine@, i as int));
    value
}

fn push_config(out: &mut Vec<u8>, engine: &KvEngine, pattern: &[u8])
    ensures
        final(out)@ == old(out)@ + config_get_reply(engine@, pattern@),
{
    let mut body: Vec<u8> = Vec::new();
    let mut count: usize = 0;
    let mut i: usize = 0;
    while i < 6
        invariant
            i <= 6,
            count <= i,
            (count as nat, body@) == matching_parameters(engine@, pattern@, i as nat),
        decreases 6 - i,
    {
        let name = name_of_parameter(i);
        if glob_match(pattern, name.as_bytes()) {
            let ghost before = body@;
            encode_bulk_string(&mut body, name.as_bytes());
            let value: Vec<u8> = value_of_parameter(engine, i);
            encode_bulk_string(&mut body, value.as_slice());
            count += 1;
        }
        i += 1;
    }
    encode_array_header(out, 2 * count);
    push_all(out, body.as_slice());
    assert(out@ =~= old(out)@ + config_get_reply(engine@, pattern@));
}

fn invalid_message(parameter: &[u8], value: &[u8]) -> (message: Vec<u8>)
    ensures
        message@ == invalid_argument(parameter@, value@),
{
    let mut message: Vec<u8> = bytes_of("ERR Invalid argument '");
    push_all(&mut message, value);
    push_text(&mut message, "' for CONFIG SET '");
    push_all(&mut message, parameter);
    push_text(&mut message, "'");
    message
}

fn parse_policy(value: &[u8]) -> (policy: Option<EvictionPolicy>)
    ensures
        policy == policy_of(value@),
{
    match utf8_text(value) {
        Some(text) => {
            let chars: Vec<char> = chars_of(text.as_str());
            let name: String = text_of(to_lower(chars.as_slice()).as_slice());
            let found = EvictionPolicy::from_name(name.as_str());
            proof {
                if let Some(p) = found {
                    let q = choose|q: EvictionPolicy| #[trigger] q.wire_name() == name@;
                    crate::storage::eviction::law_policy_name_roundtrip(q, p);
                }
            }
            found
        },
        None => None,
    }
}

fn parse_memory(value: &[u8]) -> (n: Option<u64>)
    ensures
        n == memory_of_text(value@),
{
    match utf8_text(value) {
        Some(text) => {
            let chars: Vec<char> = chars_of(text.as_str());
            match parse_bytes(chars.as_slice(), "maxmemory") {
                Ok(n) => Some(n),
                Err(_) => None,
            }
        },
        None => None,
    }
}

fn names(name: &[u8], expected: &str) -> (yes: bool)
    ensures
        yes == (name@ == word(expected@)),
{
    crate::bytes::same_bytes(name, expected.as_bytes())
}

/// `CONFIG SET`: changes a runtime parameter, or returns the message of its
/// error.
fn set_parameter(engine: &mut KvEngine, parameter: &[u8], value: &[u8]) -> (r: Result<
    (),
    Vec<u8>,
>)
    requires
        old(engine).wf(),
    ensures
        final(engine).wf(),
        match (r, config_set(old(engine)@, parameter@, value@)) {
            (Ok(_), Ok(t)) => final(engine)@ == t,
            (Err(m), Err(message)) => m@ == message && final(engine)@ == old(engine)@,
            _ => false,
        },
{
    let upper: Vec<u8> = to_upper(parameter);
    let name = upper.as_slice();
    let mut cfg: EvictionConfig = engine.config();
    if names(name, "MAXMEMORY") {
        return match parse_memory(value) {
            Some(n) => {
                cfg.max_memory = n;
                let _r = engine.set_eviction_config(cfg);
                Ok(())
            },
            None => Err(invalid_message(parameter, value)),
        };
    }
    if names(name, "MAXMEMORY-POLICY") {
        return match parse_policy(value) {
            Some(p) => {
                cfg.policy = p;
                let _r = engine.set_eviction_config(cfg);
                Ok(())
            },
            None => Err(invalid_message(parameter, value)),
        };
    }
    if names(name, "MAXMEMORY-SAMPLES") {
        return match parse_bounded(value, usize::MAX as u64) {
            Some(n) => {
                cfg.samples = n as usize;
                let _r = engine.set_eviction_config(cfg);
                Ok(())
            },
            None => Err(invalid_message(parameter, value)),
        };
    }
    if names(name, "REQUIREPASS") {
        let pw: Option<Vec<u8>> = if value.len() == 0 {
            None
        } else {
            Some(copied(value))
        };
        let _r = engine.set_requirepass(pw);
        return Ok(());
    }
    if names(name, "SLOWLOG-LOG-SLOWER-THAN") {
        return match parse_i64(value) {
            Some(us) => {
                engine.set_slowlog_threshold_us(us);
                Ok(())
            },
            None => Err(invalid_message(parameter, value)),
        };
    }
    if names(name, "SLOWLOG-MAX-LEN") {
        return match parse_bounded(value, u64::MAX) {
            Some(n) => if n >= 1 {
                engine.set_slowlog_max_len(n);
                Ok(())
            } else {
                Err(invalid_message(parameter, value))
            },
            None => Err(invalid_message(parameter, value)),
        };
    }
    let mut message: Vec<u8> = bytes_of("ERR Unknown parameter '");
    push_all(&mut message, parameter);
    push_text(&mut message, "'");
    Err(message)
}

fn push_args(out: &mut Vec<u8>, args: &Vec<Vec<u8>>)
    ensures
        final(out)@ == old(out)@ + array_header(args.len() as nat) + arg_bulks(
            vec_views(args@),
        ),
{
    let ghost all = vec_views(args@);
    encode_array_header(out, args.len());
    let ghost head = out@;
    let mut i: usize = 0;
    assert(out@ =~= head + arg_bulks(all.take(0)));
    while i < args.len()
        invariant
            i <= args.len(),
            all == vec_views(args@),
            out@ == head + arg_bulks(all.take(i as int)),
        decreases args.len() - i,
    {
        encode_bulk_string(out, args[i].as_slice());
        assert(all.take(i as int + 1).drop_last() =~= all.take(i as int));
        assert(all.take(i as int + 1).last() == all[i as int]);
        assert(out@ =~= head + arg_bulks(all.take(i as int + 1)));
        i += 1;
    }
    assert(all.take(i as int) =~= all);
}

fn push_slow_entry(out: &mut Vec<u8>, e: &SlowLogEntry)
    ensures
        final(out)@ == old(out)@ + slow_entry_reply(e@),
{
    encode_array_header(out, 6);
    push_count(out, e.id);
    push_count(out, e.ts_secs);
    push_count(out, e.duration_us);
    push_args(out, &e.args);
    encode_bulk_string(out, e.peer.as_str().as_bytes());
    let empty: [u8; 0] = [];
    encode_bulk_string(out, &empty);
    assert(empty@ =~= Seq::<u8>::empty());
    assert(out@ =~= old(out)@ + slow_entry_reply(e@));
}

fn push_slowlog(out: &mut Vec<u8>, engine: &KvEngine, count: Option<usize>)
    ensures
        final(out)@ == old(out)@ + slowlog_get_reply(engine@.slow.ring, count),
{
    let entries: Vec<SlowLogEntry> = engine.slowlog_get(count);
    let ghost ring = engine@.slow.ring;
    encode_array_header(out, entries.len());
    let ghost head = out@;
    let mut i: usize = 0;
    assert(out@ =~= head + slow_replies(ring, 0));
    while i < entries.len()
        invariant
            i <= entries.len(),
            entries.len() <= ring.len(),
            forall|j: int|
                0 <= j < entries.len() ==> (#[trigger] entries@[j])@ == ring[ring.len() - 1 - j],
            out@ == head + slow_replies(ring, i as nat),
        decreases entries.len() - i,
    {
        push_slow_entry(out, &entries[i]);
        assert(entries@[i as int]@ == ring[ring.len() - (i + 1)]);
        assert(out@ =~= head + slow_replies(ring, (i + 1) as nat));
        i += 1;
    }
    assert(out@ =~= old(out)@ + slowlog_get_reply(ring, count));
}

fn push_info_line(out: &mut Vec<u8>, name: &str, value: &[u8])
    ensures
        final(out)@ == old(out)@ + info_line(name@, value@),
{
    push_text(out, name);
    out.push(58);
    push_all(out, value);
    push_crlf(out);
    assert(out@ =~= old(out)@ + info_line(name@, value@));
}

fn digits(n: u64) -> (text: Vec<u8>)
    ensures
        text@ == dec_nat(n as nat),
{
    let mut text: Vec<u8> = Vec::new();
    push_u64(&mut text, n);
    assert(text@ =~= dec_nat(n as nat));
    text
}

fn milli_digits(milli: u16) -> (text: Vec<u8>)
    ensures
        text@ == milli_text(milli),
{
    let mut text: Vec<u8> = digits((milli / 1000) as u64);
    text.push(46);
    text.push(48 + ((milli / 100) % 10) as u8);
    text.push(48 + ((milli / 10) % 10) as u8);
    text.push(48 + (milli % 10) as u8);
    assert(text@ =~= milli_text(milli));
    text
}

fn push_info_memory(out: &mut Vec<u8>, engine: &KvEngine)
    requires
        engine.wf(),
    ensures
        final(out)@ == old(out)@ + info_memory(engine@),
{
    let cfg: EvictionConfig = engine.config();
    push_text(out, "# Memory");
    push_crlf(out);
    push_info_line(out, "used_memory", digits(engine.used_memory()).as_slice());
    push_info_line(out, "maxmemory", digits(cfg.max_memory).as_slice());
    push_info_line(out, "maxmemory_policy", cfg.policy.name().as_bytes());
    push_info_line(out, "maxmemory_samples", digits(cfg.samples as u64).as_slice());
    push_info_line(out, "ahe_alpha", milli_digits(engine.ahe_alpha_milli()).as_slice());
    assert(out@ =~= old(out)@ + info_memory(engine@));
}

fn push_info_stats(out: &mut Vec<u8>, engine: &KvEngine)
    ensures
        final(out)@ == old(out)@ + info_stats(engine@),
{
    let (hits, misses): (u64, u64) = engine.keyspace_stats();
    push_text(out, "# Stats");
    push_crlf(out);
    push_info_line(out, "keyspace_hits", digits(hits).as_slice());
    push_info_line(out, "keyspace_misses", digits(misses).as_slice());
    assert(out@ =~= old(out)@ + info_stats(engine@));
}

fn push_info_keyspace(out: &mut Vec<u8>, engine: &KvEngine, now: Clock)
    ensures
        final(out)@ == old(out)@ + info_keyspace(engine@, now),
{
    let keys: usize = engine.dbsize_at(now);
    let (timed, mean): (usize, u64) = engine.expire_stats_at(now);
    push_text(out, "# Keyspace");
    push_crlf(out);
    push_info_line(out, "keys", digits(keys as u64).as_slice());
    push_info_line(out, "expires", digits(timed as u64).as_slice());
    push_info_line(out, "avg_ttl", digits(mean).as_slice());
    assert(out@ =~= old(out)@ + info_keyspace(engine@, now));
}

fn info(engine: &KvEngine, section: &Option<Vec<u8>>, now: Clock) -> (text: Vec<u8>)
    requires
        engine.wf(),
    ensures
        text@ == info_text(engine@, bytes_view(*section), now),
{
    let mut text: Vec<u8> = Vec::new();
    match section {
        Some(name) => {
            let upper: Vec<u8> = to_upper(name.as_slice());
            if names(upper.as_slice(), "MEMORY") {
                push_info_memory(&mut text, engine);
            } else if names(upper.as_slice(), "STATS") {
                push_info_stats(&mut text, engine);
            } else if names(upper.as_slice(), "KEYSPACE") {
                push_info_keyspace(&mut text, engine, now);
            }
        },
        None => {
            push_info_memory(&mut text, engine);
            push_info_stats(&mut text, engine);
            push_info_keyspace(&mut text, engine, now);
        },
    }
    assert(text@ =~= info_text(engine@, bytes_view(*section), now));
    text
}

fn run_set_key(engine: &mut KvEngine, out: &mut Vec<u8>, key: Vec<u8>, value: Vec<u8>, now: Clock)
    requires
        old(engine).wf(),
    ensures
        final(engine).wf(),
        final(engine)@ == set_key_effect(old(engine)@, key@, value@, now).1,
        final(out)@ == old(out)@ + set_key_effect(old(engine)@, key@, value@, now).0,
{
    proof {
        reveal(set_key_effect);
    }
    match engine.insert(key, value, now) {
        Ok(_) => push_ok(out),
        Err(e) => write_ferrum_error(out, &e),
    }
}

fn run_set_nx(engine: &mut KvEngine, out: &mut Vec<u8>, key: Vec<u8>, value: Vec<u8>, now: Clock)
    requires
        old(engine).wf(),
    ensures
        final(engine).wf(),
        final(engine)@ == set_nx_effect(old(engine)@, key@, value@, now).1,
        final(out)@ == old(out)@ + set_nx_effect(old(engine)@, key@, value@, now).0,
{
    proof {
        reveal(set_nx_effect);
    }
    match engine.insert_nx(key, value, now) {
        Ok(yes) => push_flag(out, yes),
        Err(e) => write_ferrum_error(out, &e),
    }
}

fn run_get(engine: &mut KvEngine, out: &mut Vec<u8>, key: Vec<u8>, now: Clock)
    requires
        old(engine).wf(),
    ensures
        final(engine).wf(),
        final(engine)@ == get_effect(old(engine)@, key@, now).1,
        final(out)@ == old(out)@ + get_effect(old(engine)@, key@, now).0,
{
    proof {
        reveal(get_effect);
    }
    let v = engine.fetch_live(key.as_slice(), now);
    push_value(out, &v);
}

fn run_append(engine: &mut KvEngine, out: &mut Vec<u8>, key: Vec<u8>, value: Vec<u8>, now: Clock)
    requires
        old(engine).wf(),
    ensures
        final(engine).wf(),
        final(engine)@ == append_effect(old(engine)@, key@, value@, now).1,
        final(out)@ == old(out)@ + append_effect(old(engine)@, key@, value@, now).0,
{
    proof {
        reveal(append_effect);
    }
    match engine.append_at(key, value, now) {
        Ok(n) => push_count(out, n as u64),
        Err(e) => write_ferrum_error(out, &e),
    }
}

fn run_str_len(engine: &mut KvEngine, out: &mut Vec<u8>, key: Vec<u8>, now: Clock)
    requires
        old(engine).wf(),
    ensures
        final(engine).wf(),
        final(engine)@ == str_len_effect(old(engine)@, key@, now).1,
        final(out)@ == old(out)@ + str_len_effect(old(engine)@, key@, now).0,
{
    proof {
        reveal(str_len_effect);
    }
    let n: usize = engine.strlen_at(key.as_slice(), now);
    push_count(out, n as u64);
}

fn run_p_expire_at(
    engine: &mut KvEngine,
    out: &mut Vec<u8>,
    key: Vec<u8>,
    abs_epoch_ms: i64,
    now: Clock,
)
    requires
        old(engine).wf(),
    ensures
        final(engine).wf(),
        final(engine)@ == p_expire_at_effect(old(engine)@, key@, abs_epoch_ms, now).1,
        final(out)@ == old(out)@ + p_expire_at_effect(old(engine)@, key@, abs_epoch_ms, now).0,
{
    proof {
        reveal(p_expire_at_effect);
    }
    let done: bool = engine.expire_at(key.as_slice(), abs_epoch_ms, now);
    push_flag(out, done);
}

fn run_p_expire(engine: &mut KvEngine, out: &mut Vec<u8>, key: Vec<u8>, millis: i64, now: Clock)
    requires
        old(engine).wf(),
    ensures
        final(engine).wf(),
        final(engine)@ == p_expire_effect(old(engine)@, key@, millis, now).1,
        final(out)@ == old(out)@ + p_expire_effect(old(engine)@, key@, millis, now).0,
{
    proof {
        reveal(p_expire_effect);
    }
    let at: i64 = clamped(now.epoch_ms as i128 + millis as i128);
    let done: bool = engine.expire_at(key.as_slice(), at, now);
    push_flag(out, done);
}

fn run_expire(engine: &mut KvEngine, out: &mut Vec<u8>, key: Vec<u8>, seconds: i64, now: Clock)
    requires
        old(engine).wf(),
    ensures
        final(engine).wf(),
        final(engine)@ == expire_effect(old(engine)@, key@, seconds, now).1,
        final(out)@ == old(out)@ + expire_effect(old(engine)@, key@, seconds, now).0,
{
    proof {
        reveal(expire_effect);
    }
    let at: i64 = clamped(now.epoch_ms as i128 + seconds as i128 * 1000);
    let done: bool = engine.expire_at(key.as_slice(), at, now);
    push_flag(out, done);
}

fn run_persist(engine: &mut KvEngine, out: &mut Vec<u8>, key: Vec<u8>, now: Clock)
    requires
        old(engine).wf(),
    ensures
        final(engine).wf(),
        final(engine)@ == persist_effect(old(engine)@, key@, now).1,
        final(out)@ == old(out)@ + persist_effect(old(engine)@, key@, now).0,
{
    proof {
        reveal(persist_effect);
    }
    let done: bool = engine.persist_at(key.as_slice(), now);
    push_flag(out, done);
}

fn run_ttl(engine: &mut KvEngine, out: &mut Vec<u8>, key: Vec<u8>, now: Clock)
    requires
        old(engine).wf(),
    ensures
        final(engine).wf(),
        final(engine)@ == ttl_effect(old(engine)@, key@, now).1,
        final(out)@ == old(out)@ + ttl_effect(old(engine)@, key@, now).0,
{
    proof {
        reveal(ttl_effect);
    }
    let t: TtlStatus = engine.ttl_of(key.as_slice(), now);
    push_ttl(out, t, true);
}

fn run_p_ttl(engine: &mut KvEngine, out: &mut Vec<u8>, key: Vec<u8>, now: Clock)
    requires
        old(engine).wf(),
    ensures
        final(engine).wf(),
        final(engine)@ == p_ttl_effect(old(engine)@, key@, now).1,
        final(out)@ == old(out)@ + p_ttl_effect(old(engine)@, key@, now).0,
{
    proof {
        reveal(p_ttl_effect);
    }
    let t: TtlStatus = engine.ttl_of(key.as_slice(), now);
    push_ttl(out, t, false);
}

fn run_db_size(engine: &mut KvEngine, out: &mut Vec<u8>, now: Clock)
    requires
        old(engine).wf(),
    ensures
        final(engine).wf(),
        final(engine)@ == db_size_effect(old(engine)@, now).1,
        final(out)@ == old(out)@ + db_size_effect(old(engine)@, now).0,
{
    proof {
        reveal(db_size_effect);
    }
    let n: usize = engine.dbsize_at(now);
    push_count(out, n as u64);
}

fn run_flush_db(engine: &mut KvEngine, out: &mut Vec<u8>, now: Clock)
    requires
        old(engine).wf(),
    ensures
        final(engine).wf(),
        final(engine)@ == flush_db_effect(old(engine)@, now).1,
        final(out)@ == old(out)@ + flush_db_effect(old(engine)@, now).0,
{
    proof {
        reveal(flush_db_effect);
    }
    engine.clear_all();
    push_ok(out);
}

fn run_bg_rewrite_aof(engine: &mut KvEngine, out: &mut Vec<u8>, now: Clock)
    requires
        old(engine).wf(),
    ensures
        final(engine).wf(),
        final(engine)@ == bg_rewrite_aof_effect(old(engine)@, now).1,
        final(out)@ == old(out)@ + bg_rewrite_aof_effect(old(engine)@, now).0,
{
    proof {
        reveal(bg_rewrite_aof_effect);
    }
    match engine.rewrite_aof() {
        Ok(_) => push_ok(out),
        Err(e) => write_ferrum_error(out, &e),
    }
}

fn run_auth(engine: &mut KvEngine, out: &mut Vec<u8>, password: Vec<u8>, now: Clock)
    requires
        old(engine).wf(),
    ensures
        final(engine).wf(),
        final(engine)@ == auth_effect(old(engine)@, password@, now).1,
        final(out)@ == old(out)@ + auth_effect(old(engine)@, password@, now).0,
{
    proof {
        reveal(auth_effect);
    }
    match engine.authenticate(password.as_slice()) {
        Ok(yes) => if yes {
            push_ok(out);
        } else {
            push_raw_error(
                out,
                "WRONGPASS invalid username-password pair or user is disabled.".as_bytes(),
            );
        },
        Err(e) => write_ferrum_error(out, &e),
    }
}

fn run_del(engine: &mut KvEngine, out: &mut Vec<u8>, keys: Vec<Vec<u8>>, now: Clock)
    requires
        old(engine).wf(),
    ensures
        final(engine).wf(),
        final(engine)@ == del_effect(old(engine)@, vec_views(keys@), now).1,
        final(out)@ == old(out)@ + del_effect(old(engine)@, vec_views(keys@), now).0,
{
    proof {
        reveal(del_effect);
    }
    let n: usize = engine.remove_many(keys.as_slice(), now);
    push_count(out, n as u64);
}

fn run_exists(engine: &mut KvEngine, out: &mut Vec<u8>, keys: Vec<Vec<u8>>, now: Clock)
    requires
        old(engine).wf(),
    ensures
        final(engine).wf(),
        final(engine)@ == exists_effect(old(engine)@, vec_views(keys@), now).1,
        final(out)@ == old(out)@ + exists_effect(old(engine)@, vec_views(keys@), now).0,
{
    proof {
        reveal(exists_effect);
    }
    let n: usize = engine.exists_many_at(keys.as_slice(), now);
    push_count(out, n as u64);
}

fn run_m_get(engine: &mut KvEngine, out: &mut Vec<u8>, keys: Vec<Vec<u8>>, now: Clock)
    requires
        old(engine).wf(),
    ensures
        final(engine).wf(),
        final(engine)@ == m_get_effect(old(engine)@, vec_views(keys@), now).1,
        final(out)@ == old(out)@ + m_get_effect(old(engine)@, vec_views(keys@), now).0,
{
    proof {
        reveal(m_get_effect);
    }
    let vs = engine.mget_at(keys.as_slice(), now);
    push_values(out, &vs);
    assert(out@ =~= old(out)@ + m_get_effect(old(engine)@, vec_views(keys@), now).0);
}

fn run_m_set(engine: &mut KvEngine, out: &mut Vec<u8>, pairs: Vec<(Vec<u8>, Vec<u8>)>, now: Clock)
    requires
        old(engine).wf(),
    ensures
        final(engine).wf(),
        final(engine)@ == m_set_effect(old(engine)@, pair_views(pairs@), now).1,
        final(out)@ == old(out)@ + m_set_effect(old(engine)@, pair_views(pairs@), now).0,
{
    proof {
        reveal(m_set_effect);
    }
    match engine.insert_many(pairs, now) {
        Ok(_) => push_ok(out),
        Err(e) => write_ferrum_error(out, &e),
    }
}

fn run_incr_by(engine: &mut KvEngine, out: &mut Vec<u8>, key: Vec<u8>, delta: i64, now: Clock)
    requires
        old(engine).wf(),
    ensures
        final(engine).wf(),
        final(engine)@ == incr_by_effect(old(engine)@, key@, delta, now).1,
        final(out)@ == old(out)@ + incr_by_effect(old(engine)@, key@, delta, now).0,
{
    proof {
        reveal(incr_by_effect);
    }
    match engine.incr_by_at(key, delta, now) {
        Ok(n) => encode_integer(out, n),
        Err(e) => write_ferrum_error(out, &e),
    }
}

fn run_ping(engine: &mut KvEngine, out: &mut Vec<u8>, msg: Option<Vec<u8>>, now: Clock)
    requires
        old(engine).wf(),
    ensures
        final(engine).wf(),
        final(engine)@ == ping_effect(old(engine)@, bytes_view(msg), now).1,
        final(out)@ == old(out)@ + ping_effect(old(engine)@, bytes_view(msg), now).0,
{
    proof {
        reveal(ping_effect);
    }
    match msg {
        Some(m) => encode_bulk_string(out, m.as_slice()),
        None => {
            proof {
                lemma_single_lines();
            }
            encode_simple_string(out, "PONG");
        },
    }
}

fn run_memory_usage(engine: &mut KvEngine, out: &mut Vec<u8>, key: Vec<u8>, now: Clock)
    requires
        old(engine).wf(),
    ensures
        final(engine).wf(),
        final(engine)@ == memory_usage_effect(old(engine)@, key@, now).1,
        final(out)@ == old(out)@ + memory_usage_effect(old(engine)@, key@, now).0,
{
    proof {
        reveal(memory_usage_effect);
    }
    match engine.memory_of(key.as_slice(), now) {
        Some(n) => push_count(out, n),
        None => encode_null_bulk(out),
    }
}

fn run_config_get(engine: &mut KvEngine, out: &mut Vec<u8>, pattern: Vec<u8>, now: Clock)
    requires
        old(engine).wf(),
    ensures
        final(engine).wf(),
        final(engine)@ == config_get_effect(old(engine)@, pattern@, now).1,
        final(out)@ == old(out)@ + config_get_effect(old(engine)@, pattern@, now).0,
{
    proof {
        reveal(config_get_effect);
    }
    push_config(out, engine, pattern.as_slice())
}

fn run_config_set(
    engine: &mut KvEngine,
    out: &mut Vec<u8>,
    parameter: Vec<u8>,
    value: Vec<u8>,
    now: Clock,
)
    requires
        old(engine).wf(),
    ensures
        final(engine).wf(),
        final(engine)@ == config_set_effect(old(engine)@, parameter@, value@, now).1,
        final(out)@ == old(out)@ + config_set_effect(old(engine)@, parameter@, value@, now).0,
{
    proof {
        reveal(config_set_effect);
    }
    match set_parameter(
        engine,
        parameter.as_slice(),
        value.as_slice(),
    ) {
        Ok(_) => push_ok(out),
        Err(message) => push_raw_error(out, message.as_slice()),
    }
}

fn run_slow_log_get(engine: &mut KvEngine, out: &mut Vec<u8>, count: Option<usize>, now: Clock)
    requires
        old(engine).wf(),
    ensures
        final(engine).wf(),
        final(engine)@ == slow_log_get_effect(old(engine)@, count, now).1,
        final(out)@ == old(out)@ + slow_log_get_effect(old(engine)@, count, now).0,
{
    proof {
        reveal(slow_log_get_effect);
    }
    push_slowlog(out, engine, count)
}

fn run_slow_log_len(engine: &mut KvEngine, out: &mut Vec<u8>, now: Clock)
    requires
        old(engine).wf(),
    ensures
        final(engine).wf(),
        final(engine)@ == slow_log_len_effect(old(engine)@, now).1,
        final(out)@ == old(out)@ + slow_log_len_effect(old(engine)@, now).0,
{
    proof {
        reveal(slow_log_len_effect);
    }
    let n: usize = engine.slowlog_len();
    push_count(out, n as u64);
}

fn run_slow_log_reset(engine: &mut KvEngine, out: &mut Vec<u8>, now: Clock)
    requires
        old(engine).wf(),
    ensures
        final(engine).wf(),
        final(engine)@ == slow_log_reset_effect(old(engine)@, now).1,
        final(out)@ == old(out)@ + slow_log_reset_effect(old(engine)@, now).0,
{
    proof {
        reveal(slow_log_reset_effect);
    }
    engine.slowlog_reset();
    push_ok(out);
}

fn run_info(engine: &mut KvEngine, out: &mut Vec<u8>, section: Option<Vec<u8>>, now: Clock)
    requires
        old(engine).wf(),
    ensures
        final(engine).wf(),
        final(engine)@ == info_effect(old(engine)@, bytes_view(section), now).1,
        final(out)@ == old(out)@ + info_effect(old(engine)@, bytes_view(section), now).0,
{
    proof {
        reveal(info_effect);
    }
    let text: Vec<u8> = info(engine, &section, now);
    encode_bulk_string(out, text.as_slice());
}

/// Executes a command at a given time and appends its reply.
pub fn execute_at(cmd: Command, engine: &mut KvEngine, out: &mut Vec<u8>, now: Clock)
    requires
        old(engine).wf(),
    ensures
        final(engine).wf(),
        final(engine)@ == executed(old(engine)@, cmd@, now).1,
        final(out)@ == old(out)@ + executed(old(engine)@, cmd@, now).0,
{
    match cmd {
        Command::SetKey { key, value } => run_set_key(engine, out, key, value, now),
        Command::SetNx { key, value } => run_set_nx(engine, out, key, value, now),
        Command::Get { key } => run_get(engine, out, key, now),
        Command::Append { key, value } => run_append(engine, out, key, value, now),
        Command::StrLen { key } => run_str_len(engine, out, key, now),
        Command::PExpireAt { key, abs_epoch_ms } => run_p_expire_at(
            engine,
            out,
            key,
            abs_epoch_ms,
            now,
        ),
        Command::PExpire { key, millis } => run_p_expire(engine, out, key, millis, now),
        Command::Expire { key, seconds } => run_expire(engine, out, key, seconds, now),
        Command::Persist { key } => run_persist(engine, out, key, now),
        Command::Ttl { key } => run_ttl(engine, out, key, now),
        Command::PTtl { key } => run_p_ttl(engine, out, key, now),
        Command::DbSize => run_db_size(engine, out, now),
        Command::FlushDb => run_flush_db(engine, out, now),
        Command::BgRewriteAof => run_bg_rewrite_aof(engine, out, now),
        Command::Auth { password } => run_auth(engine, out, password, now),
        Command::Del { keys } => run_del(engine, out, keys, now),
        Command::Exists { keys } => run_exists(engine, out, keys, now),
        Command::MGet { keys } => run_m_get(engine, out, keys, now),
        Command::MSet { pairs } => run_m_set(engine, out, pairs, now),
        Command::IncrBy { key, delta } => run_incr_by(engine, out, key, delta, now),
        Command::Ping { msg } => run_ping(engine, out, msg, now),
        Command::MemoryUsage { key } => run_memory_usage(engine, out, key, now),
        Command::ConfigGet { pattern } => run_config_get(engine, out, pattern, now),
        Command::ConfigSet { parameter, value } => run_config_set(
            engine,
            out,
            parameter,
            value,
            now,
        ),
        Command::SlowLogGet { count } => run_slow_log_get(engine, out, count, now),
        Command::SlowLogLen => run_slow_log_len(engine, out, now),
        Command::SlowLogReset => run_slow_log_reset(engine, out, now),
        Command::Info { section } => run_info(engine, out, section, now),
    }
}

/// Executes a command and appends its reply.
pub fn execute_command(cmd: Command, engine: &mut KvEngine, out: &mut Vec<u8>)
    requires
        old(engine).wf(),
    ensures
        final(engine).wf(),
        exists|now: Clock|
            now.epoch_ms >= 0 && (final(out)@, final(engine)@) == (
                old(out)@ + (#[trigger] executed(old(engine)@, cmd@, now)).0,
                executed(old(engine)@, cmd@, now).1,
            ),
{
    let now: Clock = engine.now();
    let ghost c = cmd@;
    execute_at(cmd, engine, out, now);
    assert((out@, engine@) == (
        old(out)@ + executed(old(engine)@, c, now).0,
        executed(old(engine)@, c, now).1,
    ));
}

} // verus!
