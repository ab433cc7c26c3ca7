//! What the runtime parameters and the slow log show.
//!
//! The laws here relate what `CONFIG SET` is given to the state behind it and to what
//! `CONFIG GET` then says, and what the slow log holds to what `SLOWLOG` says.

use vstd::prelude::*;
use vstd::string::*;
use vstd::utf8::{encode_utf8, encode_utf8_decode_utf8, encode_utf8_valid_utf8};

use crate::bytes::upper_bytes;
use crate::clock::Clock;
use crate::config::file::{law_size_is_number_times_unit, unit_of};
use crate::decimal::{
    dec_int, dec_nat, law_signs_and_zeros, lemma_dec_int_round_trip, text_to_i64, text_to_unsigned,
};
use crate::network::execute::{
    arg_bulks, config_get_effect, config_set_effect, executed, matching_parameters,
    parameter_name, parameter_value, slow_entry_reply, slow_log_get_effect, slow_log_len_effect, slow_log_reset_effect,
    slow_replies,
};
use crate::network::replies::{
    lemma_ascii, lemma_forms, lemma_ok, reply_line, said_error, said_number, said_ok, said_value,
};
use crate::persistence::resp::{bulk_strings, command_frame};
use crate::protocol::frame::WireCommand;
use crate::storage::engine::glob::{law_plain_pattern_matches_itself, law_star_matches_all, plain};
use crate::storage::engine::model::EngineView;
use crate::storage::engine::slowlog::{SlowEntryView, SlowLogView};
use crate::storage::eviction::{law_policy_name_roundtrip, EvictionPolicy};
use crate::text::{lower_of, number_text};

verus! {

/// Two values, the first the name of a parameter.
pub open spec fn said_parameter(name: Seq<char>, value: Seq<u8>) -> Seq<u8> {
    said_value(encode_utf8(name)) + said_value(value)
}

/// The names of the parameters hold nothing special, and no two are the same.
proof fn lemma_names()
    ensures
        encode_utf8("maxmemory"@).len() == 9,
        encode_utf8("MAXMEMORY"@).len() == 9,
        plain(encode_utf8("maxmemory"@)),
        encode_utf8("maxmemory-policy"@).len() == 16,
        encode_utf8("MAXMEMORY-POLICY"@).len() == 16,
        plain(encode_utf8("maxmemory-policy"@)),
        encode_utf8("maxmemory-samples"@).len() == 17,
        encode_utf8("MAXMEMORY-SAMPLES"@).len() == 17,
        plain(encode_utf8("maxmemory-samples"@)),
        encode_utf8("requirepass"@).len() == 11,
        encode_utf8("REQUIREPASS"@).len() == 11,
        plain(encode_utf8("requirepass"@)),
        encode_utf8("slowlog-log-slower-than"@).len() == 23,
        encode_utf8("SLOWLOG-LOG-SLOWER-THAN"@).len() == 23,
        plain(encode_utf8("slowlog-log-slower-than"@)),
        encode_utf8("slowlog-max-len"@).len() == 15,
        encode_utf8("SLOWLOG-MAX-LEN"@).len() == 15,
        plain(encode_utf8("slowlog-max-len"@)),
{
    reveal_strlit("maxmemory");
    lemma_ascii("maxmemory"@);
    reveal_strlit("MAXMEMORY");
    lemma_ascii("MAXMEMORY"@);
    reveal_strlit("maxmemory-policy");
    lemma_ascii("maxmemory-policy"@);
    reveal_strlit("MAXMEMORY-POLICY");
    lemma_ascii("MAXMEMORY-POLICY"@);
    reveal_strlit("maxmemory-samples");
    lemma_ascii("maxmemory-samples"@);
    reveal_strlit("MAXMEMORY-SAMPLES");
    lemma_ascii("MAXMEMORY-SAMPLES"@);
    reveal_strlit("requirepass");
    lemma_ascii("requirepass"@);
    reveal_strlit("REQUIREPASS");
    lemma_ascii("REQUIREPASS"@);
    reveal_strlit("slowlog-log-slower-than");
    lemma_ascii("slowlog-log-slower-than"@);
    reveal_strlit("SLOWLOG-LOG-SLOWER-THAN");
    lemma_ascii("SLOWLOG-LOG-SLOWER-THAN"@);
    reveal_strlit("slowlog-max-len");
    lemma_ascii("slowlog-max-len"@);
    reveal_strlit("SLOWLOG-MAX-LEN");
    lemma_ascii("SLOWLOG-MAX-LEN"@);
}

/// The reply on the one parameter whose name is asked for.
proof fn lemma_one_parameter(s: EngineView, name: Seq<u8>, i: int)
    requires
        0 <= i < 6,
        name == encode_utf8(parameter_name(i)),
    ensures
        matching_parameters(s, name, 6).0 == 1,
        matching_parameters(s, name, 6).1 == said_value(name) + said_value(
            parameter_value(s, i),
        ),
{
    lemma_names();
    let value = parameter_value(s, i);
    lemma_forms(name, 0);
    lemma_forms(value, 0);
    law_plain_pattern_matches_itself(name, encode_utf8("maxmemory"@));
    law_plain_pattern_matches_itself(name, encode_utf8("maxmemory-policy"@));
    law_plain_pattern_matches_itself(name, encode_utf8("maxmemory-samples"@));
    law_plain_pattern_matches_itself(name, encode_utf8("requirepass"@));
    law_plain_pattern_matches_itself(name, encode_utf8("slowlog-log-slower-than"@));
    law_plain_pattern_matches_itself(name, encode_utf8("slowlog-max-len"@));
    reveal_with_fuel(matching_parameters, 7);
    assert(Seq::<u8>::empty() + said_value(name) + said_value(value) =~= said_value(name)
        + said_value(value));
}

/// `CONFIG GET` with the name of a parameter tells that name and the parameter's
/// value, and nothing else.
pub proof fn law_config_get_reply(s: EngineView, now: Clock)
    ensures
        executed(s, WireCommand::ConfigGet { pattern: encode_utf8("maxmemory"@) }, now) == (
            reply_line(42, dec_nat(2)) + said_parameter("maxmemory"@, dec_nat(s.cfg.max_memory as nat)),
            s,
        ),
        executed(s, WireCommand::ConfigGet { pattern: encode_utf8("maxmemory-policy"@) }, now) == (
            reply_line(42, dec_nat(2)) + said_parameter("maxmemory-policy"@, encode_utf8(s.cfg.policy.wire_name())),
            s,
        ),
        executed(s, WireCommand::ConfigGet { pattern: encode_utf8("maxmemory-samples"@) }, now) == (
            reply_line(42, dec_nat(2)) + said_parameter("maxmemory-samples"@, dec_nat(s.cfg.samples as nat)),
            s,
        ),
        executed(s, WireCommand::ConfigGet { pattern: encode_utf8("requirepass"@) }, now) == (
            reply_line(42, dec_nat(2)) + said_parameter("requirepass"@, (match s.password {
            Some(word) => word,
            None => Seq::<u8>::empty(),
        })),
            s,
        ),
        executed(s, WireCommand::ConfigGet { pattern: encode_utf8("slowlog-log-slower-than"@) }, now) == (
            reply_line(42, dec_nat(2)) + said_parameter("slowlog-log-slower-than"@, dec_int(s.slow.threshold_us as int)),
            s,
        ),
        executed(s, WireCommand::ConfigGet { pattern: encode_utf8("slowlog-max-len"@) }, now) == (
            reply_line(42, dec_nat(2)) + said_parameter("slowlog-max-len"@, dec_nat(s.slow.max_len as nat)),
            s,
        ),
{
    reveal(config_get_effect);
    lemma_one_parameter(s, encode_utf8("maxmemory"@), 0);
    lemma_one_parameter(s, encode_utf8("maxmemory-policy"@), 1);
    lemma_one_parameter(s, encode_utf8("maxmemory-samples"@), 2);
    lemma_one_parameter(s, encode_utf8("requirepass"@), 3);
    lemma_one_parameter(s, encode_utf8("slowlog-log-slower-than"@), 4);
    lemma_one_parameter(s, encode_utf8("slowlog-max-len"@), 5);
}

/// A pattern of one star takes in one more parameter at each step.
proof fn lemma_next_parameter(s: EngineView, i: nat)
    requires
        i < 6,
    ensures
        ({
            let (count, body) = matching_parameters(s, seq![42u8], i);
            matching_parameters(s, seq![42u8], i + 1) == (
                count + 1,
                body + said_parameter(parameter_name(i as int), parameter_value(s, i as int)),
            )
        }),
{
    let name = encode_utf8(parameter_name(i as int));
    let value = parameter_value(s, i as int);
    let body = matching_parameters(s, seq![42u8], i).1;
    law_star_matches_all(name);
    lemma_forms(name, 0);
    lemma_forms(value, 0);
    assert(body + said_value(name) + said_value(value) =~= body + (said_value(name) + said_value(
        value,
    )));
}

/// `CONFIG GET *` tells all six parameters.
pub proof fn law_config_get_all(s: EngineView, now: Clock)
    ensures
        executed(s, WireCommand::ConfigGet { pattern: seq![42u8] }, now).0 == reply_line(
            42,
            dec_nat(12),
        ) + (said_parameter("maxmemory"@, dec_nat(s.cfg.max_memory as nat)) + said_parameter("maxmemory-policy"@, encode_utf8(s.cfg.policy.wire_name())) + said_parameter("maxmemory-samples"@, dec_nat(s.cfg.samples as nat)) + said_parameter("requirepass"@, (match s.password {
            Some(word) => word,
            None => Seq::<u8>::empty(),
        })) + said_parameter("slowlog-log-slower-than"@, dec_int(s.slow.threshold_us as int)) + said_parameter("slowlog-max-len"@, dec_nat(s.slow.max_len as nat))),
{
    reveal(config_get_effect);
    lemma_next_parameter(s, 0);
    lemma_next_parameter(s, 1);
    lemma_next_parameter(s, 2);
    lemma_next_parameter(s, 3);
    lemma_next_parameter(s, 4);
    lemma_next_parameter(s, 5);
    let first = said_parameter("maxmemory"@, dec_nat(s.cfg.max_memory as nat));
    assert(Seq::<u8>::empty() + first =~= first);
}

/// The names of the policies are in lower case.
proof fn lemma_lower_names(p: EvictionPolicy)
    ensures
        lower_of(p.wire_name()) == p.wire_name(),
{
    reveal_strlit("noeviction");
    reveal_strlit("allkeys-lru");
    reveal_strlit("volatile-lru");
    reveal_strlit("allkeys-lfu");
    reveal_strlit("volatile-lfu");
    reveal_strlit("allkeys-random");
    reveal_strlit("volatile-random");
    reveal_strlit("volatile-ttl");
    reveal_strlit("allkeys-ahe");
    reveal_strlit("volatile-ahe");
    reveal_strlit("allkeys-sieve");
    reveal_strlit("volatile-sieve");
    reveal_strlit("allkeys-sieve-s");
    reveal_strlit("volatile-sieve-s");
    reveal_strlit("allkeys-adaptiveclimb");
    reveal_strlit("volatile-adaptiveclimb");
    assert(lower_of(p.wire_name()) =~= p.wire_name());
}

/// `CONFIG SET maxmemory` takes a number and a unit, sets the limit to their product,
/// and refuses a product that does not fit.
pub proof fn law_config_set_memory(
    s: EngineView,
    parameter: Seq<u8>,
    n: nat,
    suffix: Seq<char>,
    now: Clock,
)
    requires
        upper_bytes(parameter) == encode_utf8("MAXMEMORY"@),
        unit_of(suffix) is Some,
        n <= u64::MAX,
    ensures
        ({
            let value = encode_utf8(number_text(n) + suffix);
            let (r, t) = executed(s, WireCommand::ConfigSet { parameter, value }, now);
            let bytes = n * unit_of(suffix)->0;
            if bytes <= u64::MAX {
                &&& r == said_ok()
                &&& t.cfg.max_memory == bytes
                &&& t.cfg.policy == s.cfg.policy
                &&& t.cfg.samples == s.cfg.samples
                &&& t.store == s.store
                &&& t.password == s.password
                &&& t.slow == s.slow
            } else {
                said_error(r) && t == s
            }
        }),
{
    reveal(config_set_effect);
    lemma_ok();
    let text = number_text(n) + suffix;
    encode_utf8_valid_utf8(text);
    encode_utf8_decode_utf8(text);
    law_size_is_number_times_unit(n, suffix);
}

/// `CONFIG SET maxmemory-policy` takes the name of a policy and sets that policy.
pub proof fn law_config_set_policy(
    s: EngineView,
    parameter: Seq<u8>,
    p: EvictionPolicy,
    now: Clock,
)
    requires
        upper_bytes(parameter) == encode_utf8("MAXMEMORY-POLICY"@),
    ensures
        ({
            let value = encode_utf8(p.wire_name());
            let (r, t) = executed(s, WireCommand::ConfigSet { parameter, value }, now);
            &&& r == said_ok()
            &&& t.cfg.policy == p
            &&& t.cfg.max_memory == s.cfg.max_memory
            &&& t.cfg.samples == s.cfg.samples
            &&& t.store == s.store
            &&& t.password == s.password
            &&& t.slow == s.slow
        }),
{
    reveal(config_set_effect);
    lemma_ok();
    lemma_names();
    let name = p.wire_name();
    encode_utf8_valid_utf8(name);
    encode_utf8_decode_utf8(name);
    lemma_lower_names(p);
    law_policy_name_roundtrip(p, p);
    let found = choose|q: EvictionPolicy| #[trigger] q.wire_name() == name;
    law_policy_name_roundtrip(p, found);
}

/// `CONFIG SET maxmemory-samples`, `slowlog-log-slower-than` and `slowlog-max-len` take
/// a number; a ring of no entries is refused.
pub proof fn law_config_set_numbers(
    s: EngineView,
    parameter: Seq<u8>,
    samples: usize,
    us: i64,
    len: u64,
    now: Clock,
)
    ensures
        upper_bytes(parameter) == encode_utf8("MAXMEMORY-SAMPLES"@) ==> ({
            let value = dec_nat(samples as nat);
            let (r, t) = executed(s, WireCommand::ConfigSet { parameter, value }, now);
            &&& r == said_ok()
            &&& t.cfg.samples == samples
            &&& t.cfg.policy == s.cfg.policy
            &&& t.cfg.max_memory == s.cfg.max_memory
            &&& t.store == s.store
            &&& t.password == s.password
            &&& t.slow == s.slow
        }),
        upper_bytes(parameter) == encode_utf8("SLOWLOG-LOG-SLOWER-THAN"@) ==> executed(
            s,
            WireCommand::ConfigSet { parameter, value: dec_int(us as int) },
            now,
        ) == (
            said_ok(),
            (EngineView { slow: (SlowLogView { threshold_us: us, ..s.slow }), ..s }),
        ),
        upper_bytes(parameter) == encode_utf8("SLOWLOG-MAX-LEN"@) && len > 0 ==> executed(
            s,
            WireCommand::ConfigSet { parameter, value: dec_nat(len as nat) },
            now,
        ) == (said_ok(), (EngineView { slow: (SlowLogView { max_len: len, ..s.slow }), ..s })),
        upper_bytes(parameter) == encode_utf8("SLOWLOG-MAX-LEN"@) ==> said_error(
            executed(s, WireCommand::ConfigSet { parameter, value: dec_nat(0) }, now).0,
        ),
{
    reveal(config_set_effect);
    lemma_ok();
    lemma_names();
    law_signs_and_zeros(samples as nat);
    law_signs_and_zeros(len as nat);
    law_signs_and_zeros(0);
    lemma_dec_int_round_trip(us);
}

/// `CONFIG SET requirepass` sets the password that `AUTH` then accepts, and an empty one
/// takes the password away.
pub proof fn law_config_set_password(
    s: EngineView,
    parameter: Seq<u8>,
    value: Seq<u8>,
    now: Clock,
)
    requires
        upper_bytes(parameter) == encode_utf8("REQUIREPASS"@),
    ensures
        ({
            let (r, t) = executed(s, WireCommand::ConfigSet { parameter, value }, now);
            &&& r == said_ok()
            &&& value.len() > 0 ==> t.password == Some(value)
            &&& value.len() == 0 ==> t.password is None
            &&& t == (EngineView { password: t.password, ..s })
        }),
{
    reveal(config_set_effect);
    lemma_ok();
    lemma_names();
}

/// What is no number is refused by the parameters that are numbers, a name that is no
/// parameter's is refused with every value, and what is refused changes nothing.
pub proof fn law_config_set_refusal(
    s: EngineView,
    parameter: Seq<u8>,
    value: Seq<u8>,
    now: Clock,
)
    ensures
        ({
            let (r, t) = executed(s, WireCommand::ConfigSet { parameter, value }, now);
            let name = upper_bytes(parameter);
            &&& r == said_ok() || said_error(r)
            &&& said_error(r) ==> t == s
            &&& name == encode_utf8("SLOWLOG-LOG-SLOWER-THAN"@) && text_to_i64(value) is None
                ==> said_error(r)
            &&& (name == encode_utf8("MAXMEMORY-SAMPLES"@) || name == encode_utf8(
                "SLOWLOG-MAX-LEN"@,
            )) && text_to_unsigned(value) is None ==> said_error(r)
            &&& ({
                &&& name != encode_utf8("MAXMEMORY"@)
                &&& name != encode_utf8("MAXMEMORY-POLICY"@)
                &&& name != encode_utf8("MAXMEMORY-SAMPLES"@)
                &&& name != encode_utf8("REQUIREPASS"@)
                &&& name != encode_utf8("SLOWLOG-LOG-SLOWER-THAN"@)
                &&& name != encode_utf8("SLOWLOG-MAX-LEN"@)
            }) ==> said_error(r)
        }),
{
    reveal(config_set_effect);
    lemma_ok();
    lemma_names();
}

/// `SLOWLOG LEN` tells how many commands the log holds and `SLOWLOG RESET` forgets them,
/// and keeps the settings and the numbering.
pub proof fn law_slowlog_len_and_reset(s: EngineView, now: Clock, later: Clock)
    ensures
        executed(s, WireCommand::SlowLogLen, now) == (
            said_number(s.slow.ring.len() as int),
            s,
        ),
        executed(s, WireCommand::SlowLogReset, now).0 == said_ok(),
        ({
            let t = executed(s, WireCommand::SlowLogReset, now).1;
            &&& executed(t, WireCommand::SlowLogLen, later).0 == said_number(0)
            &&& t == (EngineView { slow: t.slow, ..s })
            &&& t.slow.threshold_us == s.slow.threshold_us
            &&& t.slow.max_len == s.slow.max_len
            &&& t.slow.last_id == s.slow.last_id
        }),
{
    reveal(slow_log_len_effect);
    reveal(slow_log_reset_effect);
    lemma_ok();
    lemma_forms(Seq::empty(), s.slow.ring.len() as int);
    lemma_forms(Seq::empty(), 0);
}

/// Values one behind the other.
pub open spec fn said_values(args: Seq<Seq<u8>>) -> Seq<u8>
    decreases args.len(),
{
    if args.len() == 0 {
        Seq::empty()
    } else {
        said_value(args[0]) + said_values(args.skip(1))
    }
}

/// What `SLOWLOG GET` says of a command: its number, when it ran in seconds, how long
/// in microseconds, the command, and the client's address and an empty name.
pub open spec fn said_slow(e: SlowEntryView) -> Seq<u8> {
    reply_line(42, dec_nat(6)) + said_number(e.id as int) + said_number(e.ts_secs as int)
        + said_number(e.duration_us as int) + reply_line(42, dec_nat(e.args.len())) + said_values(
        e.args,
    ) + said_value(encode_utf8(e.peer)) + said_value(Seq::empty())
}

/// At most `n` of the commands that ran last, the latest first.
pub open spec fn said_latest(ring: Seq<SlowEntryView>, n: nat) -> Seq<u8>
    decreases n,
{
    if n == 0 || ring.len() == 0 {
        Seq::empty()
    } else {
        said_slow(ring.last()) + said_latest(ring.drop_last(), (n - 1) as nat)
    }
}

proof fn lemma_values_last(args: Seq<Seq<u8>>)
    requires
        args.len() > 0,
    ensures
        said_values(args) == said_values(args.drop_last()) + said_value(args.last()),
    decreases args.len(),
{
    if args.len() == 1 {
        assert(args.skip(1).len() == 0);
        assert(said_value(args[0]) + Seq::<u8>::empty() =~= Seq::<u8>::empty() + said_value(
            args[0],
        ));
        reveal_with_fuel(said_values, 2);
    } else {
        let rest = args.skip(1);
        lemma_values_last(rest);
        assert(rest.drop_last() =~= args.drop_last().skip(1));
        assert(said_value(args[0]) + (said_values(rest.drop_last()) + said_value(rest.last()))
            =~= (said_value(args[0]) + said_values(rest.drop_last())) + said_value(rest.last()));
    }
}

proof fn lemma_values(args: Seq<Seq<u8>>)
    ensures
        arg_bulks(args) == said_values(args),
    decreases args.len(),
{
    if args.len() > 0 {
        lemma_values(args.drop_last());
        lemma_values_last(args);
        lemma_forms(args.last(), 0);
    }
}

proof fn lemma_said_slow(e: SlowEntryView)
    ensures
        slow_entry_reply(e) == said_slow(e),
{
    lemma_forms(encode_utf8(e.peer), e.id as int);
    lemma_forms(Seq::empty(), e.ts_secs as int);
    lemma_forms(Seq::empty(), e.duration_us as int);
    lemma_values(e.args);
}

proof fn lemma_latest_last(ring: Seq<SlowEntryView>, n: nat)
    requires
        0 < n <= ring.len(),
    ensures
        said_latest(ring, n) == said_latest(ring, (n - 1) as nat) + said_slow(
            ring[ring.len() - n],
        ),
    decreases n,
{
    let none = Seq::<u8>::empty();
    if n == 1 {
        reveal_with_fuel(said_latest, 2);
        assert(said_slow(ring.last()) + none =~= none + said_slow(ring.last()));
    } else {
        let rest = ring.drop_last();
        lemma_latest_last(rest, (n - 1) as nat);
        assert(said_slow(ring.last()) + (said_latest(rest, (n - 2) as nat) + said_slow(
            ring[ring.len() - n],
        )) =~= (said_slow(ring.last()) + said_latest(rest, (n - 2) as nat)) + said_slow(
            ring[ring.len() - n],
        ));
    }
}

proof fn lemma_latest(ring: Seq<SlowEntryView>, n: nat)
    requires
        n <= ring.len(),
    ensures
        slow_replies(ring, n) == said_latest(ring, n),
    decreases n,
{
    if n > 0 {
        lemma_latest(ring, (n - 1) as nat);
        lemma_latest_last(ring, n);
        lemma_said_slow(ring[ring.len() - n]);
    }
}

/// `SLOWLOG GET` with a count tells at most that many of the commands, those that ran
/// last, the latest first; without a count it tells them all. It changes nothing.
pub proof fn law_slowlog_get_reply(s: EngineView, count: usize, now: Clock)
    ensures
        ({
            let len = s.slow.ring.len();
            let n = if count <= len {
                count as nat
            } else {
                len
            };
            executed(s, WireCommand::SlowLogGet { count: Some(count) }, now) == (
                reply_line(42, dec_nat(n)) + said_latest(s.slow.ring, n),
                s,
            )
        }),
        executed(s, WireCommand::SlowLogGet { count: None }, now) == (
            reply_line(42, dec_nat(s.slow.ring.len())) + said_latest(
                s.slow.ring,
                s.slow.ring.len(),
            ),
            s,
        ),
{
    reveal(slow_log_get_effect);
    let ring = s.slow.ring;
    lemma_latest(ring, ring.len());
    if count <= ring.len() {
        lemma_latest(ring, count as nat);
    }
}

/// The log records a command that took longer than its threshold: a threshold of zero
/// records none, and a negative one all. What is recorded is the latest entry, numbered
/// one more than the one before; the older ones stay, as many as the log may keep. A
/// client without an address is shown with an address of zeros.
pub proof fn law_slow_commands_are_recorded(
    log: SlowLogView,
    args: Seq<Seq<u8>>,
    peer: Seq<char>,
    duration_us: u64,
    ts_secs: u64,
    i: int,
)
    requires
        log.max_len > 0,
        log.ring.len() <= log.max_len,
        log.last_id < u64::MAX,
    ensures
        ({
            let after = log.pushed(args, Some(peer), duration_us, ts_secs);
            &&& log.threshold_us == 0 ==> after == log
            &&& log.threshold_us > 0 && duration_us <= log.threshold_us ==> after == log
            &&& log.threshold_us < 0 || (log.threshold_us > 0 && duration_us > log.threshold_us)
                ==> {
                &&& after.ring.last().id == log.last_id + 1
                &&& after.ring.last().ts_secs == ts_secs
                &&& after.ring.last().duration_us == duration_us
                &&& after.ring.last().args == args
                &&& after.ring.last().peer == peer
                &&& after.last_id == log.last_id + 1
                &&& log.ring.len() < log.max_len ==> after.ring.len() == log.ring.len() + 1
                &&& log.ring.len() == log.max_len ==> after.ring.len() == log.max_len
                &&& 1 <= i < after.ring.len() ==> after.ring[after.ring.len() - 1 - i]
                    == log.ring[log.ring.len() - i]
            }
            &&& after.threshold_us == log.threshold_us
            &&& after.max_len == log.max_len
        }),
        log.threshold_us < 0 ==> log.pushed(args, None, duration_us, ts_secs).ring.last().peer
            == "0.0.0.0:0"@,
{
}

proof fn lemma_bulk_strings(parts: Seq<Seq<u8>>)
    ensures
        bulk_strings(parts) == said_values(parts),
    decreases parts.len(),
{
    if parts.len() > 0 {
        lemma_forms(parts[0], 0);
        lemma_bulk_strings(parts.skip(1));
    }
}

/// A command on the wire is an array of its parts: `*` and their number, and each part as a
/// value.
pub proof fn law_frame_bytes(parts: Seq<Seq<u8>>)
    ensures
        command_frame(parts) == reply_line(42, dec_nat(parts.len())) + said_values(parts),
{
    lemma_bulk_strings(parts);
}

} // verus!
