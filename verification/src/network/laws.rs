//! What holds of a connection.

use vstd::prelude::*;

use crate::clock::Clock;
use crate::decimal::text_to_bounded;
use crate::network::execute::{
    append_effect, auth_effect, bg_rewrite_aof_effect, clamp_i64, config_get_effect, config_set,
    config_set_effect, db_size_effect, del_effect, error_reply, executed, exists_effect,
    expire_effect, flush_db_effect, get_effect, incr_by_effect, info_effect, m_get_effect,
    m_set_effect, memory_of_text, memory_usage_effect, p_expire_at_effect, p_expire_effect,
    p_ttl_effect, persist_effect, ping_effect, policy_of, set_key_effect, set_nx_effect,
    slow_log_get_effect, slow_log_len_effect, slow_log_reset_effect, str_len_effect, ttl_effect,
};
use crate::network::server::{
    all_used, answered, idle, noauth_reply, served, size_checked, stepped, taken_in, ServerView,
    Tick, Verdict, READ_BUF_MAX,
};
use crate::persistence::resp::command_frame;
use crate::protocol::frame::{protocol_error, wire_meaning, WireCommand};
use crate::protocol::reader::{
    law_cut_frame, law_frame_reads_back, lemma_frame_end, read_frame_at, Step,
};
use crate::storage::engine::durability::{
    in_calendar, keeps_pace, law_append_is_logged, law_del_many_is_logged,
    law_expire_at_is_logged, law_flushdb_is_logged, law_get_is_logged, law_incr_by_is_logged,
    law_memory_usage_is_logged, law_mset_is_logged, law_multi_read_is_logged,
    law_persist_is_logged, law_set_is_logged, law_set_nx_is_logged, lemma_pace_silent,
};
use crate::storage::engine::model::EngineView;
use crate::storage::engine::room::law_new_policy_sees_all;
use crate::storage::engine::sight::{
    in_sight, law_deadlines_keep_keys_in_sight, law_multi_reads_keep_keys_in_sight,
    law_multi_writes_keep_keys_in_sight, law_reads_keep_keys_in_sight,
    law_removals_keep_keys_in_sight, law_writes_keep_keys_in_sight,
};
use crate::storage::eviction::{EvictionConfig, EvictionScope};

verus! {

/// A connection with more bytes received.
pub open spec fn more(v: ServerView, b: Seq<u8>) -> ServerView {
    ServerView { buf: v.buf + b, ..v }
}

/// A connection without unfinished bytes.
pub open spec fn drained(v: ServerView, rest: Seq<u8>) -> ServerView {
    ServerView { buf: rest, ..v }
}

/// Whether the parts of a command can be written as a frame.
pub open spec fn sendable(parts: Seq<Seq<u8>>) -> bool {
    &&& parts.len() <= i64::MAX
    &&& forall|i: int| 0 <= i < parts.len() ==> (#[trigger] parts[i]).len() <= i64::MAX
}

/// Requests may be pipelined: a frame is answered alone, and what follows it
/// stays in the buffer for the next step.
pub proof fn law_frame_is_answered(v: ServerView, parts: Seq<Seq<u8>>, rest: Seq<u8>, t: Tick)
    requires
        !v.closed,
        sendable(parts),
    ensures
        stepped(drained(v, command_frame(parts) + rest), t) == (match wire_meaning(parts) {
            Ok(c) => answered(drained(v, rest), c, parts, t),
            Err(e) => ServerView { buf: rest, out: v.out + error_reply(e), ..v },
        }),
{
    reveal(stepped);
    law_frame_reads_back(Seq::empty(), parts, rest);
    assert(Seq::<u8>::empty() + command_frame(parts) + rest =~= command_frame(parts) + rest);
    assert((command_frame(parts) + rest).skip(command_frame(parts).len() as int) =~= rest);
}

/// A frame that has not arrived whole changes nothing and gets no reply.
pub proof fn law_partial_frame_waits(v: ServerView, parts: Seq<Seq<u8>>, n: int, t: Tick)
    requires
        sendable(parts),
        0 <= n < command_frame(parts).len(),
    ensures
        stepped(drained(v, command_frame(parts).take(n)), t) == drained(
            v,
            command_frame(parts).take(n),
        ),
{
    reveal(stepped);
    let frame = command_frame(parts);
    law_frame_reads_back(Seq::empty(), parts, Seq::empty());
    assert(Seq::<u8>::empty() + frame + Seq::<u8>::empty() =~= frame);
    if n > 0 {
        law_cut_frame(frame, 0, n);
    }
}

/// A step takes no notice of what follows the frame that it answers.
pub proof fn law_step_ignores_what_follows(v: ServerView, b: Seq<u8>, t: Tick)
    requires
        !idle(v.buf),
    ensures
        stepped(more(v, b), t) == more(stepped(v, t), b),
{
    reveal(stepped);
    let whole = v.buf + b;
    let n = v.buf.len() as int;
    assert(whole.take(n) =~= v.buf);
    law_cut_frame(whole, 0, n);
    lemma_frame_end(v.buf, 0);
    match read_frame_at(v.buf, 0) {
        Step::Done { value, end } => {
            assert(whole.skip(end) =~= v.buf.skip(end) + b);
        },
        _ => {},
    }
    assert(stepped(more(v, b), t) =~= more(stepped(v, t), b));
}

/// Frames that are answered before more bytes come are answered as if the bytes
/// had been there.
proof fn lemma_chunks_served(
    v: ServerView,
    b: Seq<u8>,
    first: Seq<Tick>,
    second: Seq<Tick>,
)
    requires
        all_used(v, first),
    ensures
        served(more(served(v, first), b), second) == served(more(v, b), first + second),
    decreases first.len() + second.len(),
{
    if second.len() > 0 {
        lemma_chunks_served(v, b, first, second.drop_last());
        assert((first + second).drop_last() =~= first + second.drop_last());
        assert((first + second).last() == second.last());
    } else if first.len() > 0 {
        lemma_chunks_served(v, b, first.drop_last(), second);
        assert(first.drop_last() + second =~= first.drop_last());
        assert(first + second =~= first);
        law_step_ignores_what_follows(served(v, first.drop_last()), b, first.last());
    } else {
        assert(first + second =~= Seq::<Tick>::empty());
    }
}

/// A connection with a log rewrite asked for, or as it is.
pub open spec fn asking(v: ServerView, rewrite: bool) -> ServerView {
    ServerView { rewrite: v.rewrite || rewrite, ..v }
}

/// Whether a rewrite was asked for before has no say in what follows.
proof fn lemma_asked_before(v: ServerView, rewrite: bool, ticks: Seq<Tick>)
    ensures
        served(asking(v, rewrite), ticks) == asking(served(v, ticks), rewrite),
        all_used(asking(v, rewrite), ticks) == all_used(v, ticks),
    decreases ticks.len(),
{
    reveal(stepped);
    if ticks.len() > 0 {
        let front = ticks.drop_last();
        lemma_asked_before(v, rewrite, front);
        let w = served(v, front);
        assert(stepped(asking(w, rewrite), ticks.last()) =~= asking(
            stepped(w, ticks.last()),
            rewrite,
        ));
    }
}

/// Answering frames only takes bytes from the buffer.
proof fn lemma_buffer_shrinks(v: ServerView, ticks: Seq<Tick>)
    ensures
        served(v, ticks).buf.len() <= v.buf.len(),
    decreases ticks.len(),
{
    reveal(stepped);
    if ticks.len() > 0 {
        lemma_buffer_shrinks(v, ticks.drop_last());
        let w = served(v, ticks.drop_last());
        if w.buf.len() > 0 {
            lemma_frame_end(w.buf, 0);
        }
    }
}

/// Frames that arrived are frames still when more bytes follow.
proof fn lemma_used_with_more(v: ServerView, b: Seq<u8>, first: Seq<Tick>, second: Seq<Tick>)
    requires
        all_used(v, first),
        all_used(more(served(v, first), b), second),
    ensures
        all_used(more(v, b), first + second),
    decreases first.len() + second.len(),
{
    let none = Seq::<Tick>::empty();
    if second.len() > 0 {
        let front = second.drop_last();
        lemma_used_with_more(v, b, first, front);
        assert((first + second).drop_last() =~= first + front);
        lemma_chunks_served(v, b, first, front);
    } else if first.len() > 0 {
        let front = first.drop_last();
        lemma_used_with_more(v, b, front, none);
        assert((first + second).drop_last() =~= front + none);
        lemma_chunks_served(v, b, front, none);
        let w = served(v, front);
        let whole = w.buf + b;
        assert(whole.take(w.buf.len() as int) =~= w.buf);
        law_cut_frame(whole, 0, w.buf.len() as int);
        assert(served(more(w, b), none) == more(w, b));
    } else {
        assert(first + second =~= none);
    }
}

/// How a stream of requests is cut makes no difference: two chunks, one after the
/// other, come to the same as both at once. The replies, the engine, whether the
/// connection is closed and what is left in the buffer are the same, and a log
/// rewrite is asked for where one of the two asked for it. The stream is within
/// the limit on unfinished requests.
pub proof fn law_chunks_do_not_matter(
    start: ServerView,
    a: Seq<u8>,
    first: Seq<Tick>,
    middle: ServerView,
    early: Verdict,
    b: Seq<u8>,
    second: Seq<Tick>,
    end: ServerView,
    late: Verdict,
)
    requires
        taken_in(start, a, first, middle, early),
        taken_in(middle, b, second, end, late),
        start.buf.len() + a.len() + b.len() <= READ_BUF_MAX,
    ensures
        taken_in(
            start,
            a + b,
            first + second,
            end,
            Verdict {
                close: late.close,
                start_rewrite: early.start_rewrite || late.start_rewrite,
            },
        ),
{
    let v = more(start, a);
    let w = served(v, first);
    lemma_buffer_shrinks(v, first);
    assert(size_checked(w) == w);
    let x = more(middle, b);
    let y = served(x, second);
    lemma_buffer_shrinks(x, second);
    assert(size_checked(y) == y);
    assert(more(w, b) =~= asking(x, w.rewrite));
    lemma_asked_before(x, w.rewrite, second);
    lemma_chunks_served(v, b, first, second);
    lemma_used_with_more(v, b, first, second);
    assert(more(v, b) =~= more(start, a + b));
    let z = served(more(start, a + b), first + second);
    assert(z == asking(y, w.rewrite));
    assert forall|i: int| 0 <= i < (first + second).len() implies (#[trigger] (first
        + second)[i]).now.epoch_ms >= 0 by {
        if i < first.len() {
            assert(first[i].now.epoch_ms >= 0);
        } else {
            assert(second[i - first.len()].now.epoch_ms >= 0);
        }
    }
    assert(size_checked(z) == z);
    assert(end =~= (ServerView { rewrite: false, ..z }));
}

/// The pieces of a stream, one behind the other.
pub open spec fn strung<T>(pieces: Seq<Seq<T>>) -> Seq<T>
    decreases pieces.len(),
{
    if pieces.len() == 0 {
        Seq::empty()
    } else {
        strung(pieces.drop_last()) + pieces.last()
    }
}

/// Whether one of the verdicts asked for a log rewrite.
pub open spec fn rewrite_asked(verdicts: Seq<Verdict>) -> bool {
    exists|i: int| 0 <= i < verdicts.len() && (#[trigger] verdicts[i]).start_rewrite
}

/// A stream taken in chunk by chunk comes to the same as the stream taken in at
/// once, however many chunks there are: the same replies in the same order, the
/// same engine. So two runs over the same stream, cut at different places, agree.
pub proof fn law_cuts_do_not_matter(
    states: Seq<ServerView>,
    chunks: Seq<Seq<u8>>,
    ticks: Seq<Seq<Tick>>,
    verdicts: Seq<Verdict>,
)
    requires
        chunks.len() > 0,
        states.len() == chunks.len() + 1,
        ticks.len() == chunks.len(),
        verdicts.len() == chunks.len(),
        forall|i: int|
            0 <= i < chunks.len() ==> taken_in(
                states[i],
                #[trigger] chunks[i],
                ticks[i],
                states[i + 1],
                verdicts[i],
            ),
        states[0].buf.len() + strung(chunks).len() <= READ_BUF_MAX,
    ensures
        taken_in(
            states[0],
            strung(chunks),
            strung(ticks),
            states.last(),
            Verdict {
                close: verdicts.last().close,
                start_rewrite: rewrite_asked(verdicts),
            },
        ),
    decreases chunks.len(),
{
    let n = chunks.len() - 1;
    assert(taken_in(states[n], chunks[n], ticks[n], states[n + 1], verdicts[n]));
    if n == 0 {
        assert(strung(chunks.drop_last()) =~= Seq::<u8>::empty());
        assert(strung(ticks.drop_last()) =~= Seq::<Tick>::empty());
        assert(strung(chunks) =~= chunks[0]);
        assert(strung(ticks) =~= ticks[0]);
        assert(rewrite_asked(verdicts) == verdicts[0].start_rewrite) by {
            if verdicts[0].start_rewrite {
                assert(verdicts[0].start_rewrite);
            }
        }
    } else {
        let early = verdicts.drop_last();
        law_cuts_do_not_matter(
            states.drop_last(),
            chunks.drop_last(),
            ticks.drop_last(),
            early,
        );
        assert(rewrite_asked(verdicts) == (rewrite_asked(early) || verdicts[n].start_rewrite)) by {
            if rewrite_asked(early) {
                let i = choose|i: int|
                    0 <= i < early.len() && (#[trigger] early[i]).start_rewrite;
                assert(verdicts[i].start_rewrite);
            }
            if rewrite_asked(verdicts) {
                let i = choose|i: int|
                    0 <= i < verdicts.len() && (#[trigger] verdicts[i]).start_rewrite;
                if i < n {
                    assert(early[i].start_rewrite);
                }
            }
        }
        law_chunks_do_not_matter(
            states[0],
            strung(chunks.drop_last()),
            strung(ticks.drop_last()),
            states[n],
            Verdict { close: early.last().close, start_rewrite: rewrite_asked(early) },
            chunks[n],
            ticks[n],
            states[n + 1],
            verdicts[n],
        );
    }
}

/// While a password is asked for, every command but `AUTH` is refused and
/// leaves the engine alone.
pub proof fn law_no_access_without_password(
    v: ServerView,
    c: WireCommand,
    parts: Seq<Seq<u8>>,
    t: Tick,
)
    requires
        v.engine.password is Some,
        !v.authenticated,
        !(c is Auth),
    ensures
        answered(v, c, parts, t) == (ServerView { out: v.out + noauth_reply(), ..v }),
{
}

/// The right password opens the connection; a wrong one does not.
pub proof fn law_password_opens(v: ServerView, password: Seq<u8>, parts: Seq<Seq<u8>>, t: Tick)
    requires
        !v.authenticated,
    ensures
        answered(v, WireCommand::Auth { password }, parts, t).authenticated <==> v.engine.password
            == Some(password),
{
}

/// Once open, a connection stays open to its client, and no command closes it.
pub proof fn law_access_is_kept(v: ServerView, c: WireCommand, parts: Seq<Seq<u8>>, t: Tick)
    ensures
        v.authenticated ==> answered(v, c, parts, t).authenticated,
        answered(v, c, parts, t).closed == v.closed,
        answered(v, c, parts, t).buf == v.buf,
{
}

/// A rewrite of the log is asked for by `BGREWRITEAOF` alone, and only where there is a log
/// and none runs; once asked for it stays so.
pub proof fn law_rewrite_is_asked_for(
    v: ServerView,
    c: WireCommand,
    parts: Seq<Seq<u8>>,
    t: Tick,
)
    requires
        v.engine.password is None || v.authenticated,
    ensures
        v.rewrite ==> answered(v, c, parts, t).rewrite,
        !v.rewrite ==> (answered(v, c, parts, t).rewrite <==> c is BgRewriteAof && v.engine.log
            is Some && !v.engine.log->0.rewriting),
{
}

/// A command that took more than the threshold of the slow log, in microseconds, is put
/// into it with its parts, its client and the second at which it ended; one that took no
/// more is not. A log that was switched off as the command began hears of none.
pub proof fn law_slow_command_is_logged(
    v: ServerView,
    c: WireCommand,
    parts: Seq<Seq<u8>>,
    t: Tick,
)
    requires
        t.dated(),
        t.end.mono_ns >= t.now.mono_ns,
        v.engine.password is None || v.authenticated,
        !(c is SlowLogReset),
    ensures
        ({
            let ran = executed(v.engine, c, t.now).1;
            let after = answered(v, c, parts, t).engine;
            let nanos = t.end.mono_ns - t.now.mono_ns;
            let entry = after.slow.ring.last();
            &&& after.store == ran.store
            &&& v.engine.slow.threshold_us != 0 && ran.slow.threshold_us > 0 && nanos < 1000 * (ran.slow.threshold_us + 1)
                ==> after.slow == ran.slow
            &&& v.engine.slow.threshold_us != 0 && (ran.slow.threshold_us < 0 || (ran.slow.threshold_us > 0 && nanos >= 1000 * (
            ran.slow.threshold_us + 1))) ==> {
                &&& entry.args == parts
                &&& v.peer is Some ==> entry.peer == v.peer->0
                &&& 1000 * entry.duration_us <= nanos < 1000 * (entry.duration_us + 1)
                &&& 1000 * entry.ts_secs <= t.end.epoch_ms < 1000 * (entry.ts_secs + 1)
            }
        }),
        v.engine.slow.threshold_us == 0 ==> answered(v, c, parts, t).engine == executed(
            v.engine,
            c,
            t.now,
        ).1,
{
}

/// Bytes that are no frame close the connection with an error; the engine is
/// left alone and nothing more is answered.
pub proof fn law_protocol_error_closes(v: ServerView, t: Tick, more_ticks: Seq<Tick>)
    requires
        !v.closed,
        v.buf.len() > 0,
        read_frame_at(v.buf, 0) is Bad,
    ensures
        stepped(v, t) == (ServerView {
            out: v.out + error_reply(protocol_error()),
            closed: true,
            ..v
        }),
        served(stepped(v, t), more_ticks) == stepped(v, t),
    decreases more_ticks.len(),
{
    reveal(stepped);
    if more_ticks.len() > 0 {
        law_protocol_error_closes(v, t, more_ticks.drop_last());
    }
}

/// A frame that is no command is answered with an error, and the connection
/// goes on with what follows.
pub proof fn law_bad_command_keeps_connection(
    v: ServerView,
    parts: Seq<Seq<u8>>,
    rest: Seq<u8>,
    t: Tick,
)
    requires
        !v.closed,
        sendable(parts),
        wire_meaning(parts) is Err,
    ensures
        stepped(drained(v, command_frame(parts) + rest), t) == (ServerView {
            buf: rest,
            out: v.out + error_reply(wire_meaning(parts)->Err_0),
            ..v
        }),
{
    law_frame_is_answered(v, parts, rest, t);
}

/// A changed setting leaves the policy with all its keys in sight.
proof fn lemma_settings_keep_sight(s: EngineView, parameter: Seq<u8>, value: Seq<u8>)
    requires
        s.wf(),
        in_sight(s),
    ensures
        config_set(s, parameter, value) matches Ok(t) ==> t.cfg.samples > 0
            && t.cfg.policy.scope_of() == EvictionScope::AllKeys ==> in_sight(t),
{
    if let Some(n) = memory_of_text(value) {
        let cfg = EvictionConfig { max_memory: n, ..s.cfg };
        if cfg.samples > 0 {
            law_new_policy_sees_all(s, cfg);
        }
    }
    if let Some(policy) = policy_of(value) {
        let cfg = EvictionConfig { policy, ..s.cfg };
        if cfg.samples > 0 {
            law_new_policy_sees_all(s, cfg);
        }
    }
    if let Some(n) = text_to_bounded(value, usize::MAX as u64) {
        let cfg = EvictionConfig { samples: n as usize, ..s.cfg };
        if cfg.samples > 0 {
            law_new_policy_sees_all(s, cfg);
        }
    }
}

/// Under a policy that may evict every key, no command puts a key out of the
/// policy's reach, unless it sets the sample size to zero or changes to a
/// policy that spares keys.
pub proof fn law_commands_keep_keys_in_sight(s: EngineView, c: WireCommand, now: Clock)
    requires
        s.wf(),
        in_sight(s),
    ensures
        ({
            let t = executed(s, c, now).1;
            t.cfg.samples > 0 && t.cfg.policy.scope_of() == EvictionScope::AllKeys ==> in_sight(t)
        }),
{
    match c {
        WireCommand::SetKey { key, value } => {
            reveal(set_key_effect);
            law_writes_keep_keys_in_sight(s, key, value, 0, now);
        },
        WireCommand::SetNx { key, value } => {
            reveal(set_nx_effect);
            law_writes_keep_keys_in_sight(s, key, value, 0, now);
        },
        WireCommand::Append { key, value } => {
            reveal(append_effect);
            law_writes_keep_keys_in_sight(s, key, value, 0, now);
        },
        WireCommand::IncrBy { key, delta } => {
            reveal(incr_by_effect);
            law_writes_keep_keys_in_sight(s, key, Seq::empty(), delta, now);
        },
        WireCommand::MSet { pairs } => {
            reveal(m_set_effect);
            law_multi_writes_keep_keys_in_sight(s, pairs, now);
        },
        WireCommand::Get { key } => {
            reveal(get_effect);
            law_reads_keep_keys_in_sight(s, key, now);
        },
        WireCommand::StrLen { key } => {
            reveal(str_len_effect);
            law_reads_keep_keys_in_sight(s, key, now);
        },
        WireCommand::Ttl { key } => {
            reveal(ttl_effect);
            law_reads_keep_keys_in_sight(s, key, now);
        },
        WireCommand::PTtl { key } => {
            reveal(p_ttl_effect);
            law_reads_keep_keys_in_sight(s, key, now);
        },
        WireCommand::MemoryUsage { key } => {
            reveal(memory_usage_effect);
            law_reads_keep_keys_in_sight(s, key, now);
        },
        WireCommand::Exists { keys } => {
            reveal(exists_effect);
            law_multi_reads_keep_keys_in_sight(s, keys, now);
        },
        WireCommand::MGet { keys } => {
            reveal(m_get_effect);
            law_multi_reads_keep_keys_in_sight(s, keys, now);
        },
        WireCommand::Del { keys } => {
            reveal(del_effect);
            law_removals_keep_keys_in_sight(s, Seq::empty(), keys, 0, now);
        },
        WireCommand::FlushDb => {
            reveal(flush_db_effect);
            law_removals_keep_keys_in_sight(s, Seq::empty(), Seq::empty(), 0, now);
        },
        WireCommand::PExpireAt { key, abs_epoch_ms } => {
            reveal(p_expire_at_effect);
            law_deadlines_keep_keys_in_sight(s, key, abs_epoch_ms, now);
        },
        WireCommand::PExpire { key, millis } => {
            reveal(p_expire_effect);
            law_deadlines_keep_keys_in_sight(s, key, clamp_i64(now.epoch_ms + millis), now);
        },
        WireCommand::Expire { key, seconds } => {
            reveal(expire_effect);
            law_deadlines_keep_keys_in_sight(s, key, clamp_i64(now.epoch_ms + seconds * 1000), now);
        },
        WireCommand::Persist { key } => {
            reveal(persist_effect);
            law_deadlines_keep_keys_in_sight(s, key, 0, now);
        },
        WireCommand::ConfigSet { parameter, value } => {
            reveal(config_set_effect);
            lemma_settings_keep_sight(s, parameter, value);
        },
        WireCommand::DbSize => {
            reveal(db_size_effect);
        },
        WireCommand::BgRewriteAof => {
            reveal(bg_rewrite_aof_effect);
        },
        WireCommand::Auth { password } => {
            reveal(auth_effect);
        },
        WireCommand::Ping { msg } => {
            reveal(ping_effect);
        },
        WireCommand::ConfigGet { pattern } => {
            reveal(config_get_effect);
        },
        WireCommand::SlowLogGet { count } => {
            reveal(slow_log_get_effect);
        },
        WireCommand::SlowLogLen => {
            reveal(slow_log_len_effect);
        },
        WireCommand::SlowLogReset => {
            reveal(slow_log_reset_effect);
        },
        WireCommand::Info { section } => {
            reveal(info_effect);
        },
    }
}

/// Every command is logged: the records that it appends tell what it changed.
pub proof fn law_commands_are_logged(s: EngineView, c: WireCommand, now: Clock)
    requires
        s.wf(),
        in_calendar(s.store, now),
    ensures
        keeps_pace(s, executed(s, c, now).1, now),
{
    match c {
        WireCommand::SetKey { key, value } => {
            reveal(set_key_effect);
            law_set_is_logged(s, key, value, now);
        },
        WireCommand::SetNx { key, value } => {
            reveal(set_nx_effect);
            law_set_nx_is_logged(s, key, value, now);
        },
        WireCommand::Append { key, value } => {
            reveal(append_effect);
            law_append_is_logged(s, key, value, now);
        },
        WireCommand::IncrBy { key, delta } => {
            reveal(incr_by_effect);
            law_incr_by_is_logged(s, key, delta, now);
        },
        WireCommand::MSet { pairs } => {
            reveal(m_set_effect);
            law_mset_is_logged(s, pairs, now);
        },
        WireCommand::Get { key } => {
            reveal(get_effect);
            law_get_is_logged(s, key, now);
        },
        WireCommand::StrLen { key } => {
            reveal(str_len_effect);
            law_get_is_logged(s, key, now);
        },
        WireCommand::Ttl { key } => {
            reveal(ttl_effect);
            law_get_is_logged(s, key, now);
        },
        WireCommand::PTtl { key } => {
            reveal(p_ttl_effect);
            law_get_is_logged(s, key, now);
        },
        WireCommand::MemoryUsage { key } => {
            reveal(memory_usage_effect);
            law_memory_usage_is_logged(s, key, now);
        },
        WireCommand::Exists { keys } => {
            reveal(exists_effect);
            law_multi_read_is_logged(s, keys, now);
        },
        WireCommand::MGet { keys } => {
            reveal(m_get_effect);
            law_multi_read_is_logged(s, keys, now);
        },
        WireCommand::Del { keys } => {
            reveal(del_effect);
            law_del_many_is_logged(s, keys, now);
        },
        WireCommand::FlushDb => {
            reveal(flush_db_effect);
            law_flushdb_is_logged(s, now);
        },
        WireCommand::PExpireAt { key, abs_epoch_ms } => {
            reveal(p_expire_at_effect);
            law_expire_at_is_logged(s, key, abs_epoch_ms, now);
        },
        WireCommand::PExpire { key, millis } => {
            reveal(p_expire_effect);
            law_expire_at_is_logged(s, key, clamp_i64(now.epoch_ms + millis), now);
        },
        WireCommand::Expire { key, seconds } => {
            reveal(expire_effect);
            law_expire_at_is_logged(s, key, clamp_i64(now.epoch_ms + seconds * 1000), now);
        },
        WireCommand::Persist { key } => {
            reveal(persist_effect);
            law_persist_is_logged(s, key, now);
        },
        _ => {
            lemma_quiet_commands(s, c, now);
            lemma_pace_silent(s, executed(s, c, now).1, now);
        },
    }
}

/// The commands that touch neither the store nor the log.
proof fn lemma_quiet_commands(s: EngineView, c: WireCommand, now: Clock)
    requires
        c is ConfigSet || c is DbSize || c is BgRewriteAof || c is Auth || c is Ping || c is ConfigGet
            || c is SlowLogGet || c is SlowLogLen || c is SlowLogReset || c is Info,
    ensures
        executed(s, c, now).1.store == s.store,
        executed(s, c, now).1.log == s.log,
{
    reveal(config_set_effect);
    reveal(db_size_effect);
    reveal(bg_rewrite_aof_effect);
    reveal(auth_effect);
    reveal(ping_effect);
    reveal(config_get_effect);
    reveal(slow_log_get_effect);
    reveal(slow_log_len_effect);
    reveal(slow_log_reset_effect);
    reveal(info_effect);
}

} // verus!
