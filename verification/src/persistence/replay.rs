//! Replaying the log.
//!
//! The records of a log are applied to an engine that has no log of its own.
//! A half-written record at the end is cut off, back to the last complete
//! record. A malformed record is skipped up to the next byte that can start a
//! frame. Unknown commands and records with the wrong number of arguments are
//! skipped. A deadline that has passed stays on its key until the last record
//! is read, since a later one may move it or take it off; what has lapsed then
//! leaves.

use vstd::prelude::*;
use vstd::string::*;

use crate::bytes::{copied, same_bytes, to_upper, upper_bytes};
use crate::clock::Clock;
use crate::decimal::{parse_i64, text_to_i64};
use crate::error::{ErrorView, FerrumError};
use crate::persistence::record::{
    del_word, flushdb_word, persist_word, pexpireat_word, set_word,
};
use crate::persistence::resp::vec_views;
use crate::protocol::reader::{
    find_byte, index_of_byte, lemma_frame_end, lemma_index_bounds, read_frame_at, read_record,
    RecordRead, Step,
};
use crate::storage::engine::commands::at_some_time;
use crate::storage::engine::model::EngineView;
use crate::storage::engine::KvEngine;
use crate::text::{readable, readable_text};

verus! {

/// Outcome of a replay.
#[derive(Debug, Clone, Copy, PartialEq, Eq, Structural)]
pub struct ReplayStats {
    /// Records that were applied.
    pub applied: usize,
    /// Records that were skipped.
    pub skipped: usize,
    /// Whether the end of the log is to be cut off.
    pub truncated_tail: bool,
}

impl Default for ReplayStats {
    fn default() -> (stats: ReplayStats)
        ensures
            stats == (ReplayStats { applied: 0, skipped: 0, truncated_tail: false }),
    {
        ReplayStats { applied: 0, skipped: 0, truncated_tail: false }
    }
}

/// Why a record was not applied.
#[derive(Debug)]
pub enum ApplyError {
    /// The command is not known.
    Unknown(String),
    /// The command is known but its arguments are not what it takes.
    Arity(String),
    /// The engine refused the change.
    Engine(FerrumError),
}

/// What applying a record came to.
#[verifier::ext_equal]
pub enum Outcome {
    Applied,
    /// An unknown command, with its name.
    Unknown(Seq<char>),
    /// Wrong arguments, with the command's name.
    Arity(Seq<char>),
    Refused(ErrorView),
}

/// Applying a record to an engine.
#[verifier::opaque]
pub open spec fn apply_parts(s: EngineView, parts: Seq<Seq<u8>>, now: Clock) -> (
    Outcome,
    EngineView,
) {
    if parts.len() == 0 {
        (Outcome::Arity(Seq::empty()), s)
    } else {
        let name = readable(parts[0]);
        let word = upper_bytes(parts[0]);
        if word == set_word() {
            if parts.len() != 3 {
                (Outcome::Arity(name), s)
            } else {
                let (r, t) = s.set(parts[1], parts[2], now);
                match r {
                    Ok(_) => (Outcome::Applied, t),
                    Err(e) => (Outcome::Refused(e), t),
                }
            }
        } else if word == del_word() {
            if parts.len() != 2 {
                (Outcome::Arity(name), s)
            } else {
                (Outcome::Applied, s.deleted(parts[1], now))
            }
        } else if word == flushdb_word() {
            if parts.len() != 1 {
                (Outcome::Arity(name), s)
            } else {
                (Outcome::Applied, s.cleared())
            }
        } else if word == pexpireat_word() {
            if parts.len() != 3 {
                (Outcome::Arity(name), s)
            } else {
                match text_to_i64(parts[2]) {
                    Some(at) => (Outcome::Applied, s.deadline_restored(parts[1], at, now)),
                    None => (Outcome::Arity(name), s),
                }
            }
        } else if word == persist_word() {
            if parts.len() != 2 {
                (Outcome::Arity(name), s)
            } else {
                (Outcome::Applied, s.deadline_lifted(parts[1]))
            }
        } else {
            (Outcome::Unknown(name), s)
        }
    }
}

/// How far a replay has come.
#[verifier::ext_equal]
pub struct Progress {
    pub applied: nat,
    pub skipped: nat,
    pub truncated: bool,
    /// The end of the last complete record.
    pub good: int,
}

/// A replay from `pos` on: either an engine error, or the final progress.
pub open spec fn replayed(s: EngineView, log: Seq<u8>, pos: int, p: Progress, now: Clock) -> (
    Result<Progress, ErrorView>,
    EngineView,
)
    decreases log.len() - pos,
    when 0 <= pos <= log.len()
    via replayed_decreases
{
    if pos == log.len() {
        (Ok(p), s)
    } else {
        match read_frame_at(log, pos) {
            Step::Short => (Ok(Progress { truncated: true, ..p }), s),
            Step::Bad { end } => {
                let next = index_of_byte(log, end, 42);
                let q = Progress { skipped: p.skipped + 1, ..p };
                if next == log.len() {
                    (Ok(Progress { truncated: true, ..q }), s)
                } else {
                    replayed(s, log, next, q, now)
                }
            },
            Step::Done { value: parts, end } => {
                let (outcome, t) = apply_parts(s, parts, now);
                match outcome {
                    Outcome::Applied => replayed(
                        t,
                        log,
                        end,
                        Progress { applied: p.applied + 1, good: end, ..p },
                        now,
                    ),
                    Outcome::Refused(e) => (Err(e), t),
                    _ => replayed(
                        t,
                        log,
                        end,
                        Progress { skipped: p.skipped + 1, good: end, ..p },
                        now,
                    ),
                }
            },
        }
    }
}

#[via_fn]
proof fn replayed_decreases(s: EngineView, log: Seq<u8>, pos: int, p: Progress, now: Clock) {
    if pos < log.len() {
        lemma_frame_end(log, pos);
        if let Step::Bad { end } = read_frame_at(log, pos) {
            lemma_index_bounds(log, end, 42);
        }
    }
}

/// The records of a whole log.
pub open spec fn records_replayed(s: EngineView, log: Seq<u8>, now: Clock) -> (
    Result<Progress, ErrorView>,
    EngineView,
) {
    replayed(s, log, 0, Progress { applied: 0, skipped: 0, truncated: false, good: 0 }, now)
}

/// A replay of a whole log: its records, and then what has lapsed leaves.
pub open spec fn replay_of(s: EngineView, log: Seq<u8>, now: Clock) -> (
    Result<Progress, ErrorView>,
    EngineView,
) {
    let (r, t) = records_replayed(s, log, now);
    match r {
        Ok(p) => (Ok(p), t.swept_through(now)),
        Err(e) => (Err(e), t),
    }
}

/// A command name for messages; flaws in its encoding are replaced.
pub fn cmd_name(bytes: &[u8]) -> (name: String)
    ensures
        name@ == readable(bytes@),
{
    readable_text(bytes)
}

/// Applies one record.
pub fn apply_record(engine: &mut KvEngine, parts: &[Vec<u8>], now: Clock) -> (r: Result<
    (),
    ApplyError,
>)
    requires
        old(engine).wf(),
    ensures
        final(engine).wf(),
        final(engine)@ == apply_parts(old(engine)@, vec_views(parts@), now).1,
        match (r, apply_parts(old(engine)@, vec_views(parts@), now).0) {
            (Ok(_), Outcome::Applied) => true,
            (Err(ApplyError::Unknown(n)), Outcome::Unknown(m)) => n@ == m,
            (Err(ApplyError::Arity(n)), Outcome::Arity(m)) => n@ == m,
            (Err(ApplyError::Engine(e)), Outcome::Refused(f)) => e@ == f,
            _ => false,
        },
{
    let ghost views = vec_views(parts@);
    proof {
        reveal(apply_parts);
    }
    if parts.len() == 0 {
        let none: String = String::new();
        return Err(ApplyError::Arity(none));
    }
    assert(views[0] == parts@[0]@);
    let word: Vec<u8> = to_upper(parts[0].as_slice());
    let set: [u8; 3] = [83, 69, 84];
    let del: [u8; 3] = [68, 69, 76];
    let flushdb: [u8; 7] = [70, 76, 85, 83, 72, 68, 66];
    let pexpireat: [u8; 9] = [80, 69, 88, 80, 73, 82, 69, 65, 84];
    let persist: [u8; 7] = [80, 69, 82, 83, 73, 83, 84];
    proof {
        assert(set@ =~= set_word());
        assert(del@ =~= del_word());
        assert(flushdb@ =~= flushdb_word());
        assert(pexpireat@ =~= pexpireat_word());
        assert(persist@ =~= persist_word());
        assert(parts.len() > 1 ==> views[1] == parts@[1]@);
        assert(parts.len() > 2 ==> views[2] == parts@[2]@);
    }
    if same_bytes(word.as_slice(), &set) {
        if parts.len() != 3 {
            return Err(ApplyError::Arity(cmd_name(parts[0].as_slice())));
        }
        let key: Vec<u8> = copied(parts[1].as_slice());
        let value: Vec<u8> = copied(parts[2].as_slice());
        match engine.insert(key, value, now) {
            Ok(_) => Ok(()),
            Err(e) => Err(ApplyError::Engine(e)),
        }
    } else if same_bytes(word.as_slice(), &del) {
        if parts.len() != 2 {
            return Err(ApplyError::Arity(cmd_name(parts[0].as_slice())));
        }
        let _existed = engine.remove(parts[1].as_slice(), now);
        Ok(())
    } else if same_bytes(word.as_slice(), &flushdb) {
        if parts.len() != 1 {
            return Err(ApplyError::Arity(cmd_name(parts[0].as_slice())));
        }
        engine.clear_all();
        Ok(())
    } else if same_bytes(word.as_slice(), &pexpireat) {
        if parts.len() != 3 {
            return Err(ApplyError::Arity(cmd_name(parts[0].as_slice())));
        }
        match parse_i64(parts[2].as_slice()) {
            Some(at) => {
                engine.restore_deadline(parts[1].as_slice(), at, now);
                Ok(())
            },
            None => Err(ApplyError::Arity(cmd_name(parts[0].as_slice()))),
        }
    } else if same_bytes(word.as_slice(), &persist) {
        if parts.len() != 2 {
            return Err(ApplyError::Arity(cmd_name(parts[0].as_slice())));
        }
        engine.lift_deadline(parts[1].as_slice());
        Ok(())
    } else {
        Err(ApplyError::Unknown(cmd_name(parts[0].as_slice())))
    }
}

/// A result of [`replay_at`] and its model agree. The number is the length to
/// which the log is to be cut when its tail is truncated.
pub open spec fn same_replay(
    r: Result<(ReplayStats, usize), FerrumError>,
    m: Result<Progress, ErrorView>,
) -> bool {
    match (r, m) {
        (Ok((stats, good)), Ok(p)) => stats.applied == p.applied && stats.skipped == p.skipped
            && stats.truncated_tail == p.truncated && good == p.good,
        (Err(e), Err(f)) => e@ == f,
        _ => false,
    }
}

/// Applies the records of a log.
fn replay_records(log: &[u8], engine: &mut KvEngine, now: Clock) -> (r: Result<
    (ReplayStats, usize),
    FerrumError,
>)
    requires
        old(engine).wf(),
    ensures
        final(engine).wf(),
        final(engine)@ == records_replayed(old(engine)@, log@, now).1,
        same_replay(r, records_replayed(old(engine)@, log@, now).0),
{
    let mut stats = ReplayStats { applied: 0, skipped: 0, truncated_tail: false };
    let mut good: usize = 0;
    let mut pos: usize = 0;
    let ghost whole = records_replayed(engine@, log@, now);
    loop
        invariant
            pos <= log.len(),
            good <= log.len(),
            engine.wf(),
            stats.applied + stats.skipped <= pos,
            !stats.truncated_tail,
            whole == records_replayed(old(engine)@, log@, now),
            whole == replayed(
                engine@,
                log@,
                pos as int,
                Progress {
                    applied: stats.applied as nat,
                    skipped: stats.skipped as nat,
                    truncated: false,
                    good: good as int,
                },
                now,
            ),
        decreases log.len() - pos,
    {
        match read_record(log, pos) {
            RecordRead::End => {
                return Ok((stats, good));
            },
            RecordRead::Partial { consumed } => {
                stats.truncated_tail = true;
                return Ok((stats, good));
            },
            RecordRead::Malformed { consumed } => {
                stats.skipped = stats.skipped + 1;
                let next: usize = find_byte(log, pos + consumed, 42);
                if next >= log.len() {
                    stats.truncated_tail = true;
                    return Ok((stats, good));
                }
                pos = next;
            },
            RecordRead::Record { parts, consumed } => {
                pos = pos + consumed;
                match apply_record(engine, parts.as_slice(), now) {
                    Ok(_) => {
                        stats.applied = stats.applied + 1;
                    },
                    Err(ApplyError::Engine(e)) => {
                        return Err(e);
                    },
                    Err(_) => {
                        stats.skipped = stats.skipped + 1;
                    },
                }
                good = pos;
            },
        }
    }
}

/// Replays a log into an engine at the given time.
///
/// Besides the statistics it returns the end of the last complete record: when
/// the tail is truncated, the file is to be cut to that length.
pub fn replay_at(log: &[u8], engine: &mut KvEngine, now: Clock) -> (r: Result<
    (ReplayStats, usize),
    FerrumError,
>)
    requires
        old(engine).wf(),
    ensures
        final(engine).wf(),
        final(engine)@ == replay_of(old(engine)@, log@, now).1,
        same_replay(r, replay_of(old(engine)@, log@, now).0),
{
    let done = replay_records(log, engine, now);
    if done.is_ok() {
        engine.sweep_through(now);
    }
    done
}

/// Replays a log into an engine at the present time.
pub fn replay(log: &[u8], engine: &mut KvEngine) -> (r: Result<(ReplayStats, usize), FerrumError>)
    requires
        old(engine).wf(),
    ensures
        final(engine).wf(),
        at_some_time(
            |now: Clock|
                final(engine)@ == replay_of(old(engine)@, log@, now).1 && same_replay(
                    r,
                    replay_of(old(engine)@, log@, now).0,
                ),
        ),
{
    let now: Clock = engine.now();
    let r = replay_at(log, engine, now);
    proof {
        let p = |now: Clock|
            final(engine)@ == replay_of(old(engine)@, log@, now).1 && same_replay(
                r,
                replay_of(old(engine)@, log@, now).0,
            );
        assert(p(now));
    }
    r
}

/// The first word of a record, in capitals.
pub open spec fn first_word(parts: Seq<Seq<u8>>) -> Seq<u8> {
    upper_bytes(parts[0])
}

/// The words that a log knows: `SET`, `DEL`, `FLUSHDB`, `PEXPIREAT` and `PERSIST`.
pub open spec fn in_a_log(word: Seq<u8>) -> bool {
    ||| word == seq![83u8, 69, 84]
    ||| word == seq![68u8, 69, 76]
    ||| word == seq![70u8, 76, 85, 83, 72, 68, 66]
    ||| word == seq![80u8, 69, 88, 80, 73, 82, 69, 65, 84]
    ||| word == seq![80u8, 69, 82, 83, 73, 83, 84]
}

/// A replay goes record by record. A record with a word that no log knows, or with the
/// wrong number of arguments, is skipped and changes nothing; a `SET` that is not refused
/// writes its value, a `DEL` removes its key and a `FLUSHDB` removes all.
pub proof fn law_replay_goes_by_record(
    s: EngineView,
    log: Seq<u8>,
    pos: int,
    p: Progress,
    parts: Seq<Seq<u8>>,
    end: int,
    now: Clock,
)
    requires
        0 <= pos < log.len(),
        read_frame_at(log, pos) == (Step::Done { value: parts, end }),
        parts.len() > 0,
    ensures
        ({
            let all = replayed(s, log, pos, p, now);
            let word = first_word(parts);
            let skipped = Progress { skipped: p.skipped + 1, good: end, ..p };
            let applied = Progress { applied: p.applied + 1, good: end, ..p };
            &&& !in_a_log(word) ==> all == replayed(s, log, end, skipped, now)
            &&& word == seq![83u8, 69, 84] && parts.len() != 3 ==> all == replayed(
                s,
                log,
                end,
                skipped,
                now,
            )
            &&& word == seq![68u8, 69, 76] && parts.len() != 2 ==> all == replayed(
                s,
                log,
                end,
                skipped,
                now,
            )
            &&& word == seq![83u8, 69, 84] && parts.len() == 3 && s.set(
                parts[1],
                parts[2],
                now,
            ).0 is Ok ==> all == replayed(s.set(parts[1], parts[2], now).1, log, end, applied, now)
            &&& word == seq![68u8, 69, 76] && parts.len() == 2 ==> all == replayed(
                s.deleted(parts[1], now),
                log,
                end,
                applied,
                now,
            )
            &&& word == seq![70u8, 76, 85, 83, 72, 68, 66] && parts.len() == 1 ==> all == replayed(
                s.cleared(),
                log,
                end,
                applied,
                now,
            )
        }),
{
    reveal(apply_parts);
    lemma_frame_end(log, pos);
    let set = seq![83u8, 69, 84];
    let del = seq![68u8, 69, 76];
    let flush = seq![70u8, 76, 85, 83, 72, 68, 66];
    assert(set[0] == 83 && del[0] == 68 && flush[0] == 70);
}

} // verus!
