//! Commands on the wire.
//!
//! A request is one RESP2 frame: an array of bulk strings whose first element
//! names the command, in any ASCII case.

use vstd::prelude::*;
use vstd::string::*;
use vstd::utf8::encode_utf8;

use crate::bytes::{copied, same_bytes, to_upper, upper_bytes};
use crate::decimal::{parse_bounded, parse_i64, text_to_bounded, text_to_i64};
use crate::error::{ErrorView, FerrumError};
use crate::persistence::resp::vec_views;
use crate::protocol::reader::{read_frame_at, read_record, RecordRead, Step};
use crate::storage::engine::bytes_view;
use crate::storage::engine::model::not_an_integer;
use crate::storage::engine::operations::pair_views;
use crate::storage::engine::slowlog::copy_parts;
use crate::text::{readable, readable_text};

verus! {

/// A command.
#[derive(Debug, PartialEq)]
pub enum Command {
    /// `SET key value`
    SetKey { key: Vec<u8>, value: Vec<u8> },
    /// `SETNX key value`
    SetNx { key: Vec<u8>, value: Vec<u8> },
    /// `GET key`
    Get { key: Vec<u8> },
    /// `APPEND key value`
    Append { key: Vec<u8>, value: Vec<u8> },
    /// `STRLEN key`
    StrLen { key: Vec<u8> },
    /// `PEXPIREAT key abs_epoch_ms`
    PExpireAt { key: Vec<u8>, abs_epoch_ms: i64 },
    /// `PEXPIRE key millis`
    PExpire { key: Vec<u8>, millis: i64 },
    /// `EXPIRE key seconds`
    Expire { key: Vec<u8>, seconds: i64 },
    /// `PERSIST key`
    Persist { key: Vec<u8> },
    /// `TTL key`
    Ttl { key: Vec<u8> },
    /// `PTTL key`
    PTtl { key: Vec<u8> },
    /// `DBSIZE`
    DbSize,
    /// `FLUSHDB`
    FlushDb,
    /// `BGREWRITEAOF`
    BgRewriteAof,
    /// `AUTH password`
    Auth { password: Vec<u8> },
    /// `DEL key [key ...]`
    Del { keys: Vec<Vec<u8>> },
    /// `EXISTS key [key ...]`
    Exists { keys: Vec<Vec<u8>> },
    /// `MGET key [key ...]`
    MGet { keys: Vec<Vec<u8>> },
    /// `MSET key value [key value ...]`
    MSet { pairs: Vec<(Vec<u8>, Vec<u8>)> },
    /// `INCR`, `DECR`, `INCRBY` and `DECRBY`
    IncrBy { key: Vec<u8>, delta: i64 },
    /// `PING [message]`
    Ping { msg: Option<Vec<u8>> },
    /// `MEMORY USAGE key`
    MemoryUsage { key: Vec<u8> },
    /// `CONFIG GET pattern`
    ConfigGet { pattern: Vec<u8> },
    /// `CONFIG SET parameter value`
    ConfigSet { parameter: Vec<u8>, value: Vec<u8> },
    /// `SLOWLOG GET [count]`
    SlowLogGet { count: Option<usize> },
    /// `SLOWLOG LEN`
    SlowLogLen,
    /// `SLOWLOG RESET`
    SlowLogReset,
    /// `INFO [section]`
    Info { section: Option<Vec<u8>> },
}

/// The mathematical content of a [`Command`].
#[verifier::ext_equal]
pub enum WireCommand {
    SetKey { key: Seq<u8>, value: Seq<u8> },
    SetNx { key: Seq<u8>, value: Seq<u8> },
    Get { key: Seq<u8> },
    Append { key: Seq<u8>, value: Seq<u8> },
    StrLen { key: Seq<u8> },
    PExpireAt { key: Seq<u8>, abs_epoch_ms: i64 },
    PExpire { key: Seq<u8>, millis: i64 },
    Expire { key: Seq<u8>, seconds: i64 },
    Persist { key: Seq<u8> },
    Ttl { key: Seq<u8> },
    PTtl { key: Seq<u8> },
    DbSize,
    FlushDb,
    BgRewriteAof,
    Auth { password: Seq<u8> },
    Del { keys: Seq<Seq<u8>> },
    Exists { keys: Seq<Seq<u8>> },
    MGet { keys: Seq<Seq<u8>> },
    MSet { pairs: Seq<(Seq<u8>, Seq<u8>)> },
    IncrBy { key: Seq<u8>, delta: i64 },
    Ping { msg: Option<Seq<u8>> },
    MemoryUsage { key: Seq<u8> },
    ConfigGet { pattern: Seq<u8> },
    ConfigSet { parameter: Seq<u8>, value: Seq<u8> },
    SlowLogGet { count: Option<usize> },
    SlowLogLen,
    SlowLogReset,
    Info { section: Option<Seq<u8>> },
}

impl View for Command {
    type V = WireCommand;

    open spec fn view(&self) -> WireCommand {
        match self {
            Command::SetKey { key, value } => WireCommand::SetKey { key: key@, value: value@ },
            Command::SetNx { key, value } => WireCommand::SetNx { key: key@, value: value@ },
            Command::Get { key } => WireCommand::Get { key: key@ },
            Command::Append { key, value } => WireCommand::Append { key: key@, value: value@ },
            Command::StrLen { key } => WireCommand::StrLen { key: key@ },
            Command::PExpireAt { key, abs_epoch_ms } => WireCommand::PExpireAt {
                key: key@,
                abs_epoch_ms: *abs_epoch_ms,
            },
            Command::PExpire { key, millis } => WireCommand::PExpire { key: key@, millis: *millis },
            Command::Expire { key, seconds } => WireCommand::Expire {
                key: key@,
                seconds: *seconds,
            },
            Command::Persist { key } => WireCommand::Persist { key: key@ },
            Command::Ttl { key } => WireCommand::Ttl { key: key@ },
            Command::PTtl { key } => WireCommand::PTtl { key: key@ },
            Command::DbSize => WireCommand::DbSize,
            Command::FlushDb => WireCommand::FlushDb,
            Command::BgRewriteAof => WireCommand::BgRewriteAof,
            Command::Auth { password } => WireCommand::Auth { password: password@ },
            Command::Del { keys } => WireCommand::Del { keys: vec_views(keys@) },
            Command::Exists { keys } => WireCommand::Exists { keys: vec_views(keys@) },
            Command::MGet { keys } => WireCommand::MGet { keys: vec_views(keys@) },
            Command::MSet { pairs } => WireCommand::MSet { pairs: pair_views(pairs@) },
            Command::IncrBy { key, delta } => WireCommand::IncrBy { key: key@, delta: *delta },
            Command::Ping { msg } => WireCommand::Ping { msg: bytes_view(*msg) },
            Command::MemoryUsage { key } => WireCommand::MemoryUsage { key: key@ },
            Command::ConfigGet { pattern } => WireCommand::ConfigGet { pattern: pattern@ },
            Command::ConfigSet { parameter, value } => WireCommand::ConfigSet {
                parameter: parameter@,
                value: value@,
            },
            Command::SlowLogGet { count } => WireCommand::SlowLogGet { count: *count },
            Command::SlowLogLen => WireCommand::SlowLogLen,
            Command::SlowLogReset => WireCommand::SlowLogReset,
            Command::Info { section } => WireCommand::Info { section: bytes_view(*section) },
        }
    }
}

/// The bytes of a command word.
pub open spec fn word(name: Seq<char>) -> Seq<u8> {
    encode_utf8(name)
}

/// The key-value pairs of an even number of arguments.
pub open spec fn pairs_of(args: Seq<Seq<u8>>) -> Seq<(Seq<u8>, Seq<u8>)> {
    Seq::new(args.len() / 2, |i: int| (args[2 * i], args[2 * i + 1]))
}

/// The increment of `INCRBY` and `DECRBY`.
pub open spec fn delta_of(text: Seq<u8>, negate: bool) -> Option<i64> {
    match text_to_i64(text) {
        Some(n) => if !negate {
            Some(n)
        } else if n == i64::MIN {
            None
        } else {
            Some((-n) as i64)
        },
        None => None,
    }
}

/// `MEMORY USAGE key`
pub open spec fn memory_meaning(p: Seq<Seq<u8>>) -> Result<WireCommand, ErrorView> {
    if p.len() == 3 && upper_bytes(p[1]) == word("USAGE"@) {
        Ok(WireCommand::MemoryUsage { key: p[2] })
    } else {
        Err(ErrorView::WrongArity("MEMORY"@))
    }
}

/// `CONFIG GET` and `CONFIG SET`
pub open spec fn config_meaning(p: Seq<Seq<u8>>) -> Result<WireCommand, ErrorView> {
    if p.len() == 3 && upper_bytes(p[1]) == word("GET"@) {
        Ok(WireCommand::ConfigGet { pattern: p[2] })
    } else if p.len() == 4 && upper_bytes(p[1]) == word("SET"@) {
        Ok(WireCommand::ConfigSet { parameter: p[2], value: p[3] })
    } else {
        Err(ErrorView::WrongArity("CONFIG"@))
    }
}

/// `SLOWLOG GET`, `SLOWLOG LEN` and `SLOWLOG RESET`
pub open spec fn slowlog_meaning(p: Seq<Seq<u8>>) -> Result<WireCommand, ErrorView> {
    if p.len() == 2 && upper_bytes(p[1]) == word("LEN"@) {
        Ok(WireCommand::SlowLogLen)
    } else if p.len() == 2 && upper_bytes(p[1]) == word("RESET"@) {
        Ok(WireCommand::SlowLogReset)
    } else if p.len() == 2 && upper_bytes(p[1]) == word("GET"@) {
        Ok(WireCommand::SlowLogGet { count: None })
    } else if p.len() == 3 && upper_bytes(p[1]) == word("GET"@) {
        match text_to_bounded(p[2], usize::MAX as u64) {
            Some(n) => Ok(WireCommand::SlowLogGet { count: Some(n as usize) }),
            None => Err(not_an_integer()),
        }
    } else {
        Err(ErrorView::WrongArity("SLOWLOG"@))
    }
}

/// What the parts of a frame mean.
pub open spec fn wire_meaning(p: Seq<Seq<u8>>) -> Result<WireCommand, ErrorView> {
    let name = upper_bytes(p[0]);
    if p.len() == 0 {
        Err(ErrorView::ParseError("empty command"@))
    } else if name == word("SET"@) {
        if p.len() != 3 {
            Err(ErrorView::WrongArity("SET"@))
        } else {
            Ok(WireCommand::SetKey { key: p[1], value: p[2] })
        }
    } else if name == word("SETNX"@) {
        if p.len() != 3 {
            Err(ErrorView::WrongArity("SETNX"@))
        } else {
            Ok(WireCommand::SetNx { key: p[1], value: p[2] })
        }
    } else if name == word("GET"@) {
        if p.len() != 2 {
            Err(ErrorView::WrongArity("GET"@))
        } else {
            Ok(WireCommand::Get { key: p[1] })
        }
    } else if name == word("APPEND"@) {
        if p.len() != 3 {
            Err(ErrorView::WrongArity("APPEND"@))
        } else {
            Ok(WireCommand::Append { key: p[1], value: p[2] })
        }
    } else if name == word("STRLEN"@) {
        if p.len() != 2 {
            Err(ErrorView::WrongArity("STRLEN"@))
        } else {
            Ok(WireCommand::StrLen { key: p[1] })
        }
    } else if name == word("PEXPIREAT"@) {
        if p.len() != 3 {
            Err(ErrorView::WrongArity("PEXPIREAT"@))
        } else {
            match text_to_i64(p[2]) {
                Some(n) => Ok(WireCommand::PExpireAt { key: p[1], abs_epoch_ms: n }),
                None => Err(not_an_integer()),
            }
        }
    } else if name == word("PEXPIRE"@) {
        if p.len() != 3 {
            Err(ErrorView::WrongArity("PEXPIRE"@))
        } else {
            match text_to_i64(p[2]) {
                Some(n) => Ok(WireCommand::PExpire { key: p[1], millis: n }),
                None => Err(not_an_integer()),
            }
        }
    } else if name == word("EXPIRE"@) {
        if p.len() != 3 {
            Err(ErrorView::WrongArity("EXPIRE"@))
        } else {
            match text_to_i64(p[2]) {
                Some(n) => Ok(WireCommand::Expire { key: p[1], seconds: n }),
                None => Err(not_an_integer()),
            }
        }
    } else if name == word("PERSIST"@) {
        if p.len() != 2 {
            Err(ErrorView::WrongArity("PERSIST"@))
        } else {
            Ok(WireCommand::Persist { key: p[1] })
        }
    } else if name == word("TTL"@) {
        if p.len() != 2 {
            Err(ErrorView::WrongArity("TTL"@))
        } else {
            Ok(WireCommand::Ttl { key: p[1] })
        }
    } else if name == word("PTTL"@) {
        if p.len() != 2 {
            Err(ErrorView::WrongArity("PTTL"@))
        } else {
            Ok(WireCommand::PTtl { key: p[1] })
        }
    } else if name == word("DBSIZE"@) {
        if p.len() != 1 {
            Err(ErrorView::WrongArity("DBSIZE"@))
        } else {
            Ok(WireCommand::DbSize)
        }
    } else if name == word("FLUSHDB"@) {
        if p.len() != 1 {
            Err(ErrorView::WrongArity("FLUSHDB"@))
        } else {
            Ok(WireCommand::FlushDb)
        }
    } else if name == word("BGREWRITEAOF"@) {
        if p.len() != 1 {
            Err(ErrorView::WrongArity("BGREWRITEAOF"@))
        } else {
            Ok(WireCommand::BgRewriteAof)
        }
    } else if name == word("AUTH"@) {
        if p.len() != 2 {
            Err(ErrorView::WrongArity("AUTH"@))
        } else {
            Ok(WireCommand::Auth { password: p[1] })
        }
    } else if name == word("DEL"@) {
        if p.len() < 2 {
            Err(ErrorView::WrongArity("DEL"@))
        } else {
            Ok(WireCommand::Del { keys: p.skip(1) })
        }
    } else if name == word("EXISTS"@) {
        if p.len() < 2 {
            Err(ErrorView::WrongArity("EXISTS"@))
        } else {
            Ok(WireCommand::Exists { keys: p.skip(1) })
        }
    } else if name == word("MGET"@) {
        if p.len() < 2 {
            Err(ErrorView::WrongArity("MGET"@))
        } else {
            Ok(WireCommand::MGet { keys: p.skip(1) })
        }
    } else if name == word("MSET"@) {
        if p.len() < 3 || p.len() % 2 == 0 {
            Err(ErrorView::WrongArity("MSET"@))
        } else {
            Ok(WireCommand::MSet { pairs: pairs_of(p.skip(1)) })
        }
    } else if name == word("INCR"@) {
        if p.len() != 2 {
            Err(ErrorView::WrongArity("INCR"@))
        } else {
            Ok(WireCommand::IncrBy { key: p[1], delta: 1 })
        }
    } else if name == word("DECR"@) {
        if p.len() != 2 {
            Err(ErrorView::WrongArity("DECR"@))
        } else {
            Ok(WireCommand::IncrBy { key: p[1], delta: (-1) as i64 })
        }
    } else if name == word("INCRBY"@) {
        if p.len() != 3 {
            Err(ErrorView::WrongArity("INCRBY"@))
        } else {
            match delta_of(p[2], false) {
                Some(delta) => Ok(WireCommand::IncrBy { key: p[1], delta }),
                None => Err(not_an_integer()),
            }
        }
    } else if name == word("DECRBY"@) {
        if p.len() != 3 {
            Err(ErrorView::WrongArity("DECRBY"@))
        } else {
            match delta_of(p[2], true) {
                Some(delta) => Ok(WireCommand::IncrBy { key: p[1], delta }),
                None => Err(not_an_integer()),
            }
        }
    } else if name == word("PING"@) {
        if p.len() == 1 {
            Ok(WireCommand::Ping { msg: None })
        } else if p.len() == 2 {
            Ok(WireCommand::Ping { msg: Some(p[1]) })
        } else {
            Err(ErrorView::WrongArity("PING"@))
        }
    } else if name == word("INFO"@) {
        if p.len() == 1 {
            Ok(WireCommand::Info { section: None })
        } else if p.len() == 2 {
            Ok(WireCommand::Info { section: Some(p[1]) })
        } else {
            Err(ErrorView::WrongArity("INFO"@))
        }
    } else if name == word("MEMORY"@) {
        memory_meaning(p)
    } else if name == word("CONFIG"@) {
        config_meaning(p)
    } else if name == word("SLOWLOG"@) {
        slowlog_meaning(p)
    } else {
        Err(ErrorView::UnknownCommand(readable(name)))
    }
}

/// A command that was read and its meaning agree.
pub open spec fn same_wire(
    r: Result<Command, FerrumError>,
    m: Result<WireCommand, ErrorView>,
) -> bool {
    match (r, m) {
        (Ok(c), Ok(d)) => c@ == d,
        (Err(e), Err(f)) => e@ == f,
        _ => false,
    }
}

fn is_word(name: &[u8], expected: &str) -> (yes: bool)
    ensures
        yes == (name@ == word(expected@)),
{
    same_bytes(name, expected.as_bytes())
}

fn not_integer() -> (e: FerrumError)
    ensures
        e@ == not_an_integer(),
{
    FerrumError::ParseError("value is not an integer or out of range".to_owned())
}

fn arg(parts: &[Vec<u8>], i: usize) -> (copy: Vec<u8>)
    requires
        i < parts.len(),
    ensures
        copy@ == vec_views(parts@)[i as int],
{
    copied(parts[i].as_slice())
}

fn args_from_one(parts: &[Vec<u8>]) -> (args: Vec<Vec<u8>>)
    requires
        parts.len() >= 1,
    ensures
        vec_views(args@) == vec_views(parts@).skip(1),
{
    let rest = vstd::slice::slice_subrange(parts, 1, parts.len());
    let args = copy_parts(rest);
    assert(vec_views(rest@) =~= vec_views(parts@).skip(1));
    args
}

fn pairs_from_one(parts: &[Vec<u8>]) -> (pairs: Vec<(Vec<u8>, Vec<u8>)>)
    requires
        parts.len() % 2 == 1,
    ensures
        pair_views(pairs@) == pairs_of(vec_views(parts@).skip(1)),
{
    let n: usize = (parts.len() - 1) / 2;
    let ghost all = vec_views(parts@).skip(1);
    let mut pairs: Vec<(Vec<u8>, Vec<u8>)> = Vec::new();
    let mut i: usize = 0;
    while i < n
        invariant
            i <= n,
            parts.len() == 2 * n + 1,
            all == vec_views(parts@).skip(1),
            pairs.len() == i,
            forall|j: int| 0 <= j < i ==> (#[trigger] pairs@[j]).0@ == all[2 * j] && pairs@[j].1@
                == all[2 * j + 1],
        decreases n - i,
    {
        let key: Vec<u8> = arg(parts, 2 * i + 1);
        let value: Vec<u8> = arg(parts, 2 * i + 2);
        pairs.push((key, value));
        i += 1;
    }
    assert(pair_views(pairs@) =~= pairs_of(all));
    pairs
}

fn parse_delta(text: &[u8], negate: bool) -> (delta: Option<i64>)
    ensures
        delta == delta_of(text@, negate),
{
    match parse_i64(text) {
        Some(n) => if !negate {
            Some(n)
        } else if n == i64::MIN {
            None
        } else {
            Some(-n)
        },
        None => None,
    }
}

fn memory_command(parts: &[Vec<u8>]) -> (r: Result<Command, FerrumError>)
    ensures
        same_wire(r, memory_meaning(vec_views(parts@))),
{
    if parts.len() == 3 {
        let sub: Vec<u8> = to_upper(parts[1].as_slice());
        if is_word(sub.as_slice(), "USAGE") {
            return Ok(Command::MemoryUsage { key: arg(parts, 2) });
        }
    }
    Err(FerrumError::WrongArity { cmd: "MEMORY" })
}

fn config_command(parts: &[Vec<u8>]) -> (r: Result<Command, FerrumError>)
    ensures
        same_wire(r, config_meaning(vec_views(parts@))),
{
    if parts.len() == 3 {
        let sub: Vec<u8> = to_upper(parts[1].as_slice());
        if is_word(sub.as_slice(), "GET") {
            return Ok(Command::ConfigGet { pattern: arg(parts, 2) });
        }
    } else if parts.len() == 4 {
        let sub: Vec<u8> = to_upper(parts[1].as_slice());
        if is_word(sub.as_slice(), "SET") {
            return Ok(Command::ConfigSet { parameter: arg(parts, 2), value: arg(parts, 3) });
        }
    }
    Err(FerrumError::WrongArity { cmd: "CONFIG" })
}

fn slowlog_command(parts: &[Vec<u8>]) -> (r: Result<Command, FerrumError>)
    ensures
        same_wire(r, slowlog_meaning(vec_views(parts@))),
{
    if parts.len() == 2 {
        let sub: Vec<u8> = to_upper(parts[1].as_slice());
        if is_word(sub.as_slice(), "LEN") {
            return Ok(Command::SlowLogLen);
        }
        if is_word(sub.as_slice(), "RESET") {
            return Ok(Command::SlowLogReset);
        }
        if is_word(sub.as_slice(), "GET") {
            return Ok(Command::SlowLogGet { count: None });
        }
    } else if parts.len() == 3 {
        let sub: Vec<u8> = to_upper(parts[1].as_slice());
        if is_word(sub.as_slice(), "GET") {
            return match parse_bounded(parts[2].as_slice(), usize::MAX as u64) {
                Some(n) => Ok(Command::SlowLogGet { count: Some(n as usize) }),
                None => Err(not_integer()),
            };
        }
    }
    Err(FerrumError::WrongArity { cmd: "SLOWLOG" })
}

/// Reads a command from the parts of a frame.
pub fn command_from_parts(parts: &[Vec<u8>]) -> (r: Result<Command, FerrumError>)
    ensures
        same_wire(r, wire_meaning(vec_views(parts@))),
{
    if parts.len() == 0 {
        return Err(FerrumError::ParseError("empty command".to_owned()));
    }
    let upper: Vec<u8> = to_upper(parts[0].as_slice());
    let name = upper.as_slice();
    assert(name@ == upper_bytes(vec_views(parts@)[0]));
    if is_word(name, "SET") {
        if parts.len() != 3 {
            return Err(FerrumError::WrongArity { cmd: "SET" });
        }
        return Ok(Command::SetKey { key: arg(parts, 1), value: arg(parts, 2) });
    }
    if is_word(name, "SETNX") {
        if parts.len() != 3 {
            return Err(FerrumError::WrongArity { cmd: "SETNX" });
        }
        return Ok(Command::SetNx { key: arg(parts, 1), value: arg(parts, 2) });
    }
    if is_word(name, "GET") {
        if parts.len() != 2 {
            return Err(FerrumError::WrongArity { cmd: "GET" });
        }
        return Ok(Command::Get { key: arg(parts, 1) });
    }
    if is_word(name, "APPEND") {
        if parts.len() != 3 {
            return Err(FerrumError::WrongArity { cmd: "APPEND" });
        }
        return Ok(Command::Append { key: arg(parts, 1), value: arg(parts, 2) });
    }
    if is_word(name, "STRLEN") {
        if parts.len() != 2 {
            return Err(FerrumError::WrongArity { cmd: "STRLEN" });
        }
        return Ok(Command::StrLen { key: arg(parts, 1) });
    }
    if is_word(name, "PEXPIREAT") {
        if parts.len() != 3 {
            return Err(FerrumError::WrongArity { cmd: "PEXPIREAT" });
        }
        return match parse_i64(parts[2].as_slice()) {
            Some(n) => Ok(Command::PExpireAt { key: arg(parts, 1), abs_epoch_ms: n }),
            None => Err(not_integer()),
        };
    }
    if is_word(name, "PEXPIRE") {
        if parts.len() != 3 {
            return Err(FerrumError::WrongArity { cmd: "PEXPIRE" });
        }
        return match parse_i64(parts[2].as_slice()) {
            Some(n) => Ok(Command::PExpire { key: arg(parts, 1), millis: n }),
            None => Err(not_integer()),
        };
    }
    if is_word(name, "EXPIRE") {
        if parts.len() != 3 {
            return Err(FerrumError::WrongArity { cmd: "EXPIRE" });
        }
        return match parse_i64(parts[2].as_slice()) {
            Some(n) => Ok(Command::Expire { key: arg(parts, 1), seconds: n }),
            None => Err(not_integer()),
        };
    }
    if is_word(name, "PERSIST") {
        if parts.len() != 2 {
            return Err(FerrumError::WrongArity { cmd: "PERSIST" });
        }
        return Ok(Command::Persist { key: arg(parts, 1) });
    }
    if is_word(name, "TTL") {
        if parts.len() != 2 {
            return Err(FerrumError::WrongArity { cmd: "TTL" });
        }
        return Ok(Command::Ttl { key: arg(parts, 1) });
    }
    if is_word(name, "PTTL") {
        if parts.len() != 2 {
            return Err(FerrumError::WrongArity { cmd: "PTTL" });
        }
        return Ok(Command::PTtl { key: arg(parts, 1) });
    }
    if is_word(name, "DBSIZE") {
        if parts.len() != 1 {
            return Err(FerrumError::WrongArity { cmd: "DBSIZE" });
        }
        return Ok(Command::DbSize);
    }
    if is_word(name, "FLUSHDB") {
        if parts.len() != 1 {
            return Err(FerrumError::WrongArity { cmd: "FLUSHDB" });
        }
        return Ok(Command::FlushDb);
    }
    if is_word(name, "BGREWRITEAOF") {
        if parts.len() != 1 {
            return Err(FerrumError::WrongArity { cmd: "BGREWRITEAOF" });
        }
        return Ok(Command::BgRewriteAof);
    }
    if is_word(name, "AUTH") {
        if parts.len() != 2 {
            return Err(FerrumError::WrongArity { cmd: "AUTH" });
        }
        return Ok(Command::Auth { password: arg(parts, 1) });
    }
    if is_word(name, "DEL") {
        if parts.len() < 2 {
            return Err(FerrumError::WrongArity { cmd: "DEL" });
        }
        return Ok(Command::Del { keys: args_from_one(parts) });
    }
    if is_word(name, "EXISTS") {
        if parts.len() < 2 {
            return Err(FerrumError::WrongArity { cmd: "EXISTS" });
        }
        return Ok(Command::Exists { keys: args_from_one(parts) });
    }
    if is_word(name, "MGET") {
        if parts.len() < 2 {
            return Err(FerrumError::WrongArity { cmd: "MGET" });
        }
        return Ok(Command::MGet { keys: args_from_one(parts) });
    }
    if is_word(name, "MSET") {
        if parts.len() < 3 || parts.len() % 2 == 0 {
            return Err(FerrumError::WrongArity { cmd: "MSET" });
        }
        return Ok(Command::MSet { pairs: pairs_from_one(parts) });
    }
    if is_word(name, "INCR") {
        if parts.len() != 2 {
            return Err(FerrumError::WrongArity { cmd: "INCR" });
        }
        return Ok(Command::IncrBy { key: arg(parts, 1), delta: 1 });
    }
    if is_word(name, "DECR") {
        if parts.len() != 2 {
            return Err(FerrumError::WrongArity { cmd: "DECR" });
        }
        return Ok(Command::IncrBy { key: arg(parts, 1), delta: -1 });
    }
    if is_word(name, "INCRBY") {
        if parts.len() != 3 {
            return Err(FerrumError::WrongArity { cmd: "INCRBY" });
        }
        return match parse_delta(parts[2].as_slice(), false) {
            Some(delta) => Ok(Command::IncrBy { key: arg(parts, 1), delta }),
            None => Err(not_integer()),
        };
    }
    if is_word(name, "DECRBY") {
        if parts.len() != 3 {
            return Err(FerrumError::WrongArity { cmd: "DECRBY" });
        }
        return match parse_delta(parts[2].as_slice(), true) {
            Some(delta) => Ok(Command::IncrBy { key: arg(parts, 1), delta }),
            None => Err(not_integer()),
        };
    }
    if is_word(name, "PING") {
        return if parts.len() == 1 {
            Ok(Command::Ping { msg: None })
        } else if parts.len() == 2 {
            Ok(Command::Ping { msg: Some(arg(parts, 1)) })
        } else {
            Err(FerrumError::WrongArity { cmd: "PING" })
        };
    }
    if is_word(name, "INFO") {
        return if parts.len() == 1 {
            Ok(Command::Info { section: None })
        } else if parts.len() == 2 {
            Ok(Command::Info { section: Some(arg(parts, 1)) })
        } else {
            Err(FerrumError::WrongArity { cmd: "INFO" })
        };
    }
    if is_word(name, "MEMORY") {
        return memory_command(parts);
    }
    if is_word(name, "CONFIG") {
        return config_command(parts);
    }
    if is_word(name, "SLOWLOG") {
        return slowlog_command(parts);
    }
    Err(FerrumError::UnknownCommand(readable_text(name)))
}

/// What the front of a buffer holds.
#[derive(Debug)]
pub enum FrameParse {
    /// A command, in the first `consumed` bytes.
    Complete { command: Command, consumed: usize },
    /// A frame that is no command, in the first `consumed` bytes.
    Invalid { error: FerrumError, consumed: usize },
    /// The start of a frame; more bytes are needed.
    Incomplete,
}

/// The answer to bytes that are no frame.
pub open spec fn protocol_error() -> ErrorView {
    ErrorView::ParseError("Protocol error: expected an array of bulk strings"@)
}

/// How the outcome of [`parse_frame`] follows from the buffer.
pub open spec fn frame_outcome(buf: Seq<u8>, r: Result<FrameParse, FerrumError>) -> bool {
    if buf.len() == 0 {
        r matches Ok(FrameParse::Incomplete)
    } else {
        match read_frame_at(buf, 0) {
            Step::Short => r matches Ok(FrameParse::Incomplete),
            Step::Bad { end } => r matches Err(e) && e@ == protocol_error(),
            Step::Done { value: parts, end } => match wire_meaning(parts) {
                Ok(c) => r matches Ok(FrameParse::Complete { command, consumed }) && command@ == c
                    && consumed == end,
                Err(f) => r matches Ok(FrameParse::Invalid { error, consumed }) && error@ == f
                    && consumed == end,
            },
        }
    }
}

/// Reads the first command of a buffer.
///
/// A frame that is well formed but no command is reported with its length, so
/// that reading can go on behind it. Bytes that are no frame are an error: the
/// stream cannot be brought back into step.
pub fn parse_frame(buf: &[u8]) -> (r: Result<FrameParse, FerrumError>)
    ensures
        frame_outcome(buf@, r),
        match r {
            Ok(FrameParse::Complete { command, consumed }) => 0 < consumed <= buf.len(),
            Ok(FrameParse::Invalid { error, consumed }) => 0 < consumed <= buf.len(),
            _ => true,
        },
{
    match read_record(buf, 0) {
        RecordRead::End => Ok(FrameParse::Incomplete),
        RecordRead::Partial { consumed } => Ok(FrameParse::Incomplete),
        RecordRead::Malformed { consumed } => Err(
            FerrumError::ParseError(
                "Protocol error: expected an array of bulk strings".to_owned(),
            ),
        ),
        RecordRead::Record { parts, consumed } => match command_from_parts(parts.as_slice()) {
            Ok(command) => Ok(FrameParse::Complete { command, consumed }),
            Err(error) => Ok(FrameParse::Invalid { error, consumed }),
        },
    }
}

/// Command names are read without regard to ASCII case.
pub proof fn law_command_names_ignore_case(p: Seq<Seq<u8>>, q: Seq<Seq<u8>>)
    requires
        p.len() > 0,
        q.len() == p.len(),
        upper_bytes(p[0]) == upper_bytes(q[0]),
        p.skip(1) == q.skip(1),
    ensures
        wire_meaning(p) == wire_meaning(q),
{
    assert forall|i: int| 1 <= i < p.len() implies p[i] == q[i] by {
        assert(p.skip(1)[i - 1] == p[i]);
        assert(q.skip(1)[i - 1] == q[i]);
    }
}

} // verus!
