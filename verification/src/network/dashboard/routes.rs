//! The routes of the dashboard.
//!
//! A request and the engine give a response; nothing here touches a socket.

use vstd::prelude::*;
use vstd::slice::slice_subrange;
use vstd::string::*;
use vstd::utf8::encode_utf8;

use crate::clock::Clock;
use crate::decimal::{parse_bounded, parse_i64, text_to_bounded, text_to_i64};
use crate::network::dashboard::console::{
    decode_resp, encode_resp_array, shown, tokenize_command, words_of,
};
use crate::network::dashboard::form::{
    body_fields, field_value, field_views, form_fields, parse_body, parse_query, url_decode,
    url_decoded, value_of,
};
use crate::network::dashboard::json::{json_string, json_text, push_signed, signed_text};
use crate::network::dashboard::message::{
    html_response, json_response, status_response, Request, RequestView, Response, ResponseView,
};
use crate::network::execute::{clamp_i64, execute_at, executed, reported_memory};
use crate::network::server::starts_rewrite;
use crate::persistence::resp::{command_frame, vec_views};
use crate::protocol::frame::{
    parse_frame, protocol_error, wire_meaning, Command, FrameParse, WireCommand,
};
use crate::protocol::reader::{law_frame_reads_back, read_frame_at, Step};
use crate::storage::engine::laws::{law_del_then_get, law_set_then_get};
use crate::storage::engine::model::{EngineView, TtlStatus};
use crate::storage::engine::KvEngine;
use crate::storage::keyspace::sorted_keys;
use crate::text::{
    bytes_of, chars_of, readable, readable_text, number_text, push_number, same_text, text_of,
};

verus! {

/// The default size of a page of keys.
pub const KEYS_PER_PAGE: usize = 50;

/// Figures that are measured outside the engine, the ratios already as text.
#[derive(Debug)]
pub struct Figures {
    pub version: String,
    pub uptime_secs: u64,
    pub hit_ratio: String,
    pub ahe_alpha: String,
    pub ahe_hit_ratio: String,
}

/// What comes of a request.
#[derive(Debug)]
pub struct Outcome {
    pub response: Response,
    /// Whether a log rewrite is to be started.
    pub start_rewrite: bool,
}

/// A request's response, the engine after it, and whether a log rewrite is to
/// be started.
#[verifier::ext_equal]
pub struct Effect {
    pub response: ResponseView,
    pub engine: EngineView,
    pub rewrite: bool,
}

/// A response that leaves the engine as it is.
pub open spec fn answer_only(response: ResponseView, engine: EngineView) -> Effect {
    Effect { response, engine, rewrite: false }
}

/// An error as a JSON document.
pub open spec fn error_response(status: u16, message: Seq<char>) -> ResponseView {
    json_response(status, "{\"error\":"@ + json_text(message) + "}"@)
}

fn json_error(status: u16, message: &str) -> (r: Response)
    ensures
        r@ == error_response(status, message@),
{
    let mut text: String = "{\"error\":".to_owned();
    text.append(json_string(message).as_str());
    text.append("}");
    Response::json(status, text.as_str())
}

/// The figures of the engine and its surroundings as a JSON document.
#[verifier::opaque]
pub open spec fn info_text(s: EngineView, f: Figures, now: Clock) -> Seq<char> {
    "{\"version\":\""@ + f.version@ + "\",\"uptime_sec\":"@ + number_text(f.uptime_secs as nat)
        + ",\"keys\":"@ + number_text(s.live_keys(sorted_keys(s.store), now).len())
        + ",\"used_memory\":"@ + number_text(
            reported_memory(s),
        ) + ",\"max_memory\":"@ + number_text(
        s.cfg.max_memory as nat,
    ) + ",\"eviction_policy\":\""@ + s.cfg.policy.wire_name() + "\",\"hits\":"@ + number_text(
        s.hits as nat,
    ) + ",\"misses\":"@ + number_text(s.misses as nat) + ",\"hit_ratio\":"@ + f.hit_ratio@
        + ",\"ahe_alpha\":"@ + f.ahe_alpha@ + ",\"ahe_hit_ratio\":"@ + f.ahe_hit_ratio@
        + ",\"expires\":"@ + number_text(s.timed_keys(now).len()) + ",\"avg_ttl_ms\":"@
        + number_text(s.mean_ttl(now)) + "}"@
}

fn info_json(engine: &KvEngine, figures: &Figures, now: Clock) -> (text: String)
    requires
        engine.wf(),
    ensures
        text@ == info_text(engine@, *figures, now),
{
    proof {
        reveal(info_text);
    }
    let cfg = engine.config();
    let (hits, misses) = engine.keyspace_stats();
    let (expires, avg_ttl) = engine.expire_stats_at(now);
    let mut text: String = "{\"version\":\"".to_owned();
    text.append(figures.version.as_str());
    text.append("\",\"uptime_sec\":");
    push_number(&mut text, figures.uptime_secs);
    text.append(",\"keys\":");
    push_number(&mut text, engine.dbsize_at(now) as u64);
    text.append(",\"used_memory\":");
    push_number(&mut text, engine.used_memory());
    text.append(",\"max_memory\":");
    push_number(&mut text, cfg.max_memory);
    text.append(",\"eviction_policy\":\"");
    text.append(cfg.policy.name());
    text.append("\",\"hits\":");
    push_number(&mut text, hits);
    text.append(",\"misses\":");
    push_number(&mut text, misses);
    text.append(",\"hit_ratio\":");
    text.append(figures.hit_ratio.as_str());
    text.append(",\"ahe_alpha\":");
    text.append(figures.ahe_alpha.as_str());
    text.append(",\"ahe_hit_ratio\":");
    text.append(figures.ahe_hit_ratio.as_str());
    text.append(",\"expires\":");
    push_number(&mut text, expires as u64);
    text.append(",\"avg_ttl_ms\":");
    push_number(&mut text, avg_ttl);
    text.append("}");
    text
}

/// A remaining lifetime as a number; `-1` where there is none.
pub open spec fn ttl_number(t: TtlStatus) -> int {
    match t {
        TtlStatus::Millis(ms) => ms as int,
        _ => -1,
    }
}

fn ttl_value(t: TtlStatus) -> (n: i64)
    ensures
        n == ttl_number(t),
{
    match t {
        TtlStatus::Millis(ms) => ms,
        _ => -1,
    }
}

/// One line of a key listing.
pub open spec fn key_line(s: EngineView, key: Seq<u8>, now: Clock) -> Seq<char> {
    "{\"key\":"@ + json_text(readable(key)) + ",\"type\":\"string\",\"ttl_ms\":"@ + signed_text(
        ttl_number(s.ttl(key, now)),
    ) + "}"@
}

/// The lines of a key listing, with commas between them.
pub open spec fn key_lines(s: EngineView, keys: Seq<Seq<u8>>, now: Clock) -> Seq<char>
    decreases keys.len(),
{
    if keys.len() == 0 {
        Seq::empty()
    } else if keys.len() == 1 {
        key_line(s, keys[0], now)
    } else {
        key_lines(s, keys.drop_last(), now) + ","@ + key_line(s, keys.last(), now)
    }
}

/// A number among the fields; a default where it is missing or no number.
pub open spec fn number_field(
    fields: Seq<(Seq<char>, Seq<char>)>,
    name: Seq<char>,
    default: usize,
) -> nat {
    match value_of(fields, name) {
        Some(v) => match text_to_bounded(encode_utf8(v), usize::MAX as u64) {
            Some(n) => n as nat,
            None => default as nat,
        },
        None => default as nat,
    }
}

fn read_number(fields: &[(String, String)], name: &str, default: usize) -> (n: usize)
    ensures
        n == number_field(field_views(fields@), name@, default),
{
    match field_value(fields, name) {
        Some(v) => match parse_bounded(v.as_str().as_bytes(), usize::MAX as u64) {
            Some(n) => n as usize,
            None => default,
        },
        None => default,
    }
}

/// The pattern of a key listing; all keys where none is given.
pub open spec fn filter_of(fields: Seq<(Seq<char>, Seq<char>)>) -> Seq<char> {
    match value_of(fields, "filter"@) {
        Some(f) => f,
        None => "*"@,
    }
}

/// The smaller of two numbers.
pub open spec fn smaller(a: nat, b: nat) -> nat {
    if a < b {
        a
    } else {
        b
    }
}

/// A page of keys as a JSON document.
#[verifier::opaque]
pub open spec fn keys_text(s: EngineView, query: Seq<char>, now: Clock) -> Seq<char> {
    let fields = form_fields(encode_utf8(query));
    let all = s.scanned(encode_utf8(filter_of(fields)), now);
    let offset = number_field(fields, "offset"@, 0);
    let limit = number_field(fields, "limit"@, KEYS_PER_PAGE);
    let first = smaller(offset, all.len());
    let last = smaller(offset + limit, all.len());
    "{\"total\":"@ + number_text(all.len()) + ",\"count\":"@ + number_text((last - first) as nat)
        + ",\"offset\":"@ + number_text(offset) + ",\"keys\":["@ + key_lines(
        s,
        all.subrange(first as int, last as int),
        now,
    ) + "]}"@
}

/// Listed keys are live, so asking for their lifetimes drops none of them.
pub proof fn lemma_scanned_live(s: EngineView, pattern: Seq<u8>, now: Clock, i: int)
    requires
        0 <= i < s.scanned(pattern, now).len(),
    ensures
        s.live(s.scanned(pattern, now)[i], now),
        s.purged(s.scanned(pattern, now)[i], now) == s,
{
    let keys = sorted_keys(s.store);
    let wanted = |k: Seq<u8>| s.live(k, now) && crate::storage::engine::glob::glob(pattern, k);
    keys.lemma_filter_pred(wanted, i);
}

fn keys_json(engine: &mut KvEngine, query: &str, now: Clock) -> (text: String)
    requires
        old(engine).wf(),
    ensures
        final(engine).wf(),
        final(engine)@ == old(engine)@,
        text@ == keys_text(old(engine)@, query@, now),
{
    proof {
        reveal(keys_text);
    }
    let ghost s = engine@;
    let fields: Vec<(String, String)> = parse_query(query.as_bytes());
    let filter: String = match field_value(fields.as_slice(), "filter") {
        Some(f) => f,
        None => "*".to_owned(),
    };
    let limit: usize = read_number(fields.as_slice(), "limit", KEYS_PER_PAGE);
    let offset: usize = read_number(fields.as_slice(), "offset", 0);
    let all: Vec<Vec<u8>> = engine.scan_keys_at(filter.as_str().as_bytes(), now);
    let ghost keys = vec_views(all@);
    let ghost pattern = encode_utf8(filter@);
    let total: usize = all.len();
    let first: usize = if offset < total {
        offset
    } else {
        total
    };
    let last: usize = if limit < total - first {
        first + limit
    } else {
        total
    };
    let mut items: String = String::new();
    let mut i: usize = first;
    assert(keys.subrange(first as int, first as int) =~= Seq::<Seq<u8>>::empty());
    assert(items@ =~= key_lines(s, keys.subrange(first as int, first as int), now));
    while i < last
        invariant
            first <= i <= last <= all.len(),
            engine.wf(),
            engine@ == s,
            keys == vec_views(all@),
            keys == s.scanned(pattern, now),
            items@ == key_lines(s, keys.subrange(first as int, i as int), now),
        decreases last - i,
    {
        let ghost before = items@;
        let ghost page = keys.subrange(first as int, i as int + 1);
        proof {
            lemma_scanned_live(s, pattern, now, i as int);
            assert(keys[i as int] == all@[i as int]@);
            assert(page.drop_last() =~= keys.subrange(first as int, i as int));
            assert(page.last() == keys[i as int]);
        }
        if i > first {
            items.append(",");
        }
        let name: String = readable_text(all[i].as_slice());
        items.append("{\"key\":");
        items.append(json_string(name.as_str()).as_str());
        items.append(",\"type\":\"string\",\"ttl_ms\":");
        let ttl: TtlStatus = engine.ttl_of(all[i].as_slice(), now);
        push_signed(&mut items, ttl_value(ttl));
        items.append("}");
        proof {
            let line = key_line(s, keys[i as int], now);
            if i == first {
                assert(items@ =~= line);
            } else {
                assert(items@ =~= before + ","@ + line);
            }
            assert(items@ =~= key_lines(s, page, now));
        }
        i += 1;
    }
    let mut text: String = "{\"total\":".to_owned();
    push_number(&mut text, total as u64);
    text.append(",\"count\":");
    push_number(&mut text, (last - first) as u64);
    text.append(",\"offset\":");
    push_number(&mut text, offset as u64);
    text.append(",\"keys\":[");
    text.append(items.as_str());
    text.append("]}");
    text
}

/// The text that shows one key.
pub open spec fn detail_text(key: Seq<u8>, value: Seq<u8>, ttl: TtlStatus) -> Seq<char> {
    "{\"key\":"@ + json_text(readable(key)) + ",\"type\":\"string\",\"value\":"@ + json_text(
        readable(value),
    ) + ",\"ttl_ms\":"@ + signed_text(ttl_number(ttl)) + "}"@
}

/// The reply to a request for one key.
#[verifier::opaque]
pub open spec fn detail_effect(s: EngineView, key: Seq<u8>, now: Clock) -> Effect {
    let (value, after) = s.fetched(key, now);
    match value {
        Some(v) => answer_only(
            json_response(
                200,
                detail_text(key, v, after.ttl(key, now)),
            ),
            after.purged(key, now),
        ),
        None => answer_only(error_response(404, "key not found"@), after),
    }
}

fn key_detail(engine: &mut KvEngine, key: &[u8], now: Clock) -> (r: Response)
    requires
        old(engine).wf(),
    ensures
        final(engine).wf(),
        answer_only(r@, final(engine)@) == detail_effect(old(engine)@, key@, now),
{
    proof {
        reveal(detail_effect);
    }
    match engine.fetch_live(key, now) {
        Some(value) => {
            let value_text: String = readable_text(value.as_slice());
            let key_text: String = readable_text(key);
            let ttl: TtlStatus = engine.ttl_of(key, now);
            let mut text: String = "{\"key\":".to_owned();
            text.append(json_string(key_text.as_str()).as_str());
            text.append(",\"type\":\"string\",\"value\":");
            text.append(json_string(value_text.as_str()).as_str());
            text.append(",\"ttl_ms\":");
            push_signed(&mut text, ttl_value(ttl));
            text.append("}");
            Response::ok_json(text.as_str())
        },
        None => json_error(404, "key not found"),
    }
}

/// A lifetime field applied to a key: a positive number of seconds sets a
/// deadline, zero takes it off, and anything else is ignored.
pub open spec fn with_ttl(
    s: EngineView,
    key: Seq<u8>,
    ttl: Option<Seq<char>>,
    now: Clock,
) -> EngineView {
    match ttl {
        Some(t) => match text_to_i64(encode_utf8(t)) {
            Some(seconds) => if seconds > 0 {
                s.expire_at(key, clamp_i64(now.epoch_ms + seconds * 1000), now).1
            } else if seconds == 0 {
                s.persist(key, now).1
            } else {
                s
            },
            None => s,
        },
        None => s,
    }
}

/// Applies a lifetime field.
fn apply_ttl(engine: &mut KvEngine, key: &[u8], ttl: Option<String>, now: Clock)
    requires
        old(engine).wf(),
    ensures
        final(engine).wf(),
        final(engine)@ == with_ttl(old(engine)@, key@, crate::config::file::opt_text(ttl), now),
{
    match ttl {
        Some(t) => match parse_i64(t.as_str().as_bytes()) {
            Some(seconds) => {
                if seconds > 0 {
                    let exact: i128 = now.epoch_ms as i128 + seconds as i128 * 1000;
                    let deadline: i64 = if exact > i64::MAX as i128 {
                        i64::MAX
                    } else {
                        exact as i64
                    };
                    let _done: bool = engine.expire_at(key, deadline, now);
                } else if seconds == 0 {
                    let _done: bool = engine.persist_at(key, now);
                }
            },
            None => {},
        },
        None => {},
    }
}

/// A value written by a form.
pub open spec fn write_effect(
    s: EngineView,
    key: Seq<u8>,
    value: Seq<char>,
    ttl: Option<Seq<char>>,
    done: Seq<char>,
    now: Clock,
) -> Effect {
    let (r, after) = s.set(key, encode_utf8(value), now);
    match r {
        Ok(_) => answer_only(json_response(200, done), with_ttl(after, key, ttl, now)),
        Err(e) => answer_only(error_response(500, e.message()), after),
    }
}

fn write_value(
    engine: &mut KvEngine,
    key: &[u8],
    value: &str,
    ttl: Option<String>,
    done: &str,
    now: Clock,
) -> (r: Response)
    requires
        old(engine).wf(),
    ensures
        final(engine).wf(),
        answer_only(r@, final(engine)@) == write_effect(
            old(engine)@,
            key@,
            value@,
            crate::config::file::opt_text(ttl),
            done@,
            now,
        ),
{
    match engine.insert(crate::bytes::copied(key), bytes_of(value), now) {
        Ok(_) => {
            apply_ttl(engine, key, ttl, now);
            Response::ok_json(done)
        },
        Err(e) => json_error(500, e.to_string().as_str()),
    }
}

/// The reply to a new key.
#[verifier::opaque]
pub open spec fn create_effect(s: EngineView, body: Seq<u8>, now: Clock) -> Effect {
    let fields = body_fields(body);
    let key = value_of(fields, "key"@);
    match key {
        Some(k) => if k.len() > 0 {
            write_effect(
                s,
                encode_utf8(k),
                match value_of(fields, "value"@) {
                    Some(v) => v,
                    None => Seq::empty(),
                },
                value_of(fields, "ttl"@),
                "{\"ok\":true,\"key\":"@ + json_text(k) + "}"@,
                now,
            )
        } else {
            answer_only(error_response(400, "missing 'key'"@), s)
        },
        None => answer_only(error_response(400, "missing 'key'"@), s),
    }
}

fn create_key(engine: &mut KvEngine, body: &[u8], now: Clock) -> (r: Response)
    requires
        old(engine).wf(),
    ensures
        final(engine).wf(),
        answer_only(r@, final(engine)@) == create_effect(old(engine)@, body@, now),
{
    proof {
        reveal(create_effect);
    }
    let fields: Vec<(String, String)> = parse_body(body);
    let key: String = match field_value(fields.as_slice(), "key") {
        Some(k) => k,
        None => {
            return json_error(400, "missing 'key'");
        },
    };
    let letters: Vec<char> = chars_of(key.as_str());
    if letters.len() == 0 {
        return json_error(400, "missing 'key'");
    }
    let value: String = match field_value(fields.as_slice(), "value") {
        Some(v) => v,
        None => {
            let nothing: String = String::new();
            assert(nothing@ =~= Seq::<char>::empty());
            nothing
        },
    };
    let ttl: Option<String> = field_value(fields.as_slice(), "ttl");
    let mut done: String = "{\"ok\":true,\"key\":".to_owned();
    done.append(json_string(key.as_str()).as_str());
    done.append("}");
    write_value(engine, key.as_str().as_bytes(), value.as_str(), ttl, done.as_str(), now)
}

/// The reply to a changed key.
#[verifier::opaque]
pub open spec fn update_effect(s: EngineView, key: Seq<u8>, body: Seq<u8>, now: Clock) -> Effect {
    let fields = body_fields(body);
    match value_of(fields, "value"@) {
        Some(v) => write_effect(s, key, v, value_of(fields, "ttl"@), "{\"ok\":true}"@, now),
        None => answer_only(error_response(400, "missing 'value'"@), s),
    }
}

fn update_key(engine: &mut KvEngine, key: &[u8], body: &[u8], now: Clock) -> (r: Response)
    requires
        old(engine).wf(),
    ensures
        final(engine).wf(),
        answer_only(r@, final(engine)@) == update_effect(old(engine)@, key@, body@, now),
{
    proof {
        reveal(update_effect);
    }
    let fields: Vec<(String, String)> = parse_body(body);
    let value: String = match field_value(fields.as_slice(), "value") {
        Some(v) => v,
        None => {
            return json_error(400, "missing 'value'");
        },
    };
    let ttl: Option<String> = field_value(fields.as_slice(), "ttl");
    write_value(engine, key, value.as_str(), ttl, "{\"ok\":true}", now)
}

/// The reply to a deletion.
#[verifier::opaque]
pub open spec fn delete_effect(s: EngineView, key: Seq<u8>, now: Clock) -> Effect {
    answer_only(
        json_response(
            200,
            if s.live(key, now) {
                "{\"deleted\":true}"@
            } else {
                "{\"deleted\":false}"@
            },
        ),
        s.deleted(key, now),
    )
}

fn delete_key(engine: &mut KvEngine, key: &[u8], now: Clock) -> (r: Response)
    requires
        old(engine).wf(),
    ensures
        final(engine).wf(),
        answer_only(r@, final(engine)@) == delete_effect(old(engine)@, key@, now),
{
    proof {
        reveal(delete_effect);
    }
    if engine.remove(key, now) {
        Response::ok_json("{\"deleted\":true}")
    } else {
        Response::ok_json("{\"deleted\":false}")
    }
}

/// The reply to a console command, with its effect.
pub open spec fn console_effect(s: EngineView, c: WireCommand, now: Clock) -> Effect {
    let (reply, after) = executed(s, c, now);
    Effect {
        response: json_response(
            200,
            "{\"ok\":true,\"response\":"@ + json_text(shown(reply)) + "}"@,
        ),
        engine: after,
        rewrite: starts_rewrite(s, c),
    }
}

/// The reply to a command line that is run as a frame.
pub open spec fn line_effect(s: EngineView, words: Seq<Seq<u8>>, now: Clock) -> Effect {
    match read_frame_at(command_frame(words), 0) {
        Step::Short => answer_only(error_response(400, "incomplete command"@), s),
        Step::Bad { end } => answer_only(error_response(400, protocol_error().message()), s),
        Step::Done { value: parts, end } => match wire_meaning(parts) {
            Ok(c) => console_effect(s, c, now),
            Err(e) => answer_only(error_response(400, e.message()), s),
        },
    }
}

/// The reply to the console form.
#[verifier::opaque]
pub open spec fn command_effect(s: EngineView, body: Seq<u8>, now: Clock) -> Effect {
    match value_of(body_fields(body), "command"@) {
        Some(line) => match words_of(encode_utf8(line)) {
            Some(words) => if words.len() > 0 {
                line_effect(s, words, now)
            } else {
                answer_only(error_response(400, "empty command"@), s)
            },
            None => answer_only(error_response(400, "empty command"@), s),
        },
        None => answer_only(error_response(400, "missing 'command'"@), s),
    }
}

/// Executes a command and shows its reply.
fn run_parsed(engine: &mut KvEngine, command: Command, now: Clock) -> (o: Outcome)
    requires
        old(engine).wf(),
    ensures
        final(engine).wf(),
        o.response@ == console_effect(old(engine)@, command@, now).response,
        final(engine)@ == console_effect(old(engine)@, command@, now).engine,
        o.start_rewrite == console_effect(old(engine)@, command@, now).rewrite,
{
    let start_rewrite: bool = match &command {
        Command::BgRewriteAof => match engine.rewrite_aof() {
            Ok(yes) => yes,
            Err(_) => false,
        },
        _ => false,
    };
    let ghost reply = executed(engine@, command@, now).0;
    let mut out: Vec<u8> = Vec::new();
    execute_at(command, engine, &mut out, now);
    assert(out@ =~= reply);
    let response: String = decode_resp(out.as_slice());
    let mut text: String = "{\"ok\":true,\"response\":".to_owned();
    text.append(json_string(response.as_str()).as_str());
    text.append("}");
    Outcome { response: Response::ok_json(text.as_str()), start_rewrite }
}

/// Runs a command line through the parser and the executor that serve the wire.
fn run_command(engine: &mut KvEngine, body: &[u8], now: Clock) -> (o: Outcome)
    requires
        old(engine).wf(),
    ensures
        final(engine).wf(),
        o.response@ == command_effect(old(engine)@, body@, now).response,
        final(engine)@ == command_effect(old(engine)@, body@, now).engine,
        o.start_rewrite == command_effect(old(engine)@, body@, now).rewrite,
{
    proof {
        reveal(command_effect);
    }
    let fields: Vec<(String, String)> = parse_body(body);
    let line: String = match field_value(fields.as_slice(), "command") {
        Some(c) => c,
        None => {
            return Outcome {
                response: json_error(400, "missing 'command'"),
                start_rewrite: false,
            };
        },
    };
    let argv: Vec<Vec<u8>> = match tokenize_command(line.as_str().as_bytes()) {
        Some(argv) => argv,
        None => {
            return Outcome { response: json_error(400, "empty command"), start_rewrite: false };
        },
    };
    if argv.len() == 0 {
        return Outcome { response: json_error(400, "empty command"), start_rewrite: false };
    }
    let frame: Vec<u8> = encode_resp_array(argv.as_slice());
    assert(frame@.len() > 0);
    match parse_frame(frame.as_slice()) {
        Ok(FrameParse::Complete { command, consumed }) => run_parsed(engine, command, now),
        Ok(FrameParse::Invalid { error, consumed }) => Outcome {
            response: json_error(400, error.to_string().as_str()),
            start_rewrite: false,
        },
        Ok(FrameParse::Incomplete) => Outcome {
            response: json_error(400, "incomplete command"),
            start_rewrite: false,
        },
        Err(e) => Outcome {
            response: json_error(400, e.to_string().as_str()),
            start_rewrite: false,
        },
    }
}

/// Whether a path names one key.
pub open spec fn names_key(path: Seq<char>) -> bool {
    path.len() >= "/api/keys/"@.len() && path.take("/api/keys/"@.len() as int) == "/api/keys/"@
}

/// The key that a path names.
pub open spec fn key_of(path: Seq<char>) -> Seq<u8> {
    encode_utf8(url_decoded(encode_utf8(path.skip("/api/keys/"@.len() as int))))
}

/// The key that a path names, if it names one.
fn path_key(path: &str) -> (key: Option<Vec<u8>>)
    ensures
        match key {
            Some(k) => names_key(path@) && k@ == key_of(path@),
            None => !names_key(path@),
        },
{
    let prefix: Vec<char> = chars_of("/api/keys/");
    let chars: Vec<char> = chars_of(path);
    if chars.len() < prefix.len() {
        return None;
    }
    let mut i: usize = 0;
    while i < prefix.len()
        invariant
            i <= prefix.len() <= chars.len(),
            chars@ == path@,
            prefix@ == "/api/keys/"@,
            forall|j: int| 0 <= j < i ==> chars@[j] == prefix@[j],
        decreases prefix.len() - i,
    {
        if chars[i] != prefix[i] {
            assert(path@.take(prefix@.len() as int)[i as int] == chars@[i as int]);
            return None;
        }
        i += 1;
    }
    assert(path@.take(prefix@.len() as int) =~= prefix@);
    let rest: &[char] = slice_subrange(chars.as_slice(), prefix.len(), chars.len());
    assert(rest@ =~= path@.skip(prefix@.len() as int));
    let raw: String = text_of(rest);
    Some(bytes_of(url_decode(raw.as_str().as_bytes()).as_str()))
}

/// What becomes of a request for one key.
#[verifier::opaque]
pub open spec fn key_effect(s: EngineView, key: Seq<u8>, r: RequestView, now: Clock) -> Effect {
    if r.method == "GET"@ {
        detail_effect(s, key, now)
    } else if r.method == "DELETE"@ {
        delete_effect(s, key, now)
    } else if r.method == "POST"@ || r.method == "PUT"@ {
        update_effect(s, key, r.body, now)
    } else {
        answer_only(status_response(405), s)
    }
}

fn key_route(engine: &mut KvEngine, key: &[u8], req: &Request, now: Clock) -> (r: Response)
    requires
        old(engine).wf(),
    ensures
        final(engine).wf(),
        answer_only(r@, final(engine)@) == key_effect(old(engine)@, key@, req@, now),
{
    proof {
        reveal(key_effect);
    }
    let method: &str = req.method.as_str();
    if same_text(method, "GET") {
        key_detail(engine, key, now)
    } else if same_text(method, "DELETE") {
        delete_key(engine, key, now)
    } else if same_text(method, "POST") || same_text(method, "PUT") {
        update_key(engine, key, req.body.as_slice(), now)
    } else {
        Response::with_status(405)
    }
}

/// What becomes of a request.
pub open spec fn routed(
    s: EngineView,
    page: Seq<char>,
    f: Figures,
    r: RequestView,
    now: Clock,
) -> Effect {
    if r.path == "/"@ {
        if r.method == "GET"@ {
            answer_only(html_response(page), s)
        } else {
            answer_only(status_response(405), s)
        }
    } else if r.path == "/api/info"@ {
        if r.method == "GET"@ {
            answer_only(json_response(200, info_text(s, f, now)), s)
        } else {
            answer_only(status_response(405), s)
        }
    } else if r.path == "/api/keys"@ {
        if r.method == "GET"@ {
            answer_only(json_response(200, keys_text(s, r.query, now)), s)
        } else if r.method == "POST"@ {
            create_effect(s, r.body, now)
        } else {
            answer_only(status_response(405), s)
        }
    } else if r.path == "/api/command"@ {
        if r.method == "POST"@ {
            command_effect(s, r.body, now)
        } else {
            answer_only(status_response(405), s)
        }
    } else if names_key(r.path) {
        key_effect(s, key_of(r.path), r, now)
    } else {
        answer_only(status_response(404), s)
    }
}

/// Routes a request at a given time.
pub fn route_at(
    engine: &mut KvEngine,
    page: &str,
    figures: &Figures,
    req: &Request,
    now: Clock,
) -> (o: Outcome)
    requires
        old(engine).wf(),
    ensures
        final(engine).wf(),
        o.response@ == routed(old(engine)@, page@, *figures, req@, now).response,
        final(engine)@ == routed(old(engine)@, page@, *figures, req@, now).engine,
        o.start_rewrite == routed(old(engine)@, page@, *figures, req@, now).rewrite,
{
    let path: &str = req.path.as_str();
    let method: &str = req.method.as_str();
    let get: bool = same_text(method, "GET");
    let post: bool = same_text(method, "POST");
    let response: Response = if same_text(path, "/") {
        if get {
            Response::text_html(page)
        } else {
            Response::with_status(405)
        }
    } else if same_text(path, "/api/info") {
        if get {
            Response::ok_json(info_json(engine, figures, now).as_str())
        } else {
            Response::with_status(405)
        }
    } else if same_text(path, "/api/keys") {
        if get {
            Response::ok_json(keys_json(engine, req.query.as_str(), now).as_str())
        } else if post {
            create_key(engine, req.body.as_slice(), now)
        } else {
            Response::with_status(405)
        }
    } else if same_text(path, "/api/command") {
        if post {
            return run_command(engine, req.body.as_slice(), now);
        }
        Response::with_status(405)
    } else {
        match path_key(path) {
            Some(key) => key_route(engine, key.as_slice(), req, now),
            None => Response::with_status(404),
        }
    };
    Outcome { response, start_rewrite: false }
}

/// The value that a form writes under a key, as the command that does it.
pub open spec fn form_command(key: Seq<u8>, value: Seq<char>) -> Option<WireCommand> {
    Some(WireCommand::SetKey { key, value: encode_utf8(value) })
}

/// The command of a console form, if its line is one.
pub open spec fn line_command(body: Seq<u8>) -> Option<WireCommand> {
    match value_of(body_fields(body), "command"@) {
        Some(line) => match words_of(encode_utf8(line)) {
            Some(words) => match read_frame_at(command_frame(words), 0) {
                Step::Done { value: parts, end } if words.len() > 0 => match wire_meaning(parts) {
                    Ok(c) => Some(c),
                    Err(_) => None,
                },
                _ => None,
            },
            None => None,
        },
        None => None,
    }
}

/// The command whose write a request asks for: the console's command, or the
/// `SET` that a form comes to.
pub open spec fn asked_command(r: RequestView) -> Option<WireCommand> {
    let fields = body_fields(r.body);
    let value = value_of(fields, "value"@);
    if r.path == "/api/command"@ {
        if r.method == "POST"@ {
            line_command(r.body)
        } else {
            None
        }
    } else if r.path == "/api/keys"@ {
        match value_of(fields, "key"@) {
            Some(k) if r.method == "POST"@ && k.len() > 0 => form_command(
                encode_utf8(k),
                match value {
                    Some(v) => v,
                    None => Seq::empty(),
                },
            ),
            _ => None,
        }
    } else if names_key(r.path) && (r.method == "POST"@ || r.method == "PUT"@) {
        match value {
            Some(v) => form_command(key_of(r.path), v),
            None => None,
        }
    } else {
        None
    }
}

fn console_command(body: &[u8]) -> (c: Option<Command>)
    ensures
        match (c, line_command(body@)) {
            (Some(x), Some(y)) => x@ == y,
            (None, None) => true,
            _ => false,
        },
{
    let fields: Vec<(String, String)> = parse_body(body);
    let line: String = field_value(fields.as_slice(), "command")?;
    let argv: Vec<Vec<u8>> = tokenize_command(line.as_str().as_bytes())?;
    if argv.len() == 0 {
        return None;
    }
    let frame: Vec<u8> = encode_resp_array(argv.as_slice());
    assert(frame@.len() > 0);
    match parse_frame(frame.as_slice()) {
        Ok(FrameParse::Complete { command, consumed }) => Some(command),
        _ => None,
    }
}

/// The command whose write a request asks for. Whoever chooses victims outside
/// the engine makes room for it before the request is routed.
pub fn write_asked(req: &Request) -> (c: Option<Command>)
    ensures
        match (c, asked_command(req@)) {
            (Some(x), Some(y)) => x@ == y,
            (None, None) => true,
            _ => false,
        },
{
    let path: &str = req.path.as_str();
    let method: &str = req.method.as_str();
    let post: bool = same_text(method, "POST");
    if same_text(path, "/api/command") {
        if post {
            return console_command(req.body.as_slice());
        }
        return None;
    }
    let fields: Vec<(String, String)> = parse_body(req.body.as_slice());
    let value: Option<String> = field_value(fields.as_slice(), "value");
    if same_text(path, "/api/keys") {
        if !post {
            return None;
        }
        let key: String = field_value(fields.as_slice(), "key")?;
        let letters: Vec<char> = chars_of(key.as_str());
        if letters.len() == 0 {
            return None;
        }
        let text: String = match value {
            Some(v) => v,
            None => {
                let nothing: String = String::new();
                assert(nothing@ =~= Seq::<char>::empty());
                nothing
            },
        };
        return Some(
            Command::SetKey { key: bytes_of(key.as_str()), value: bytes_of(text.as_str()) },
        );
    }
    if !post && !same_text(method, "PUT") {
        return None;
    }
    let key: Vec<u8> = path_key(path)?;
    let text: String = value?;
    Some(Command::SetKey { key, value: bytes_of(text.as_str()) })
}

/// Routes a request.
pub fn route(engine: &mut KvEngine, page: &str, figures: &Figures, req: &Request) -> (o: Outcome)
    requires
        old(engine).wf(),
    ensures
        final(engine).wf(),
        exists|now: Clock|
            now.epoch_ms >= 0 && (Effect {
                response: o.response@,
                engine: final(engine)@,
                rewrite: o.start_rewrite,
            }) == #[trigger] routed(old(engine)@, page@, *figures, req@, now),
{
    let now: Clock = engine.now();
    let ghost before = engine@;
    let o = route_at(engine, page, figures, req, now);
    assert((Effect { response: o.response@, engine: engine@, rewrite: o.start_rewrite }) == routed(
        before,
        page@,
        *figures,
        req@,
        now,
    ));
    o
}

/// The console runs what the wire would run: the words of the line are the
/// parts of the frame, whatever bytes they hold.
pub proof fn law_console_runs_the_wire_command(s: EngineView, words: Seq<Seq<u8>>, now: Clock)
    requires
        words.len() <= i64::MAX,
        forall|i: int| 0 <= i < words.len() ==> (#[trigger] words[i]).len() <= i64::MAX,
    ensures
        line_effect(s, words, now) == (match wire_meaning(words) {
            Ok(c) => console_effect(s, c, now),
            Err(e) => answer_only(error_response(400, e.message()), s),
        }),
{
    law_frame_reads_back(Seq::empty(), words, Seq::empty());
    assert(Seq::<u8>::empty() + command_frame(words) + Seq::<u8>::empty() =~= command_frame(words));
}

/// A value that was written through a form without a lifetime is shown as it
/// was written, at any later time; once deleted, the key is not found.
pub proof fn law_written_key_is_shown(
    s: EngineView,
    key: Seq<u8>,
    value: Seq<char>,
    done: Seq<char>,
    now: Clock,
    later: Clock,
)
    requires
        write_effect(s, key, value, None, done, now).response.status == 200,
    ensures
        detail_effect(write_effect(s, key, value, None, done, now).engine, key, later).response
            == json_response(200, detail_text(key, encode_utf8(value), TtlStatus::NoExpire)),
        detail_effect(
            delete_effect(write_effect(s, key, value, None, done, now).engine, key, now).engine,
            key,
            later,
        ).response == error_response(404, "key not found"@),
{
    reveal(detail_effect);
    reveal(delete_effect);
    law_set_then_get(s, key, encode_utf8(value), now, later);
    let after = s.set(key, encode_utf8(value), now).1;
    law_del_then_get(after, key, now, later);
    assert(after.fetched(key, later).1.ttl(key, later) == TtlStatus::NoExpire);
}

} // verus!
