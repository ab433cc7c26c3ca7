//! What clients are told when something is refused.
//!
//! The laws here give the texts of the error lines and when they come.

use vstd::prelude::*;
use vstd::string::*;
use vstd::utf8::{encode_utf8, is_ascii_chars};

use crate::bytes::upper_bytes;
use crate::clock::Clock;
use crate::config::file::lemma_number_text;
use crate::decimal::text_to_i64;
use crate::error::ErrorView;
use crate::network::execute::{
    auth_effect, bg_rewrite_aof_effect, config_set_effect, error_reply, executed, incr_by_effect,
    raw_error, set_key_effect, set_nx_effect,
};
use crate::network::laws::law_protocol_error_closes;
use crate::network::replies::{lemma_ascii, lemma_ok, reply_line, said_ok};
use crate::network::server::{
    answered, has_room, refusal_line, size_checked, stepped, ServerView, Tick,
};
use crate::protocol::frame::{protocol_error, WireCommand};
use crate::protocol::reader::{lemma_index_is, read_bulk_at, read_frame_at};
use crate::storage::engine::model::EngineView;
use crate::text::number_text;

verus! {

/// Whether a text is ASCII and one line.
pub open spec fn one_ascii_line(text: Seq<char>) -> bool {
    forall|i: int|
        0 <= i < text.len() ==> '\0' <= #[trigger] text[i] <= '\u{7f}' && text[i] != '\r'
            && text[i] != '\n'
}

/// An error line: a minus, the kind of the error and its text.
pub open spec fn told(kind: Seq<char>, text: Seq<char>) -> Seq<u8> {
    encode_utf8(seq!['-'] + kind + seq![' '] + text + seq!['\r', '\n'])
}

proof fn lemma_told(kind: Seq<char>, text: Seq<char>)
    requires
        one_ascii_line(kind),
        one_ascii_line(text),
    ensures
        raw_error(encode_utf8(kind + seq![' ']) + encode_utf8(text))
            == told(kind, text),
        raw_error(encode_utf8(kind + seq![' '] + text)) == told(
            kind,
            text,
        ),
{
    let word = kind + seq![' '];
    let both = word + text;
    let whole = seq!['-'] + kind + seq![' '] + text + seq!['\r', '\n'];
    assert(is_ascii_chars(word));
    assert(is_ascii_chars(text));
    assert(is_ascii_chars(both));
    assert(is_ascii_chars(whole));
    lemma_ascii(word);
    lemma_ascii(text);
    lemma_ascii(both);
    lemma_ascii(whole);
    let a = encode_utf8(word) + encode_utf8(text);
    assert(a =~= encode_utf8(both));
    let line = raw_error(a);
    assert(line.len() == whole.len());
    assert forall|i: int| 0 <= i < line.len() implies line[i] == encode_utf8(whole)[i] by {
        if i == 0 {
            assert(whole[0] == '-');
        } else if i <= both.len() {
            assert(whole[i] == both[i - 1]);
            assert(a[i - 1] == both[i - 1] as u8);
            if i - 1 < kind.len() {
                assert(both[i - 1] == kind[i - 1]);
            } else if i - 1 > kind.len() {
                assert(both[i - 1] == text[i - 2 - kind.len()]);
            }
        }
    }
    assert(line =~= encode_utf8(whole));
}

/// An error is told as one line with `ERR` in front of its text, and `OOM` where memory
/// ran out.
pub proof fn law_error_line(e: ErrorView)
    requires
        one_ascii_line(e.message()),
    ensures
        e == ErrorView::OutOfMemory ==> error_reply(e) == told("OOM"@, e.message()),
        e != ErrorView::OutOfMemory ==> error_reply(e) == told("ERR"@, e.message()),
{
    reveal_strlit("OOM");
    reveal_strlit("ERR");
    reveal_strlit("OOM ");
    reveal_strlit("ERR ");
    lemma_told("OOM"@, e.message());
    lemma_told("ERR"@, e.message());
    assert("OOM "@ =~= "OOM"@ + seq![' ']);
    assert("ERR "@ =~= "ERR"@ + seq![' ']);
}

/// The texts on keys and values that cannot be stored, and on full memory.
proof fn lemma_texts(len: usize)
    ensures
        (ErrorView::ParseError("key must not be empty"@)).message() == "key must not be empty"@,
        one_ascii_line("key must not be empty"@),
        one_ascii_line("key too long ("@ + number_text(len as nat) + " bytes, max 65536)"@),
        (ErrorView::KeyTooLong { len, max: 65_536 }).message() == "key too long ("@ + number_text(
            len as nat,
        ) + " bytes, max 65536)"@,
        one_ascii_line("value too large ("@ + number_text(len as nat) + " bytes, max 16777216)"@),
        (ErrorView::ValueTooLarge { len, max: 16_777_216 }).message() == "value too large ("@
            + number_text(len as nat) + " bytes, max 16777216)"@,
        one_ascii_line("command not allowed when used memory > maxmemory"@),
        one_ascii_line("value is not an integer or out of range"@),
{
    reveal_strlit("key must not be empty");
    reveal_strlit("key too long (");
    reveal_strlit("value too large (");
    reveal_strlit(" bytes, max ");
    reveal_strlit(" bytes, max 65536)");
    reveal_strlit(" bytes, max 16777216)");
    reveal_strlit(")");
    reveal_strlit("command not allowed when used memory > maxmemory");
    reveal_strlit("value is not an integer or out of range");
    lemma_number_text(len as nat);
    lemma_limits();
    assert("key too long ("@ + number_text(len as nat) + " bytes, max "@ + number_text(65_536)
        + ")"@ =~= "key too long ("@ + number_text(len as nat) + " bytes, max 65536)"@);
    assert("value too large ("@ + number_text(len as nat) + " bytes, max "@ + number_text(
        16_777_216,
    ) + ")"@ =~= "value too large ("@ + number_text(len as nat) + " bytes, max 16777216)"@);
}

/// The limits in decimal.
proof fn lemma_limits()
    ensures
        number_text(65_536) == seq!['6', '5', '5', '3', '6'],
        number_text(16_777_216) == seq!['1', '6', '7', '7', '7', '2', '1', '6'],
{
    reveal_with_fuel(crate::decimal::dec_nat, 9);
    assert(number_text(65_536) =~= seq!['6', '5', '5', '3', '6']);
    assert(number_text(16_777_216) =~= seq!['1', '6', '7', '7', '7', '2', '1', '6']);
}

/// `SET` says why it refuses a key or a value: the key first, with the length that was
/// given and the one that is allowed.
pub proof fn law_set_refusal(s: EngineView, key: Seq<u8>, value: Seq<u8>, now: Clock)
    requires
        key.len() <= usize::MAX,
        value.len() <= usize::MAX,
    ensures
        ({
            let (r, t) = executed(s, WireCommand::SetKey { key, value }, now);
            let (rx, tx) = executed(s, WireCommand::SetNx { key, value }, now);
            &&& key.len() == 0 ==> r == told("ERR"@, "key must not be empty"@) && t == s && rx == r
                && tx == s
            &&& key.len() > 65_536 ==> r == told(
                "ERR"@,
                "key too long ("@ + number_text(key.len()) + " bytes, max 65536)"@,
            ) && t == s && rx == r && tx == s
            &&& 1 <= key.len() <= 65_536 && value.len() > 16_777_216 ==> r == told(
                "ERR"@,
                "value too large ("@ + number_text(value.len()) + " bytes, max 16777216)"@,
            ) && t == s && rx == r && tx == s
        }),
{
    reveal(set_key_effect);
    reveal(set_nx_effect);
    lemma_texts(key.len() as usize);
    lemma_texts(value.len() as usize);
    law_error_line(ErrorView::ParseError("key must not be empty"@));
    law_error_line(ErrorView::KeyTooLong { len: key.len() as usize, max: 65_536 });
    law_error_line(ErrorView::ValueTooLarge { len: value.len() as usize, max: 16_777_216 });
}

/// A write for which no room can be made is told that memory ran out.
pub proof fn law_out_of_memory(s: EngineView, key: Seq<u8>, value: Seq<u8>, now: Clock)
    requires
        1 <= key.len() <= 65_536,
        value.len() <= 16_777_216,
    ensures
        s.set(key, value, now).0 is Err ==> executed(s, WireCommand::SetKey { key, value }, now).0
            == told("OOM"@, "command not allowed when used memory > maxmemory"@),
{
    reveal(set_key_effect);
    lemma_texts(0);
    law_error_line(ErrorView::OutOfMemory);
}

/// Arithmetic on what is no 64-bit integer, and arithmetic that leaves the 64 bits, is told
/// so.
pub proof fn law_not_an_integer(s: EngineView, key: Seq<u8>, delta: i64, now: Clock)
    requires
        1 <= key.len() <= 65_536,
        s.live(key, now),
        !(text_to_i64(s.store[key].data) matches Some(n) && -9_223_372_036_854_775_808 <= n + delta
            <= 9_223_372_036_854_775_807),
    ensures
        executed(s, WireCommand::IncrBy { key, delta }, now) == (
            told("ERR"@, "value is not an integer or out of range"@),
            s,
        ),
{
    reveal(incr_by_effect);
    lemma_texts(0);
    law_error_line(ErrorView::ParseError("value is not an integer or out of range"@));
}

/// A client that has to authenticate first is told so, and the engine does not change.
pub proof fn law_noauth_line(v: ServerView, c: WireCommand, parts: Seq<Seq<u8>>, t: Tick)
    requires
        v.engine.password is Some,
        !v.authenticated,
        !(c is Auth),
    ensures
        answered(v, c, parts, t).out == v.out + told("NOAUTH"@, "Authentication required."@),
        answered(v, c, parts, t).engine == v.engine,
{
    reveal_strlit("NOAUTH");
    reveal_strlit("Authentication required.");
    reveal_strlit("NOAUTH Authentication required.");
    lemma_told("NOAUTH"@, "Authentication required."@);
    assert("NOAUTH Authentication required."@ =~= "NOAUTH"@ + seq![' ']
        + "Authentication required."@);
}

/// More than 16777216 bytes without the end of a frame close the connection, with an
/// error; fewer wait.
pub proof fn law_too_large_request(v: ServerView)
    requires
        !v.closed,
    ensures
        v.buf.len() > 16_777_216 ==> size_checked(v).closed && size_checked(v).out == v.out + told(
            "ERR"@,
            "request too large"@,
        ),
        v.buf.len() <= 16_777_216 ==> size_checked(v) == v,
{
    reveal_strlit("ERR");
    reveal_strlit("request too large");
    reveal_strlit("ERR request too large");
    lemma_told("ERR"@, "request too large"@);
    assert("ERR request too large"@ =~= "ERR"@ + seq![' '] + "request too large"@);
}

/// The texts on unknown commands and on wrong numbers of arguments name the command.
pub proof fn law_refused_commands(name: Seq<char>)
    requires
        one_ascii_line(name),
    ensures
        error_reply(ErrorView::UnknownCommand(name)) == told(
            "ERR"@,
            "unknown command: '"@ + name + seq!['\''],
        ),
        error_reply(ErrorView::WrongArity(name)) == told(
            "ERR"@,
            "wrong number of arguments for '"@ + name + "' command"@,
        ),
{
    reveal_strlit("unknown command: '");
    reveal_strlit("'");
    reveal_strlit("wrong number of arguments for '");
    reveal_strlit("' command");
    assert("'"@ =~= seq!['\'']);
    law_error_line(ErrorView::UnknownCommand(name));
    law_error_line(ErrorView::WrongArity(name));
}

/// Bytes that are no array are no frame, nor is an array of a negative length or of what
/// is no number.
pub proof fn law_what_is_no_frame(s: Seq<u8>, text: Seq<u8>, rest: Seq<u8>)
    requires
        forall|i: int| 0 <= i < text.len() ==> #[trigger] text[i] != 13,
    ensures
        s.len() > 0 && s[0] != 42 ==> read_frame_at(s, 0) is Bad,
        text_to_i64(text) is None || text_to_i64(text)->0 < 0 ==> read_frame_at(
            reply_line(42, text) + rest,
            0,
        ) is Bad,
{
    let frame = reply_line(42, text) + rest;
    let at = text.len() as int + 1;
    assert forall|i: int| 1 <= i < at implies frame[i] != 13 by {
        assert(frame[i] == text[i - 1]);
    }
    assert(frame[at] == 13 && frame[at + 1] == 10);
    lemma_index_is(frame, 1, 13, at);
    assert(frame.subrange(1, at) =~= text);
}

/// A part of a frame is a value, with `$` in front, a length that is not negative and a
/// line break behind.
pub proof fn law_what_is_no_part(text: Seq<u8>, mark: u8, rest: Seq<u8>)
    requires
        forall|i: int| 0 <= i < text.len() ==> #[trigger] text[i] != 13,
    ensures
        mark != 36 || text_to_i64(text) is None || text_to_i64(text)->0 < 0 ==> read_bulk_at(
            reply_line(mark, text) + rest,
            0,
        ) is Bad,
        mark == 36 && (text_to_i64(text) matches Some(len) && 0 <= len && len + 2 <= rest.len()
            && !(rest[len as int] == 13 && rest[len + 1] == 10)) ==> read_bulk_at(
            reply_line(mark, text) + rest,
            0,
        ) is Bad,
        mark == 36 && (text_to_i64(text) matches Some(len) && rest.len() < len + 2 && 0 <= len)
            ==> read_bulk_at(reply_line(mark, text) + rest, 0) is Short,
{
    let frame = reply_line(mark, text) + rest;
    let at = text.len() as int + 1;
    assert forall|i: int| 1 <= i < at implies frame[i] != 13 by {
        assert(frame[i] == text[i - 1]);
    }
    assert(frame[at] == 13 && frame[at + 1] == 10);
    lemma_index_is(frame, 1, 13, at);
    assert(frame.subrange(1, at) =~= text);
    if let Some(len) = text_to_i64(text) {
        if 0 <= len && len + 2 <= rest.len() {
            assert(frame[at + 2 + len] == rest[len as int]);
            assert(frame[at + 2 + len + 1] == rest[len + 1]);
        }
    }
}

/// A client that sends what is no frame is told so, and the connection is closed.
pub proof fn law_protocol_error_line(v: ServerView, t: Tick)
    requires
        !v.closed,
        v.buf.len() > 0,
        v.buf[0] != 42,
    ensures
        stepped(v, t).closed,
        stepped(v, t).out == v.out + told(
            "ERR"@,
            "Protocol error: expected an array of bulk strings"@,
        ),
        stepped(v, t).engine == v.engine,
{
    lemma_protocol_text();
    law_protocol_error_closes(v, t, Seq::empty());
}

proof fn lemma_protocol_text()
    ensures
        error_reply(protocol_error()) == told(
            "ERR"@,
            "Protocol error: expected an array of bulk strings"@,
        ),
{
    reveal_strlit("Protocol error: expected an array of bulk strings");
    law_error_line(protocol_error());
}

/// A limit of `n` clients takes that many and no more, and refuses the next with an error;
/// without a limit there is always room.
pub proof fn law_client_limit(n: usize, active: usize)
    ensures
        has_room(active, 0),
        n > 0 && active + 1 <= n ==> has_room(active, n),
        n > 0 && active >= n ==> !has_room(active, n),
        refusal_line() == told("ERR"@, "max number of clients reached"@),
{
    reveal_strlit("ERR");
    reveal_strlit("max number of clients reached");
    reveal_strlit("ERR max number of clients reached");
    lemma_told("ERR"@, "max number of clients reached"@);
    assert("ERR max number of clients reached"@ =~= "ERR"@ + seq![' ']
        + "max number of clients reached"@);
}

/// An error is one line whatever its text holds: line breaks in it become spaces and every
/// other byte stays.
pub proof fn law_error_is_one_line(message: Seq<u8>, i: int)
    requires
        0 <= i < message.len(),
    ensures
        ({
            let line = raw_error(message);
            &&& line.len() == message.len() + 3
            &&& line[0] == 45
            &&& message[i] == 13 || message[i] == 10 ==> line[i + 1] == 32
            &&& message[i] != 13 && message[i] != 10 ==> line[i + 1] == message[i]
            &&& line[line.len() - 2] == 13
            &&& line[line.len() - 1] == 10
        }),
{
}

/// Whether a text has no line break.
pub open spec fn unbroken(s: Seq<u8>) -> bool {
    forall|i: int| 0 <= i < s.len() ==> #[trigger] s[i] != 13 && s[i] != 10
}

proof fn lemma_unbroken(s: Seq<u8>)
    requires
        unbroken(s),
    ensures
        raw_error(s) == seq![45u8] + s + seq![13u8, 10u8],
{
    assert(raw_error(s) =~= seq![45u8] + s + seq![13u8, 10u8]);
}

proof fn lemma_literal(text: Seq<char>)
    requires
        one_ascii_line(text),
    ensures
        unbroken(encode_utf8(text)),
{
    assert(is_ascii_chars(text));
    lemma_ascii(text);
    assert forall|i: int| 0 <= i < encode_utf8(text).len() implies #[trigger] encode_utf8(text)[i]
        != 13 && encode_utf8(text)[i] != 10 by {
        assert(encode_utf8(text)[i] == text[i] as u8);
    }
}

/// `CONFIG SET` says which value it refuses and for which parameter, or that there is no
/// such parameter.
pub proof fn law_config_refusal_line(
    s: EngineView,
    parameter: Seq<u8>,
    value: Seq<u8>,
    now: Clock,
)
    requires
        unbroken(parameter),
        unbroken(value),
    ensures
        ({
            let r = executed(s, WireCommand::ConfigSet { parameter, value }, now).0;
            let name = upper_bytes(parameter);
            let known = name == encode_utf8("MAXMEMORY"@) || name == encode_utf8(
                "MAXMEMORY-POLICY"@,
            ) || name == encode_utf8("MAXMEMORY-SAMPLES"@) || name == encode_utf8("REQUIREPASS"@)
                || name == encode_utf8("SLOWLOG-LOG-SLOWER-THAN"@) || name == encode_utf8(
                "SLOWLOG-MAX-LEN"@,
            );
            &&& known && r != said_ok() ==> r == seq![45u8] + (encode_utf8("ERR Invalid argument '"@)
                + value + encode_utf8("' for CONFIG SET '"@) + parameter + encode_utf8("'"@))
                + seq![13u8, 10u8]
            &&& !known ==> r == seq![45u8] + (encode_utf8("ERR Unknown parameter '"@) + parameter
                + encode_utf8("'"@)) + seq![13u8, 10u8]
        }),
{
    reveal(config_set_effect);
    lemma_ok();
    reveal_strlit("ERR Invalid argument '");
    reveal_strlit("' for CONFIG SET '");
    reveal_strlit("'");
    reveal_strlit("ERR Unknown parameter '");
    lemma_literal("ERR Invalid argument '"@);
    lemma_literal("' for CONFIG SET '"@);
    lemma_literal("'"@);
    lemma_literal("ERR Unknown parameter '"@);
    let a = encode_utf8("ERR Invalid argument '"@);
    let b = encode_utf8("' for CONFIG SET '"@);
    let c = encode_utf8("'"@);
    let d = encode_utf8("ERR Unknown parameter '"@);
    lemma_joined(a, value);
    lemma_joined(a + value, b);
    lemma_joined(a + value + b, parameter);
    lemma_joined(a + value + b + parameter, c);
    lemma_joined(d, parameter);
    lemma_joined(d + parameter, c);
    lemma_unbroken(a + value + b + parameter + c);
    lemma_unbroken(d + parameter + c);
}

proof fn lemma_joined(a: Seq<u8>, b: Seq<u8>)
    requires
        unbroken(a),
        unbroken(b),
    ensures
        unbroken(a + b),
{
}

/// A wrong password, a password where none is asked for, and a rewrite without a log are
/// told apart.
pub proof fn law_auth_refusal(s: EngineView, password: Seq<u8>, now: Clock)
    ensures
        s.password is Some && s.password != Some(password) ==> executed(
            s,
            WireCommand::Auth { password },
            now,
        ).0 == told("WRONGPASS"@, "invalid username-password pair or user is disabled."@),
        s.password is None ==> executed(s, WireCommand::Auth { password }, now).0 == told(
            "ERR"@,
            "Client sent AUTH, but no password is set"@,
        ),
        s.log is None ==> executed(s, WireCommand::BgRewriteAof, now).0 == told(
            "ERR"@,
            "AOF is not enabled"@,
        ),
{
    reveal(auth_effect);
    reveal(bg_rewrite_aof_effect);
    lemma_wrong_password();
    lemma_no_password();
    lemma_no_log();
}

proof fn lemma_wrong_password()
    ensures
        raw_error(
            encode_utf8("WRONGPASS invalid username-password pair or user is disabled."@),
        ) == told("WRONGPASS"@, "invalid username-password pair or user is disabled."@),
{
    reveal_strlit("WRONGPASS");
    reveal_strlit("invalid username-password pair or user is disabled.");
    reveal_strlit("WRONGPASS invalid username-password pair or user is disabled.");
    lemma_told("WRONGPASS"@, "invalid username-password pair or user is disabled."@);
    assert("WRONGPASS invalid username-password pair or user is disabled."@ =~= "WRONGPASS"@ + seq![
        ' ',
    ] + "invalid username-password pair or user is disabled."@);
}

proof fn lemma_no_password()
    ensures
        error_reply(ErrorView::ParseError("Client sent AUTH, but no password is set"@)) == told(
            "ERR"@,
            "Client sent AUTH, but no password is set"@,
        ),
{
    reveal_strlit("Client sent AUTH, but no password is set");
    law_error_line(ErrorView::ParseError("Client sent AUTH, but no password is set"@));
}

proof fn lemma_no_log()
    ensures
        error_reply(ErrorView::AofNotEnabled) == told("ERR"@, "AOF is not enabled"@),
{
    reveal_strlit("AOF is not enabled");
    law_error_line(ErrorView::AofNotEnabled);
}

} // verus!
