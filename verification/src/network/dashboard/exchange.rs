//! How requests are read and how replies are shown.

use vstd::prelude::*;
use vstd::string::*;
use vstd::utf8::{
    encode_utf8, encode_utf8_decode_utf8, encode_utf8_valid_utf8, is_ascii_chars,
};

use crate::bytes::upper_bytes;
use crate::config::file::lemma_number_text;
use crate::decimal::{
    dec_int, dec_nat, is_digit, law_signs_and_zeros, lemma_dec_int_round_trip, lemma_dec_nat,
};
use crate::network::dashboard::console::{
    all_shown_at, behind_line, joined, line_at, shown, shown_at,
};
use crate::network::dashboard::laws::lemma_index;
use crate::network::dashboard::message::{
    arrival_of, ascii_trim, ascii_white, body_length, found_from, header_from, headers_end,
    index_of_char, request_of, response_bytes, target_parts, Arrival, RequestView, ResponseView,
};
use crate::network::replies::{
    lemma_ascii, reply_line, said_nothing, said_number, said_ok, said_value,
};
use crate::network::settings::said_values;
use crate::text::{number_text, readable};

verus! {

/// Whether a text has neither of two bytes, nor a line break.
pub open spec fn free_of(s: Seq<u8>, a: u8, b: u8) -> bool {
    forall|i: int|
        0 <= i < s.len() ==> #[trigger] s[i] != a && s[i] != b && s[i] != 13 && s[i] != 10
}

/// The first line of a request.
pub open spec fn request_line(method: Seq<u8>, target: Seq<u8>, version: Seq<u8>) -> Seq<u8> {
    method + seq![32u8] + (target + seq![32u8] + version)
}

/// A header line.
pub open spec fn header_line(name: Seq<u8>, n: nat) -> Seq<u8> {
    name + seq![58u8] + (seq![32u8] + dec_nat(n))
}

/// What stands in front of the blank line.
pub open spec fn head(line: Seq<u8>, header: Seq<u8>) -> Seq<u8> {
    line + seq![13u8] + seq![10u8] + header
}

/// A request with one header.
pub open spec fn request_bytes(block: Seq<u8>, body: Seq<u8>) -> Seq<u8> {
    block + seq![13u8, 10, 13, 10] + body
}

proof fn lemma_found(s: Seq<u8>, needle: Seq<u8>, pos: int, at: int)
    requires
        needle.len() > 0,
        0 <= pos <= at,
        at + needle.len() <= s.len(),
        s.subrange(at, at + needle.len()) == needle,
        forall|p: int| pos <= p < at ==> #[trigger] s.subrange(p, p + needle.len()) != needle,
    ensures
        found_from(s, needle, pos) == Some(at),
    decreases at - pos,
{
    if pos < at {
        assert(s.subrange(pos, pos + needle.len()) != needle);
        lemma_found(s, needle, pos + 1, at);
    }
}

proof fn lemma_head_end(line: Seq<u8>, header: Seq<u8>, body: Seq<u8>)
    requires
        free_of(line, 58, 58),
        header.len() > 0,
        forall|i: int| 0 <= i < header.len() ==> #[trigger] header[i] != 13 && header[i] != 10,
    ensures
        headers_end(request_bytes(head(line, header), body)) == Some(
            head(line, header).len() as int,
        ),
{
    let block = head(line, header);
    let s = request_bytes(block, body);
    let needle = seq![13u8, 10, 13, 10];
    let at = block.len() as int;
    assert(s.subrange(at, at + 4) =~= needle);
    assert forall|p: int| 0 <= p < at implies #[trigger] s.subrange(p, p + needle.len())
        != needle by {
        let part = s.subrange(p, p + 4);
        assert(part[0] == s[p] && s[p] == block[p]);
        assert(needle[0] == 13 && needle[2] == 13);
        if p < line.len() {
            assert(block[p] == line[p]);
        } else if p == line.len() {
            assert(part[2] == s[p + 2]);
            assert(s[p + 2] == header[0]);
        } else if p > line.len() + 1 {
            assert(block[p] == header[p - line.len() - 2]);
        }
    }
    lemma_found(s, needle, 0, at);
}

proof fn lemma_trimmed(s: Seq<u8>)
    requires
        s.len() > 0,
        !ascii_white(s[0]),
        !ascii_white(s.last()),
    ensures
        ascii_trim(s) == s,
        ascii_trim(seq![32u8] + s) == s,
{
    let t = seq![32u8] + s;
    assert(t.skip(1) =~= s);
}

proof fn lemma_body_length(line: Seq<u8>, name: Seq<u8>, n: nat)
    requires
        free_of(line, 58, 58),
        free_of(name, 58, 32),
        upper_bytes(name) == upper_bytes(encode_utf8("content-length"@)),
        name.len() > 0,
        !ascii_white(name[0]),
        !ascii_white(name.last()),
        n <= usize::MAX,
    ensures
        body_length(head(line, header_line(name, n))) == n,
{
    let wanted = encode_utf8("content-length"@);
    let header = header_line(name, n);
    let block = head(line, header);
    let digits = dec_nat(n);
    lemma_dec_nat(n);
    assert(is_digit(digits[0]) && is_digit(digits[digits.len() - 1]));
    lemma_number_text(n);
    encode_utf8_valid_utf8(number_text(n));
    encode_utf8_decode_utf8(number_text(n));
    law_signs_and_zeros(n);
    let first = line + seq![13u8];
    assert(block =~= first + seq![10u8] + header);
    assert forall|j: int| 0 <= j < first.len() implies #[trigger] first[j] != 10 && first[j]
        != 58 by {
        if j < line.len() {
            assert(first[j] == line[j]);
        }
    }
    lemma_index(first, 10, header, 0);
    assert(block.subrange(0, first.len() as int) =~= first);
    lemma_index(line, 58, Seq::empty(), 0);
    lemma_index(first, 58, Seq::empty(), 0);
    if first[0] == 13 {
        let rest = first.skip(1);
        assert(line.len() == 0) by {
            if line.len() > 0 {
                assert(first[0] == line[0]);
            }
        }
        lemma_index(rest, 58, Seq::empty(), 0);
    }
    let next = first.len() as int + 1;
    assert forall|j: int| 0 <= j < header.len() implies #[trigger] header[j] != 10 && header[j]
        != 13 by {
        if j < name.len() {
            assert(header[j] == name[j]);
        } else if j > name.len() + 1 {
            assert(is_digit(digits[j - name.len() - 2]));
            assert(header[j] == digits[j - name.len() - 2]);
        }
    }
    assert(forall|j: int| next <= j < block.len() ==> #[trigger] block[j] == header[j - next]);
    lemma_index(block, 10, Seq::empty(), next);
    assert(block.subrange(next, block.len() as int) =~= header);
    assert(header[0] == name[0]);
    lemma_index(name, 58, seq![32u8] + digits, 0);
    assert(header.take(name.len() as int) =~= name);
    assert(header.skip(name.len() as int + 1) =~= seq![32u8] + digits);
    lemma_trimmed(name);
    lemma_trimmed(digits);
    reveal_with_fuel(header_from, 2);
    assert(header_from(block, next, wanted) == Some(number_text(n)));
}

/// A request is read back as it was sent: its method, its target and as much of what
/// follows the blank line as `Content-Length` says, in any case of that name. While less
/// has come, the request is not complete.
pub proof fn law_request_reads_back(
    method: Seq<u8>,
    target: Seq<u8>,
    version: Seq<u8>,
    name: Seq<u8>,
    n: nat,
    body: Seq<u8>,
)
    requires
        free_of(method, 58, 32),
        free_of(target, 58, 32),
        free_of(version, 58, 32),
        free_of(name, 58, 32),
        name.len() > 0,
        !ascii_white(name[0]),
        !ascii_white(name.last()),
        upper_bytes(name) == upper_bytes(encode_utf8("content-length"@)),
        n <= usize::MAX,
    ensures
        ({
            let block = head(request_line(method, target, version), header_line(name, n));
            let s = request_bytes(block, body);
            let (path, query) = target_parts(readable(target));
            &&& body.len() >= n ==> request_of(s) == Some(
                RequestView {
                    method: readable(method),
                    path,
                    query,
                    body: body.take(n as int),
                },
            )
            &&& body.len() >= n ==> arrival_of(s) == Arrival::Complete
            &&& body.len() < n ==> arrival_of(s) == Arrival::Body
        }),
{
    let line = request_line(method, target, version);
    let header = header_line(name, n);
    let block = head(line, header);
    let s = request_bytes(block, body);
    let digits = dec_nat(n);
    lemma_dec_nat(n);
    assert(free_of(line, 58, 58)) by {
        let rest = target + seq![32u8] + version;
        assert forall|i: int| 0 <= i < line.len() implies #[trigger] line[i] != 58 && line[i] != 13
            && line[i] != 10 by {
            if i < method.len() {
                assert(line[i] == method[i]);
            } else if i > method.len() {
                let j = i - method.len() - 1;
                assert(line[i] == rest[j]);
                if j < target.len() {
                    assert(rest[j] == target[j]);
                } else if j > target.len() {
                    assert(rest[j] == version[j - target.len() - 1]);
                }
            }
        }
    }
    assert forall|i: int| 0 <= i < header.len() implies #[trigger] header[i] != 13 && header[i]
        != 10 by {
        if i < name.len() {
            assert(header[i] == name[i]);
        } else if i > name.len() + 1 {
            assert(is_digit(digits[i - name.len() - 2]));
            assert(header[i] == digits[i - name.len() - 2]);
        }
    }
    lemma_head_end(line, header, body);
    lemma_body_length(line, name, n);
    let end = block.len() as int;
    assert(s.take(end) =~= block);
    let first = line + seq![13u8];
    assert(block =~= first + seq![10u8] + header);
    assert forall|j: int| 0 <= j < first.len() implies #[trigger] first[j] != 10 by {
        if j < line.len() {
            assert(first[j] == line[j]);
        }
    }
    lemma_index(first, 10, header, 0);
    assert(block.take(first.len() as int) =~= first);
    let rest = target + seq![32u8] + version + seq![13u8];
    assert(first =~= method + seq![32u8] + rest);
    lemma_index(method, 32, rest, 0);
    let front = method + seq![32u8] + target;
    let behind = version + seq![13u8];
    assert(first =~= front + seq![32u8] + behind);
    assert forall|j: int| method.len() + 1 <= j < front.len() implies #[trigger] front[j] != 32 by {
        assert(front[j] == target[j - method.len() - 1]);
    }
    lemma_index(front, 32, behind, method.len() as int + 1);
    assert(first.take(method.len() as int) =~= method);
    assert(first.subrange(method.len() as int + 1, front.len() as int) =~= target);
    if body.len() >= n {
        assert(s.subrange(end + 4, end + 4 + n) =~= body.take(n as int));
    }
}

proof fn lemma_index_of_char(path: Seq<char>, rest: Seq<char>, pos: int)
    requires
        0 <= pos <= path.len(),
        !path.contains('?'),
        rest.len() > 0 ==> rest[0] == '?',
    ensures
        index_of_char(path + rest, pos, '?') == path.len(),
    decreases path.len() - pos,
{
    if pos < path.len() {
        assert((path + rest)[pos] == path[pos]);
        assert(path.contains(path[pos]));
        lemma_index_of_char(path, rest, pos + 1);
    } else if rest.len() > 0 {
        assert((path + rest)[pos] == '?');
    }
}

/// The path of a target ends at the first question mark, and the query is the rest.
pub proof fn law_target_is_path_and_query(path: Seq<char>, query: Seq<char>)
    requires
        !path.contains('?'),
    ensures
        target_parts(path + seq!['?'] + query) == (path, query),
        target_parts(path) == (path, Seq::<char>::empty()),
{
    let target = path + seq!['?'] + query;
    lemma_index_of_char(path, seq!['?'] + query, 0);
    lemma_index_of_char(path, Seq::empty(), 0);
    assert(path + (seq!['?'] + query) =~= target);
    assert(path + Seq::<char>::empty() =~= path);
    assert(target.take(path.len() as int) =~= path);
    assert(target.skip(path.len() as int + 1) =~= query);
}

/// Headers that do not end are given up behind 1048576 bytes and waited for until then.
pub proof fn law_headers_are_bounded(s: Seq<u8>)
    requires
        headers_end(s) is None,
    ensures
        s.len() > 1_048_576 ==> arrival_of(s) == Arrival::Oversized,
        s.len() <= 1_048_576 ==> arrival_of(s) == Arrival::Headers,
        request_of(s) is None,
{
}

/// A line of a reply, wherever it stands.
proof fn lemma_line_at(before: Seq<u8>, mark: u8, text: Seq<u8>, after: Seq<u8>)
    requires
        forall|i: int| 0 <= i < text.len() ==> #[trigger] text[i] != 13,
    ensures
        ({
            let s = before + reply_line(mark, text) + after;
            let pos = before.len() as int;
            &&& s[pos] == mark
            &&& line_at(s, pos + 1) == text
            &&& behind_line(s, pos + 1) == pos + text.len() + 3
            &&& pos < s.len()
        }),
{
    let s = before + reply_line(mark, text) + after;
    let pos = before.len() as int;
    let front = before + seq![mark] + text;
    let rest = seq![10u8] + after;
    assert(s =~= front + seq![13u8] + rest);
    assert forall|j: int| pos + 1 <= j < front.len() implies #[trigger] front[j] != 13 by {
        assert(front[j] == text[j - pos - 1]);
    }
    lemma_index(front, 13, rest, pos + 1);
    assert(s.subrange(pos + 1, front.len() as int) =~= text);
}

proof fn lemma_no_break(n: int)
    ensures
        forall|i: int| 0 <= i < dec_int(n).len() ==> #[trigger] dec_int(n)[i] != 13,
{
    let d = dec_nat(if n < 0 { (-n) as nat } else { n as nat });
    lemma_dec_nat(if n < 0 { (-n) as nat } else { n as nat });
    assert(forall|i: int| 0 <= i < d.len() ==> is_digit(#[trigger] d[i]));
    assert forall|i: int| 0 <= i < dec_int(n).len() implies #[trigger] dec_int(n)[i] != 13 by {
        if n < 0 {
            law_signs_and_zeros((-n) as nat);
            if i > 0 {
                assert(dec_int(n)[i] == d[i - 1]);
            }
        } else {
            law_signs_and_zeros(n as nat);
            assert(is_digit(d[i]));
        }
    }
}

/// A value, wherever it stands.
proof fn lemma_value_shown(before: Seq<u8>, v: Seq<u8>, after: Seq<u8>)
    requires
        v.len() <= i64::MAX,
    ensures
        shown_at(before + said_value(v) + after, before.len() as int) == Some(
            (readable(v), (before.len() + said_value(v).len()) as int),
        ),
{
    let digits = dec_nat(v.len());
    let rest = v + seq![13u8, 10u8] + after;
    let s = before + said_value(v) + after;
    assert(s =~= before + reply_line(36, digits) + rest);
    lemma_no_break(v.len() as int);
    law_signs_and_zeros(v.len());
    lemma_line_at(before, 36, digits, rest);
    lemma_dec_int_round_trip(v.len() as i64);
    let next = (before.len() + digits.len() + 3) as int;
    assert(s.subrange(next, next + v.len()) =~= v);
}

/// The console shows a number by its digits, a value as its text, nothing as `(nil)`, `+OK`
/// as `OK`, and an error with `(error)` in front.
pub proof fn law_reply_is_shown(n: int, v: Seq<u8>, text: Seq<u8>)
    requires
        v.len() <= i64::MAX,
        forall|i: int| 0 <= i < text.len() ==> #[trigger] text[i] != 13,
    ensures
        shown(said_number(n)) == readable(dec_int(n)),
        shown(said_value(v)) == readable(v),
        shown(said_nothing()) == "(nil)"@,
        shown(said_ok()) == readable(seq![79u8, 75u8]),
        shown(reply_line(45, text)) == "(error) "@ + readable(text),
{
    let none = Seq::<u8>::empty();
    lemma_no_break(n);
    lemma_line_at(none, 58, dec_int(n), none);
    assert(none + said_number(n) + none =~= said_number(n));
    lemma_value_shown(none, v, none);
    assert(none + said_value(v) + none =~= said_value(v));
    let minus_one = seq![45u8, 49u8];
    lemma_dec_int_round_trip((-1) as i64);
    law_signs_and_zeros(1);
    reveal_with_fuel(dec_nat, 2);
    assert(dec_int(-1) =~= minus_one);
    lemma_line_at(none, 36, minus_one, none);
    assert(none + reply_line(36, minus_one) + none =~= said_nothing());
    let ok = seq![79u8, 75u8];
    lemma_line_at(none, 43, ok, none);
    assert(none + reply_line(43, ok) + none =~= said_ok());
    lemma_line_at(none, 45, text, none);
    assert(none + reply_line(45, text) + none =~= reply_line(45, text));
}

/// Values one behind the other, wherever they stand.
proof fn lemma_values_shown(before: Seq<u8>, vs: Seq<Seq<u8>>, after: Seq<u8>)
    requires
        forall|i: int| 0 <= i < vs.len() ==> (#[trigger] vs[i]).len() <= i64::MAX,
    ensures
        all_shown_at(before + said_values(vs) + after, before.len() as int, vs.len()) == Some(
            (
                vs.map_values(|v: Seq<u8>| readable(v)),
                (before.len() + said_values(vs).len()) as int,
            ),
        ),
    decreases vs.len(),
{
    let texts = vs.map_values(|v: Seq<u8>| readable(v));
    if vs.len() == 0 {
        assert(texts =~= Seq::<Seq<char>>::empty());
    } else {
        let rest = vs.skip(1);
        let front = before + said_value(vs[0]);
        let s = before + said_values(vs) + after;
        assert(s =~= before + said_value(vs[0]) + (said_values(rest) + after));
        assert(s =~= front + said_values(rest) + after);
        lemma_value_shown(before, vs[0], said_values(rest) + after);
        lemma_values_shown(front, rest, after);
        assert(seq![readable(vs[0])] + rest.map_values(|v: Seq<u8>| readable(v)) =~= texts);
    }
}

/// The console shows the values of an array one under the other.
pub proof fn law_array_is_shown(vs: Seq<Seq<u8>>)
    requires
        vs.len() <= i64::MAX,
        forall|i: int| 0 <= i < vs.len() ==> (#[trigger] vs[i]).len() <= i64::MAX,
    ensures
        shown(reply_line(42, dec_nat(vs.len())) + said_values(vs)) == joined(
            vs.map_values(|v: Seq<u8>| readable(v)),
        ),
{
    let none = Seq::<u8>::empty();
    let digits = dec_nat(vs.len());
    let header = reply_line(42, digits);
    let s = header + said_values(vs);
    assert(none + header + said_values(vs) =~= s);
    assert(s + none =~= s);
    lemma_no_break(vs.len() as int);
    law_signs_and_zeros(vs.len());
    lemma_line_at(none, 42, digits, said_values(vs));
    lemma_dec_int_round_trip(vs.len() as i64);
    lemma_values_shown(header, vs, none);
}

/// Joined texts stand in order, each on a line of its own.
pub proof fn law_joined_texts(parts: Seq<Seq<char>>, last: Seq<char>)
    ensures
        joined(seq![last]) == last,
        parts.len() > 0 ==> joined(parts.push(last)) == joined(parts) + seq!['\n'] + last,
{
    assert(parts.push(last).drop_last() =~= parts);
}

/// The beginning of a response, up to its body.
pub open spec fn response_head(
    status: Seq<char>,
    content_type: Seq<char>,
    len: nat,
) -> Seq<char> {
    "HTTP/1.1 "@ + status + "\r\nContent-Type: "@ + content_type + "\r\nContent-Length: "@
        + number_text(len) + "\r\nConnection: close\r\n\r\n"@
}

proof fn lemma_parts_join(a: Seq<char>, b: Seq<char>)
    requires
        is_ascii_chars(a),
        is_ascii_chars(b),
    ensures
        is_ascii_chars(a + b),
        encode_utf8(a + b) == encode_utf8(a) + encode_utf8(b),
{
    lemma_ascii(a);
    lemma_ascii(b);
    lemma_ascii(a + b);
    assert(encode_utf8(a + b) =~= encode_utf8(a) + encode_utf8(b));
}

proof fn lemma_status_line(status: u16, phrase: Seq<char>)
    requires
        is_ascii_chars(phrase),
    ensures
        encode_utf8("HTTP/1.1 "@) + dec_nat(status as nat) + seq![32u8] + encode_utf8(phrase)
            == encode_utf8("HTTP/1.1 "@ + (number_text(status as nat) + seq![' '] + phrase)),
        is_ascii_chars("HTTP/1.1 "@ + (number_text(status as nat) + seq![' '] + phrase)),
{
    let digits = number_text(status as nat);
    reveal_strlit("HTTP/1.1 ");
    lemma_number_text(status as nat);
    lemma_parts_join(digits, seq![' ']);
    lemma_parts_join(digits + seq![' '], phrase);
    lemma_parts_join("HTTP/1.1 "@, digits + seq![' '] + phrase);
    lemma_ascii(seq![' ']);
    assert(encode_utf8(seq![' ']) =~= seq![32u8]);
    assert(encode_utf8("HTTP/1.1 "@) + (dec_nat(status as nat) + seq![32u8] + encode_utf8(phrase))
        =~= encode_utf8("HTTP/1.1 "@) + dec_nat(status as nat) + seq![32u8] + encode_utf8(phrase));
}

/// A response tells its status in a number and in words, the kind of its body and exactly
/// how many bytes it has, and the body follows the blank line.
pub proof fn law_response_bytes(r: ResponseView, phrase: Seq<char>)
    requires
        r.status == 200 && phrase == "OK"@ || r.status == 400 && phrase == "Bad Request"@
            || r.status == 404 && phrase == "Not Found"@ || r.status == 405 && phrase
            == "Method Not Allowed"@ || r.status == 500 && phrase == "Internal Server Error"@,
        is_ascii_chars(r.content_type),
    ensures
        response_bytes(r) == encode_utf8(
            response_head(
                number_text(r.status as nat) + seq![' '] + phrase,
                r.content_type,
                r.body.len(),
            ),
        ) + r.body,
{
    reveal_strlit("OK");
    reveal_strlit("Bad Request");
    reveal_strlit("Not Found");
    reveal_strlit("Method Not Allowed");
    reveal_strlit("Internal Server Error");
    reveal_strlit("Content-Type: ");
    reveal_strlit("Content-Length: ");
    reveal_strlit("Connection: close");
    reveal_strlit("\r\nContent-Type: ");
    reveal_strlit("\r\nContent-Length: ");
    reveal_strlit("\r\nConnection: close\r\n\r\n");
    let end = seq!['\r', '\n'];
    let line = "HTTP/1.1 "@ + (number_text(r.status as nat) + seq![' '] + phrase);
    let digits = number_text(r.body.len());
    lemma_status_line(r.status, phrase);
    lemma_number_text(r.body.len());
    lemma_ascii(end);
    assert(encode_utf8(end) =~= seq![13u8, 10u8]);
    assert("\r\nContent-Type: "@ =~= end + "Content-Type: "@);
    assert("\r\nContent-Length: "@ =~= end + "Content-Length: "@);
    assert("\r\nConnection: close\r\n\r\n"@ =~= end + "Connection: close"@ + end + end);
    lemma_parts_join(end, "Content-Type: "@);
    lemma_parts_join(end, "Content-Length: "@);
    lemma_parts_join(end, "Connection: close"@);
    lemma_parts_join(end + "Connection: close"@, end);
    lemma_parts_join(end + "Connection: close"@ + end, end);
    let a = line + "\r\nContent-Type: "@;
    let b = a + r.content_type;
    let c = b + "\r\nContent-Length: "@;
    let d = c + digits;
    lemma_parts_join(line, "\r\nContent-Type: "@);
    lemma_parts_join(a, r.content_type);
    lemma_parts_join(b, "\r\nContent-Length: "@);
    lemma_parts_join(c, digits);
    lemma_parts_join(d, "\r\nConnection: close\r\n\r\n"@);
    assert(response_bytes(r) =~= encode_utf8(
        d + "\r\nConnection: close\r\n\r\n"@,
    ) + r.body);
}

} // verus!
