//! HTTP requests and responses.

use vstd::prelude::*;
use vstd::slice::slice_subrange;
use vstd::string::*;
use vstd::utf8::encode_utf8;

use crate::bytes::{copied, push_all, same_bytes, to_upper, upper_bytes};
use crate::decimal::{dec_nat, parse_bounded, push_u64, text_to_bounded};
use crate::protocol::encoder::{crlf, push_crlf};
use crate::protocol::reader::{find_byte, index_of_byte};
use crate::text::{chars_of, readable, readable_text, text_of};

verus! {

/// The most bytes that may come before the end of the headers.
pub const HEADER_MAX: usize = 1_048_576;

/// An HTTP request: method, path, query string and body.
#[derive(Debug)]
pub struct Request {
    pub method: String,
    pub path: String,
    pub query: String,
    pub body: Vec<u8>,
}

/// The mathematical content of a [`Request`].
#[verifier::ext_equal]
pub struct RequestView {
    pub method: Seq<char>,
    pub path: Seq<char>,
    pub query: Seq<char>,
    pub body: Seq<u8>,
}

impl View for Request {
    type V = RequestView;

    open spec fn view(&self) -> RequestView {
        RequestView {
            method: self.method@,
            path: self.path@,
            query: self.query@,
            body: self.body@,
        }
    }
}

/// A response.
#[derive(Debug)]
pub struct Response {
    pub status: u16,
    pub content_type: &'static str,
    pub body: Vec<u8>,
}

/// The mathematical content of a [`Response`].
#[verifier::ext_equal]
pub struct ResponseView {
    pub status: u16,
    pub content_type: Seq<char>,
    pub body: Seq<u8>,
}

impl View for Response {
    type V = ResponseView;

    open spec fn view(&self) -> ResponseView {
        ResponseView {
            status: self.status,
            content_type: self.content_type@,
            body: self.body@,
        }
    }
}

/// The reason phrase of a status.
pub open spec fn reason(status: u16) -> Seq<char> {
    if status == 200 {
        "OK"@
    } else if status == 204 {
        "No Content"@
    } else if status == 400 {
        "Bad Request"@
    } else if status == 404 {
        "Not Found"@
    } else if status == 405 {
        "Method Not Allowed"@
    } else if status == 500 {
        "Internal Server Error"@
    } else {
        "Unknown"@
    }
}

/// The reason phrase of a status.
pub fn status_text(status: u16) -> (text: &'static str)
    ensures
        text@ == reason(status),
{
    if status == 200 {
        "OK"
    } else if status == 204 {
        "No Content"
    } else if status == 400 {
        "Bad Request"
    } else if status == 404 {
        "Not Found"
    } else if status == 405 {
        "Method Not Allowed"
    } else if status == 500 {
        "Internal Server Error"
    } else {
        "Unknown"
    }
}

/// A JSON document with a status.
pub open spec fn json_response(status: u16, text: Seq<char>) -> ResponseView {
    ResponseView {
        status,
        content_type: "application/json; charset=utf-8"@,
        body: encode_utf8(text),
    }
}

/// A page.
pub open spec fn html_response(page: Seq<char>) -> ResponseView {
    ResponseView {
        status: 200,
        content_type: "text/html; charset=utf-8"@,
        body: encode_utf8(page),
    }
}

/// A bare status.
pub open spec fn status_response(status: u16) -> ResponseView {
    ResponseView {
        status,
        content_type: "text/plain; charset=utf-8"@,
        body: encode_utf8(reason(status)),
    }
}

/// A response on the wire.
pub open spec fn response_bytes(r: ResponseView) -> Seq<u8> {
    encode_utf8("HTTP/1.1 "@) + dec_nat(r.status as nat) + seq![32u8] + encode_utf8(
        reason(r.status),
    ) + crlf() + encode_utf8("Content-Type: "@) + encode_utf8(r.content_type) + crlf()
        + encode_utf8("Content-Length: "@) + dec_nat(r.body.len()) + crlf() + encode_utf8(
        "Connection: close"@,
    ) + crlf() + crlf() + r.body
}

impl Response {
    /// A JSON document with a status.
    pub fn json(status: u16, text: &str) -> (r: Response)
        ensures
            r@ == json_response(status, text@),
    {
        Response {
            status,
            content_type: "application/json; charset=utf-8",
            body: copied(text.as_bytes()),
        }
    }

    /// A JSON document.
    pub fn ok_json(text: &str) -> (r: Response)
        ensures
            r@ == json_response(200, text@),
    {
        Response::json(200, text)
    }

    /// A page.
    pub fn text_html(page: &str) -> (r: Response)
        ensures
            r@ == html_response(page@),
    {
        Response {
            status: 200,
            content_type: "text/html; charset=utf-8",
            body: copied(page.as_bytes()),
        }
    }

    /// A bare status.
    pub fn with_status(status: u16) -> (r: Response)
        ensures
            r@ == status_response(status),
    {
        Response {
            status,
            content_type: "text/plain; charset=utf-8",
            body: copied(status_text(status).as_bytes()),
        }
    }

    /// The response on the wire.
    pub fn to_bytes(&self) -> (out: Vec<u8>)
        ensures
            out@ == response_bytes(self@),
    {
        let mut out: Vec<u8> = Vec::new();
        push_all(&mut out, "HTTP/1.1 ".as_bytes());
        push_u64(&mut out, self.status as u64);
        out.push(32);
        push_all(&mut out, status_text(self.status).as_bytes());
        push_crlf(&mut out);
        push_all(&mut out, "Content-Type: ".as_bytes());
        push_all(&mut out, self.content_type.as_bytes());
        push_crlf(&mut out);
        push_all(&mut out, "Content-Length: ".as_bytes());
        push_u64(&mut out, self.body.len() as u64);
        push_crlf(&mut out);
        push_all(&mut out, "Connection: close".as_bytes());
        push_crlf(&mut out);
        push_crlf(&mut out);
        push_all(&mut out, self.body.as_slice());
        assert(out@ =~= response_bytes(self@));
        out
    }
}

/// The first place at or behind `pos` where `needle` stands.
pub open spec fn found_from(s: Seq<u8>, needle: Seq<u8>, pos: int) -> Option<int>
    decreases s.len() - pos,
{
    if needle.len() == 0 || pos + needle.len() > s.len() {
        None
    } else if s.subrange(pos, pos + needle.len()) == needle {
        Some(pos)
    } else {
        found_from(s, needle, pos + 1)
    }
}

/// Finds the first place where `needle` stands; an empty one is never found.
pub fn find_subsequence(hay: &[u8], needle: &[u8]) -> (at: Option<usize>)
    ensures
        match at {
            Some(i) => found_from(hay@, needle@, 0) == Some(i as int) && i + needle.len()
                <= hay.len() && needle.len() > 0,
            None => found_from(hay@, needle@, 0) is None,
        },
{
    if needle.len() == 0 || hay.len() < needle.len() {
        return None;
    }
    let last: usize = hay.len() - needle.len();
    let mut i: usize = 0;
    while i <= last
        invariant
            i <= last + 1,
            last == hay.len() - needle.len(),
            0 < needle.len() <= hay.len(),
            found_from(hay@, needle@, 0) == found_from(hay@, needle@, i as int),
        decreases last + 1 - i,
    {
        if same_bytes(slice_subrange(hay, i, i + needle.len()), needle) {
            return Some(i);
        }
        i += 1;
    }
    None
}

/// Where the blank line that ends the headers stands.
pub open spec fn headers_end(s: Seq<u8>) -> Option<int> {
    found_from(s, seq![13u8, 10, 13, 10], 0)
}

/// Finds the blank line that ends the headers.
fn find_headers_end(s: &[u8]) -> (at: Option<usize>)
    ensures
        match at {
            Some(i) => headers_end(s@) == Some(i as int) && i + 4 <= s.len(),
            None => headers_end(s@) is None,
        },
{
    let mut needle: Vec<u8> = Vec::new();
    needle.push(13);
    needle.push(10);
    needle.push(13);
    needle.push(10);
    assert(needle@ =~= seq![13u8, 10, 13, 10]);
    find_subsequence(s, needle.as_slice())
}

/// Whether a byte is ASCII white space.
pub open spec fn ascii_white(b: u8) -> bool {
    b == 32 || b == 9 || b == 10 || b == 12 || b == 13
}

pub open spec fn ascii_trim_start(s: Seq<u8>) -> Seq<u8>
    decreases s.len(),
{
    if s.len() > 0 && ascii_white(s[0]) {
        ascii_trim_start(s.skip(1))
    } else {
        s
    }
}

pub open spec fn ascii_trim_end(s: Seq<u8>) -> Seq<u8>
    decreases s.len(),
{
    if s.len() > 0 && ascii_white(s.last()) {
        ascii_trim_end(s.drop_last())
    } else {
        s
    }
}

/// The bytes without the ASCII white space around them.
pub open spec fn ascii_trim(s: Seq<u8>) -> Seq<u8> {
    ascii_trim_end(ascii_trim_start(s))
}

fn is_ascii_white(b: u8) -> (white: bool)
    ensures
        white == ascii_white(b),
{
    b == 32 || b == 9 || b == 10 || b == 12 || b == 13
}

/// Takes the ASCII white space off both ends.
pub fn trim_ascii(s: &[u8]) -> (middle: &[u8])
    ensures
        middle@ == ascii_trim(s@),
{
    let mut start: usize = 0;
    let mut end: usize = s.len();
    assert(s@.skip(0) =~= s@);
    while start < end && is_ascii_white(s[start])
        invariant
            start <= end,
            end == s.len(),
            ascii_trim_start(s@) == ascii_trim_start(s@.skip(start as int)),
        decreases end - start,
    {
        assert(s@.skip(start as int).skip(1) =~= s@.skip(start as int + 1));
        start += 1;
    }
    assert(ascii_trim_start(s@) == s@.skip(start as int));
    assert(s@.skip(start as int) =~= s@.subrange(start as int, end as int));
    while end > start && is_ascii_white(s[end - 1])
        invariant
            start <= end <= s.len(),
            ascii_trim_end(s@.skip(start as int)) == ascii_trim_end(
                s@.subrange(start as int, end as int),
            ),
        decreases end - start,
    {
        assert(s@.subrange(start as int, end as int).drop_last() =~= s@.subrange(
            start as int,
            end as int - 1,
        ));
        end -= 1;
    }
    slice_subrange(s, start, end)
}

/// A slice without the byte in front, if it is there.
pub open spec fn stripped(s: Seq<u8>, byte: u8) -> Seq<u8> {
    if s.len() > 0 && s[0] == byte {
        s.skip(1)
    } else {
        s
    }
}

/// Takes a byte off the front, if it is there.
pub fn strip_prefix_byte(s: &[u8], byte: u8) -> (rest: &[u8])
    ensures
        rest@ == stripped(s@, byte),
{
    if s.len() > 0 && s[0] == byte {
        let rest: &[u8] = slice_subrange(s, 1, s.len());
        assert(rest@ =~= s@.skip(1));
        rest
    } else {
        s
    }
}

/// The parts before and behind the first `needle`.
pub open spec fn split_at_byte(s: Seq<u8>, needle: u8) -> Option<(Seq<u8>, Seq<u8>)> {
    let at = index_of_byte(s, 0, needle);
    if at < s.len() {
        Some((s.take(at), s.skip(at + 1)))
    } else {
        None
    }
}

/// Splits at the first `needle`, which is left out.
pub fn split_byte(s: &[u8], needle: u8) -> (parts: Option<(&[u8], &[u8])>)
    ensures
        match parts {
            Some((a, b)) => split_at_byte(s@, needle) == Some((a@, b@)),
            None => split_at_byte(s@, needle) is None,
        },
{
    let at: usize = find_byte(s, 0, needle);
    if at < s.len() {
        let a: &[u8] = slice_subrange(s, 0, at);
        let b: &[u8] = slice_subrange(s, at + 1, s.len());
        assert(a@ =~= s@.take(at as int));
        assert(b@ =~= s@.skip(at as int + 1));
        Some((a, b))
    } else {
        None
    }
}

/// The value of a header line, if it is the header asked for.
pub open spec fn header_in_line(line: Seq<u8>, name: Seq<u8>) -> Option<Seq<char>> {
    match split_at_byte(stripped(line, 13), 58) {
        Some((k, v)) => if upper_bytes(ascii_trim(k)) == upper_bytes(name) {
            Some(readable(ascii_trim(v)))
        } else {
            None
        },
        None => None,
    }
}

/// The value of the first header with a name, in the lines from `pos` on.
pub open spec fn header_from(block: Seq<u8>, pos: int, name: Seq<u8>) -> Option<Seq<char>>
    decreases block.len() - pos,
{
    let end = index_of_byte(block, pos, 10);
    match header_in_line(block.subrange(pos, end), name) {
        Some(v) => Some(v),
        None => if pos <= end < block.len() {
            header_from(block, end + 1, name)
        } else {
            None
        },
    }
}

/// Looks a header up by its name, in any ASCII case.
pub fn header_value(block: &[u8], name: &str) -> (value: Option<String>)
    ensures
        match value {
            Some(v) => header_from(block@, 0, encode_utf8(name@)) == Some(v@),
            None => header_from(block@, 0, encode_utf8(name@)) is None,
        },
{
    let wanted: Vec<u8> = to_upper(name.as_bytes());
    let ghost n = encode_utf8(name@);
    let mut pos: usize = 0;
    loop
        invariant
            pos <= block.len(),
            n == encode_utf8(name@),
            wanted@ == upper_bytes(n),
            header_from(block@, 0, n) == header_from(block@, pos as int, n),
        decreases block.len() - pos,
    {
        let end: usize = find_byte(block, pos, 10);
        let line: &[u8] = slice_subrange(block, pos, end);
        match split_byte(strip_prefix_byte(line, 13), 58) {
            Some((k, v)) => {
                if same_bytes(to_upper(trim_ascii(k)).as_slice(), wanted.as_slice()) {
                    return Some(readable_text(trim_ascii(v)));
                }
            },
            None => {},
        }
        if end >= block.len() {
            return None;
        }
        pos = end + 1;
    }
}

/// The declared length of the body; zero where none is declared or it is no
/// number.
pub open spec fn body_length(block: Seq<u8>) -> nat {
    match header_from(block, 0, encode_utf8("content-length"@)) {
        Some(v) => match text_to_bounded(encode_utf8(v), usize::MAX as u64) {
            Some(n) => n as nat,
            None => 0,
        },
        None => 0,
    }
}

/// Reads the declared length of the body.
fn content_length(block: &[u8]) -> (n: usize)
    ensures
        n == body_length(block@),
{
    match header_value(block, "content-length") {
        Some(v) => match parse_bounded(v.as_str().as_bytes(), usize::MAX as u64) {
            Some(n) => n as usize,
            None => 0,
        },
        None => 0,
    }
}

/// The first index that holds `c`, or the length.
pub open spec fn index_of_char(s: Seq<char>, pos: int, c: char) -> int
    decreases s.len() - pos,
{
    if pos < 0 || pos >= s.len() {
        s.len() as int
    } else if s[pos] == c {
        pos
    } else {
        index_of_char(s, pos + 1, c)
    }
}

/// Path and query of a request target.
pub open spec fn target_parts(target: Seq<char>) -> (Seq<char>, Seq<char>) {
    let at = index_of_char(target, 0, '?');
    if at < target.len() {
        (target.take(at), target.skip(at + 1))
    } else {
        (target, Seq::empty())
    }
}

/// Divides a request target at the first question mark.
fn split_target(target: &str) -> (parts: (String, String))
    ensures
        (parts.0@, parts.1@) == target_parts(target@),
{
    let chars: Vec<char> = chars_of(target);
    let mut at: usize = 0;
    while at < chars.len() && chars[at] != '?'
        invariant
            at <= chars.len(),
            index_of_char(chars@, 0, '?') == index_of_char(chars@, at as int, '?'),
        decreases chars.len() - at,
    {
        at += 1;
    }
    if at < chars.len() {
        let path: &[char] = slice_subrange(chars.as_slice(), 0, at);
        let query: &[char] = slice_subrange(chars.as_slice(), at + 1, chars.len());
        assert(path@ =~= target@.take(at as int));
        assert(query@ =~= target@.skip(at as int + 1));
        (text_of(path), text_of(query))
    } else {
        let query: String = String::new();
        assert(query@ =~= Seq::<char>::empty());
        (text_of(chars.as_slice()), query)
    }
}

/// The request that a buffer holds: the request line gives method and target,
/// divided by spaces; the body counts only once it is there whole.
pub open spec fn request_of(s: Seq<u8>) -> Option<RequestView> {
    match headers_end(s) {
        Some(end) => {
            let block = s.take(end);
            let line = block.take(index_of_byte(block, 0, 10));
            let first = index_of_byte(line, 0, 32);
            if first >= line.len() {
                None
            } else {
                let second = index_of_byte(line, first + 1, 32);
                let (path, query) = target_parts(readable(line.subrange(first + 1, second)));
                Some(
                    RequestView {
                        method: readable(line.take(first)),
                        path,
                        query,
                        body: if s.len() >= end + 4 + body_length(block) {
                            s.subrange(end + 4, end + 4 + body_length(block))
                        } else {
                            Seq::empty()
                        },
                    },
                )
            }
        },
        None => None,
    }
}

/// Reads a request.
pub fn parse_request(buf: &[u8]) -> (r: Option<Request>)
    ensures
        match r {
            Some(req) => request_of(buf@) == Some(req@),
            None => request_of(buf@) is None,
        },
{
    let end: usize = match find_headers_end(buf) {
        Some(end) => end,
        None => {
            return None;
        },
    };
    let block: &[u8] = slice_subrange(buf, 0, end);
    assert(block@ =~= buf@.take(end as int));
    let line_end: usize = find_byte(block, 0, 10);
    let line: &[u8] = slice_subrange(block, 0, line_end);
    assert(line@ =~= block@.take(line_end as int));
    let first: usize = find_byte(line, 0, 32);
    if first >= line.len() {
        return None;
    }
    let second: usize = find_byte(line, first + 1, 32);
    let method_bytes: &[u8] = slice_subrange(line, 0, first);
    assert(method_bytes@ =~= line@.take(first as int));
    let method: String = readable_text(method_bytes);
    let target: String = readable_text(slice_subrange(line, first + 1, second));
    let (path, query) = split_target(target.as_str());
    let length: usize = content_length(block);
    let start: usize = end + 4;
    let body: Vec<u8> = if length <= buf.len() - start {
        copied(slice_subrange(buf, start, start + length))
    } else {
        Vec::new()
    };
    assert(length > buf.len() - start ==> body@ =~= Seq::<u8>::empty());
    let request = Request { method, path, query, body };
    assert(request_of(buf@) == Some(request@));
    Some(request)
}

/// How much of a request has arrived.
#[derive(Debug, Clone, Copy, PartialEq, Eq, Structural)]
pub enum Arrival {
    /// The headers are not complete.
    Headers,
    /// The headers have grown too large; the connection is to be closed.
    Oversized,
    /// The headers are there, the body is not yet; the end of the stream also
    /// ends the body.
    Body,
    /// Everything is there.
    Complete,
}

/// How much of a request a buffer holds.
pub open spec fn arrival_of(s: Seq<u8>) -> Arrival {
    match headers_end(s) {
        Some(end) => if s.len() < end + 4 + body_length(s.take(end)) {
            Arrival::Body
        } else {
            Arrival::Complete
        },
        None => if s.len() > HEADER_MAX {
            Arrival::Oversized
        } else {
            Arrival::Headers
        },
    }
}

/// Says what a connection waits for.
pub fn arrival(buf: &[u8]) -> (a: Arrival)
    ensures
        a == arrival_of(buf@),
{
    match find_headers_end(buf) {
        Some(end) => {
            let block: &[u8] = slice_subrange(buf, 0, end);
            assert(block@ =~= buf@.take(end as int));
            if content_length(block) > buf.len() - (end + 4) {
                Arrival::Body
            } else {
                Arrival::Complete
            }
        },
        None => if buf.len() > HEADER_MAX {
            Arrival::Oversized
        } else {
            Arrival::Headers
        },
    }
}

} // verus!
