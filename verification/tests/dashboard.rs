use ferrum_kv::network::dashboard::console::{decode_resp, encode_resp_array, tokenize_command};
use ferrum_kv::network::dashboard::form::{field_value, parse_query, url_decode};
use ferrum_kv::network::dashboard::json::json_string;
use ferrum_kv::network::dashboard::message::{
    arrival, find_subsequence, header_value, parse_request, split_byte, status_text,
    strip_prefix_byte, trim_ascii, Arrival, Request, Response,
};
use ferrum_kv::network::dashboard::routes::{route, write_asked, Figures, Outcome};
use ferrum_kv::protocol::frame::Command;
use ferrum_kv::storage::engine::KvEngine;

const PAGE: &str = "<!DOCTYPE html><title>keys</title>";

fn make_engine() -> KvEngine {
    let mut e = KvEngine::new();
    e.set(b"user:1".to_vec(), b"alice".to_vec()).unwrap();
    e.set(b"user:2".to_vec(), b"bob".to_vec()).unwrap();
    e.set(b"config:theme".to_vec(), b"dark".to_vec()).unwrap();
    e
}

fn figures() -> Figures {
    Figures {
        version: "0.1.0".to_string(),
        uptime_secs: 12,
        hit_ratio: "0.5000".to_string(),
        ahe_alpha: "0.500".to_string(),
        ahe_hit_ratio: "0.000".to_string(),
    }
}

fn req(method: &str, path: &str, query: &str, body: &[u8]) -> Request {
    Request {
        method: method.to_string(),
        path: path.to_string(),
        query: query.to_string(),
        body: body.to_vec(),
    }
}

fn ask(e: &mut KvEngine, method: &str, path: &str, query: &str, body: &[u8]) -> Response {
    let outcome: Outcome = route(e, PAGE, &figures(), &req(method, path, query, body));
    outcome.response
}

fn body_of(resp: &Response) -> String {
    String::from_utf8_lossy(&resp.body).into_owned()
}

#[test]
fn serves_index_html() {
    let mut e = make_engine();
    let resp = ask(&mut e, "GET", "/", "", b"");
    assert_eq!(resp.status, 200);
    assert!(body_of(&resp).contains("<!DOCTYPE html"));
}

#[test]
fn info_reports_keys() {
    let mut e = make_engine();
    let resp = ask(&mut e, "GET", "/api/info", "", b"");
    let body = body_of(&resp);
    assert!(body.contains("\"keys\":3"));
    assert!(body.contains("\"eviction_policy\""));
    assert_eq!(
        body,
        "{\"version\":\"0.1.0\",\"uptime_sec\":12,\"keys\":3,\"used_memory\":180,\"max_memory\":0,\
         \"eviction_policy\":\"noeviction\",\"hits\":0,\"misses\":0,\"hit_ratio\":0.5000,\
         \"ahe_alpha\":0.500,\"ahe_hit_ratio\":0.000,\"expires\":0,\"avg_ttl_ms\":0}"
    );
}

#[test]
fn keys_list_and_filter() {
    let mut e = make_engine();
    let resp = ask(&mut e, "GET", "/api/keys", "filter=user:*", b"");
    let body = body_of(&resp);
    assert!(body.contains("user:1"));
    assert!(body.contains("user:2"));
    assert!(!body.contains("config:theme"));
}

#[test]
fn create_get_update_delete_roundtrip() {
    let mut e = make_engine();
    let create = ask(&mut e, "POST", "/api/keys", "", b"key=tmp&value=hello&ttl=120");
    assert_eq!(create.status, 200);

    let got = ask(&mut e, "GET", "/api/keys/tmp", "", b"");
    assert_eq!(got.status, 200);
    let body = body_of(&got);
    assert!(body.contains("\"value\":\"hello\""));
    let ttl_idx = body.find("\"ttl_ms\":").unwrap() + 9;
    let rest = &body[ttl_idx..];
    let num_end = rest.find(|c: char| !c.is_ascii_digit()).unwrap_or(rest.len());
    let ttl_val: i64 = rest[..num_end].parse().unwrap();
    assert!(
        (119_000..=120_000).contains(&ttl_val),
        "expected ttl near 120000ms, got {ttl_val}"
    );

    let upd = ask(&mut e, "PUT", "/api/keys/tmp", "", b"value=world");
    assert_eq!(upd.status, 200);

    let del = ask(&mut e, "DELETE", "/api/keys/tmp", "", b"");
    assert!(body_of(&del).contains("\"deleted\":true"));

    let missing = ask(&mut e, "GET", "/api/keys/tmp", "", b"");
    assert_eq!(missing.status, 404);
}

#[test]
fn command_console_executes() {
    let mut e = make_engine();
    let resp = ask(&mut e, "POST", "/api/command", "", b"command=GET%20user:1");
    let body = body_of(&resp);
    assert!(body.contains("\"ok\":true"));
    assert!(body.contains("alice"));
}

#[test]
fn unknown_path_is_404() {
    let mut e = make_engine();
    let resp = ask(&mut e, "GET", "/nope", "", b"");
    assert_eq!(resp.status, 404);
}

#[test]
fn method_not_allowed() {
    let mut e = make_engine();
    let resp = ask(&mut e, "DELETE", "/api/info", "", b"");
    assert_eq!(resp.status, 405);
    assert_eq!(ask(&mut e, "PATCH", "/api/keys/a", "", b"").status, 405);
    assert_eq!(ask(&mut e, "GET", "/api/command", "", b"").status, 405);
    assert_eq!(ask(&mut e, "PUT", "/api/keys", "", b"").status, 405);
    assert_eq!(ask(&mut e, "POST", "/", "", b"").status, 405);
}

#[test]
fn pages_of_keys_are_exact() {
    let mut e = make_engine();
    let body = body_of(&ask(&mut e, "GET", "/api/keys", "offset=1&limit=1", b""));
    assert_eq!(
        body,
        "{\"total\":3,\"count\":1,\"offset\":1,\"keys\":[{\"key\":\"user:1\",\"type\":\"string\",\"ttl_ms\":-1}]}"
    );
    let body = body_of(&ask(&mut e, "GET", "/api/keys", "offset=9", b""));
    assert_eq!(body, "{\"total\":3,\"count\":0,\"offset\":9,\"keys\":[]}");
    let huge = format!("offset={}&limit={}", usize::MAX, usize::MAX);
    let body = body_of(&ask(&mut e, "GET", "/api/keys", &huge, b""));
    assert!(body.contains("\"count\":0"));
}

#[test]
fn form_errors_are_reported() {
    let mut e = make_engine();
    let resp = ask(&mut e, "POST", "/api/keys", "", b"value=1");
    assert_eq!((resp.status, body_of(&resp).as_str()), (400, "{\"error\":\"missing 'key'\"}"));
    let resp = ask(&mut e, "POST", "/api/keys", "", b"key=&value=1");
    assert_eq!(resp.status, 400);
    let resp = ask(&mut e, "POST", "/api/keys", "", &[0xff, b'=']);
    assert_eq!(resp.status, 400);
    let resp = ask(&mut e, "PUT", "/api/keys/a", "", b"ttl=5");
    assert_eq!((resp.status, body_of(&resp).as_str()), (400, "{\"error\":\"missing 'value'\"}"));
    let resp = ask(&mut e, "POST", "/api/command", "", b"");
    assert_eq!((resp.status, body_of(&resp).as_str()), (400, "{\"error\":\"missing 'command'\"}"));
    let resp = ask(&mut e, "POST", "/api/command", "", b"command=%22open");
    assert_eq!((resp.status, body_of(&resp).as_str()), (400, "{\"error\":\"empty command\"}"));
    let resp = ask(&mut e, "POST", "/api/command", "", b"command=+++");
    assert_eq!(resp.status, 400);
    let resp = ask(&mut e, "POST", "/api/command", "", b"command=GET");
    assert_eq!(
        (resp.status, body_of(&resp).as_str()),
        (400, "{\"error\":\"wrong number of arguments for 'GET' command\"}")
    );
    let long = format!("key={}&value=1", "k".repeat(65_537));
    let resp = ask(&mut e, "POST", "/api/keys", "", long.as_bytes());
    assert_eq!(resp.status, 500);
    assert!(body_of(&resp).contains("key too long (65537 bytes, max 65536)"));
}

#[test]
fn written_key_is_shown_and_deleted() {
    let mut e = KvEngine::new();
    let resp = ask(&mut e, "POST", "/api/keys", "", b"key=a%20b&value=say+%22hi%22");
    assert_eq!(body_of(&resp), "{\"ok\":true,\"key\":\"a b\"}");
    let resp = ask(&mut e, "GET", "/api/keys/a%20b", "", b"");
    assert_eq!(
        body_of(&resp),
        "{\"key\":\"a b\",\"type\":\"string\",\"value\":\"say \\\"hi\\\"\",\"ttl_ms\":-1}"
    );
    let resp = ask(&mut e, "DELETE", "/api/keys/a%20b", "", b"");
    assert_eq!(body_of(&resp), "{\"deleted\":true}");
    let resp = ask(&mut e, "DELETE", "/api/keys/a%20b", "", b"");
    assert_eq!(body_of(&resp), "{\"deleted\":false}");
    let resp = ask(&mut e, "GET", "/api/keys/a%20b", "", b"");
    assert_eq!((resp.status, body_of(&resp).as_str()), (404, "{\"error\":\"key not found\"}"));
}

#[test]
fn ttl_field_sets_and_clears_the_deadline() {
    let mut e = KvEngine::new();
    ask(&mut e, "POST", "/api/keys", "", b"key=k&value=v&ttl=60");
    assert!(body_of(&ask(&mut e, "GET", "/api/keys/k", "", b"")).contains("\"ttl_ms\":5"));
    ask(&mut e, "PUT", "/api/keys/k", "", b"value=v&ttl=0");
    assert!(body_of(&ask(&mut e, "GET", "/api/keys/k", "", b"")).contains("\"ttl_ms\":-1}"));
    ask(&mut e, "PUT", "/api/keys/k", "", b"value=v&ttl=soon");
    assert!(body_of(&ask(&mut e, "GET", "/api/keys/k", "", b"")).contains("\"ttl_ms\":-1}"));
}

#[test]
fn json_strings_are_escaped() {
    assert_eq!(json_string("plain"), "\"plain\"");
    assert_eq!(json_string("a\"b\\c\nd\re\tf\u{1}\u{1f}"), "\"a\\\"b\\\\c\\nd\\re\\tf\\u0001\\u001f\"");
    assert_eq!(json_string("\u{e9}"), "\"\u{e9}\"");
}

#[test]
fn url_decoding_handles_escapes_and_flaws() {
    assert_eq!(url_decode(b"a+b%20c%2Bd"), "a b c+d");
    assert_eq!(url_decode(b"%4a%4A"), "JJ");
    assert_eq!(url_decode(b"100%"), "100%");
    assert_eq!(url_decode(b"%zz"), "%zz");
    assert_eq!(url_decode(b"%c3%a9"), "\u{e9}");
    assert_eq!(url_decode(b"%ff"), "\u{fffd}");
}

#[test]
fn last_field_of_a_name_counts() {
    let fields = parse_query(b"a=1&&b&a=2");
    assert_eq!(fields.len(), 3);
    assert_eq!(field_value(&fields, "a"), Some("2".to_string()));
    assert_eq!(field_value(&fields, "b"), Some("".to_string()));
    assert_eq!(field_value(&fields, "c"), None);
}

#[test]
fn command_lines_are_split_into_words() {
    let words = tokenize_command(b"SET \"key with space\" \"val\\\"ue\"").unwrap();
    assert_eq!(words, vec![b"SET".to_vec(), b"key with space".to_vec(), b"val\"ue".to_vec()]);
    assert_eq!(tokenize_command(b"  a\tb\r\n").unwrap(), vec![b"a".to_vec(), b"b".to_vec()]);
    assert_eq!(tokenize_command(b"x\"y z\"w").unwrap(), vec![b"xy zw".to_vec()]);
    assert_eq!(tokenize_command(b"\"\"").unwrap(), vec![Vec::<u8>::new()]);
    assert!(tokenize_command(b"").unwrap().is_empty());
    assert!(tokenize_command(b"\"open").is_none());
    assert_eq!(
        encode_resp_array(&[b"GET".to_vec(), b"k".to_vec()]),
        b"*2\r\n$3\r\nGET\r\n$1\r\nk\r\n"
    );
}

#[test]
fn replies_are_shown_as_text() {
    assert_eq!(decode_resp(b"+OK\r\n"), "OK");
    assert_eq!(decode_resp(b"-ERR no\r\n"), "(error) ERR no");
    assert_eq!(decode_resp(b":42\r\n"), "42");
    assert_eq!(decode_resp(b"$5\r\nhello\r\n"), "hello");
    assert_eq!(decode_resp(b"$-1\r\n"), "(nil)");
    assert_eq!(decode_resp(b"*-1\r\n"), "(empty array)");
    assert_eq!(decode_resp(b"*0\r\n"), "");
    assert_eq!(decode_resp(b"*2\r\n$1\r\na\r\n*2\r\n:1\r\n$-1\r\n"), "a\n1\n(nil)");
    assert_eq!(decode_resp(b"$9\r\nshort\r\n"), "$9\r\nshort\r\n");
    assert_eq!(decode_resp(b"?"), "?");
    assert_eq!(decode_resp(b""), "");
}

#[test]
fn requests_are_parsed() {
    let raw = b"POST /api/keys?x=1&y=2 HTTP/1.1\r\nHost: h\r\ncontent-LENGTH:  5 \r\n\r\nhello tail";
    assert_eq!(arrival(raw), Arrival::Complete);
    let r = parse_request(raw).unwrap();
    assert_eq!((r.method.as_str(), r.path.as_str(), r.query.as_str()), ("POST", "/api/keys", "x=1&y=2"));
    assert_eq!(r.body, b"hello");

    let part = b"POST / HTTP/1.1\r\nContent-Length: 5\r\n\r\nhel";
    assert_eq!(arrival(part), Arrival::Body);
    assert!(parse_request(part).unwrap().body.is_empty());

    assert_eq!(arrival(b"GET / HTTP/1.1\r\n"), Arrival::Headers);
    assert!(parse_request(b"GET / HTTP/1.1\r\n").is_none());
    assert!(parse_request(b"GET\r\n\r\n").is_none());
    assert_eq!(arrival(&vec![b'x'; 1_048_577]), Arrival::Oversized);
    assert_eq!(arrival(&vec![b'x'; 1_048_576]), Arrival::Headers);
    let endless = b"GET / HTTP/1.1\r\nContent-Length: 18446744073709551615\r\n\r\n";
    assert_eq!(arrival(endless), Arrival::Body);
    assert!(parse_request(endless).unwrap().body.is_empty());
}

#[test]
fn byte_helpers_find_and_cut() {
    assert_eq!(find_subsequence(b"abcabc", b"ca"), Some(2));
    assert_eq!(find_subsequence(b"abc", b""), None);
    assert_eq!(find_subsequence(b"ab", b"abc"), None);
    assert_eq!(split_byte(b"k: v: w", b':'), Some((&b"k"[..], &b" v: w"[..])));
    assert_eq!(split_byte(b"none", b':'), None);
    assert_eq!(strip_prefix_byte(b"\rx", b'\r'), b"x");
    assert_eq!(strip_prefix_byte(b"x\r", b'\r'), b"x\r");
    assert_eq!(trim_ascii(b" \t\x0c a b \r\n"), b"a b");
    assert_eq!(trim_ascii(b"  "), b"");
    assert_eq!(header_value(b"A: 1\r\nB : 2 \r\nb: 3", "b"), Some("2".to_string()));
    assert_eq!(header_value(b"A: 1", "c"), None);
}

#[test]
fn responses_are_written_out() {
    assert_eq!(
        Response::with_status(404).to_bytes(),
        b"HTTP/1.1 404 Not Found\r\nContent-Type: text/plain; charset=utf-8\r\nContent-Length: 9\r\nConnection: close\r\n\r\nNot Found"
    );
    assert_eq!(Response::ok_json("{}").content_type, "application/json; charset=utf-8");
    assert_eq!(status_text(418), "Unknown");
    assert_eq!(status_text(204), "No Content");
}

#[test]
fn console_hands_a_rewrite_over() {
    let mut e = KvEngine::new();
    let r = req("POST", "/api/command", "", b"command=bgrewriteaof");
    let outcome = route(&mut e, PAGE, &figures(), &r);
    assert!(!outcome.start_rewrite);
    assert!(body_of(&outcome.response).contains("(error) ERR AOF is not enabled"));
    let log = ferrum_kv::persistence::AofWriter::new(ferrum_kv::persistence::FsyncPolicy::No);
    let mut e = KvEngine::new().with_aof(log);
    assert!(route(&mut e, PAGE, &figures(), &r).start_rewrite);
}

#[test]
fn quoted_words_come_back() {
    let words = vec![b"SET".to_vec(), b"a\"b\\".to_vec(), Vec::new(), b" x ".to_vec()];
    let mut line = Vec::new();
    for (i, word) in words.iter().enumerate() {
        if i > 0 {
            line.push(b' ');
        }
        line.push(b'"');
        for b in word {
            if *b == b'"' || *b == b'\\' {
                line.push(b'\\');
            }
            line.push(*b);
        }
        line.push(b'"');
    }
    assert_eq!(tokenize_command(&line), Some(words));
    line.pop();
    assert_eq!(tokenize_command(&line), None);
}

#[test]
fn a_request_tells_which_command_it_asks_for() {
    let asked = |method: &str, path: &str, body: &[u8]| write_asked(&req(method, path, "", body));
    let set = |key: &str, value: &str| {
        Some(format!(
            "{:?}",
            Command::SetKey { key: key.as_bytes().to_vec(), value: value.as_bytes().to_vec() }
        ))
    };
    let shown = |c: Option<Command>| c.map(|c| format!("{c:?}"));
    assert_eq!(shown(asked("POST", "/api/keys", b"key=k&value=v+w")), set("k", "v w"));
    assert_eq!(shown(asked("POST", "/api/keys", b"key=k")), set("k", ""));
    assert_eq!(shown(asked("PUT", "/api/keys/a%20b", b"value=v")), set("a b", "v"));
    assert_eq!(shown(asked("POST", "/api/command", b"command=SET+k+v")), set("k", "v"));
    assert!(asked("POST", "/api/keys", b"value=v").is_none());
    assert!(asked("GET", "/api/keys/a", b"").is_none());
    assert!(asked("DELETE", "/api/keys/a", b"value=v").is_none());
    assert!(asked("POST", "/api/command", b"command=NOPE").is_none());
    assert!(asked("POST", "/", b"key=k&value=v").is_none());
}
