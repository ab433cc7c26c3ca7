use std::cell::RefCell;
use std::rc::Rc;

use ferrum_kv::network::server::Session;
use ferrum_kv::protocol::encoder;
use ferrum_kv::storage::engine::KvEngine;

/// A server without a socket: an engine that connections share.
struct Server {
    addr: Rc<RefCell<KvEngine>>,
}

/// A client whose bytes go straight to a session of the server.
struct Client {
    engine: Rc<RefCell<KvEngine>>,
    session: Session,
    inbox: Vec<u8>,
    closed: bool,
}

impl Client {
    fn write_all(&mut self, bytes: &[u8]) -> Result<(), String> {
        if self.closed {
            return Err("closed".to_string());
        }
        let verdict =
            self.session.on_data(bytes, &mut self.engine.borrow_mut(), &mut self.inbox);
        self.closed = verdict.close;
        Ok(())
    }

    fn read_exact(&mut self, out: &mut [u8]) -> Result<(), String> {
        if self.inbox.len() < out.len() {
            return Err(format!("only {:?}", self.inbox));
        }
        let rest = self.inbox.split_off(out.len());
        out.copy_from_slice(&self.inbox);
        self.inbox = rest;
        Ok(())
    }

    fn read(&mut self, out: &mut [u8]) -> Result<usize, String> {
        let n = self.inbox.len().min(out.len());
        self.read_exact(&mut out[..n])?;
        Ok(n)
    }
}

fn spawn_server_with_engine(engine: KvEngine) -> Server {
    Server { addr: Rc::new(RefCell::new(engine)) }
}

fn connect(engine: &Rc<RefCell<KvEngine>>) -> Client {
    Client {
        engine: Rc::clone(engine),
        session: Session::new(Some("127.0.0.1:50000".to_string())),
        inbox: Vec::new(),
        closed: false,
    }
}

fn build_request(args: &[&[u8]]) -> Vec<u8> {
    let mut out = Vec::new();
    encoder::encode_array_header(&mut out, args.len());
    for arg in args {
        encoder::encode_bulk_string(&mut out, arg);
    }
    out
}

fn spawn_server() -> Server {
    spawn_server_with_engine(KvEngine::new())
}

fn send(stream: &mut Client, args: &[&[u8]]) -> Vec<u8> {
    let request = build_request(args);
    stream.write_all(&request).expect("write request");
    std::mem::take(&mut stream.inbox)
}

#[test]
fn config_set_enables_and_disables_slowlog() {
    let server = spawn_server();
    let mut s = connect(&server.addr);

    // Disabled by default (threshold 0): a SET is not logged.
    assert_eq!(
        send(
            &mut s,
            &[b"CONFIG", b"SET", b"slowlog-log-slower-than", b"0"]
        ),
        b"+OK\r\n"
    );
    assert_eq!(send(&mut s, &[b"SET", b"foo", b"bar"]), b"+OK\r\n");
    assert_eq!(send(&mut s, &[b"SLOWLOG", b"LEN"]), b":0\r\n");

    // Force-on via a negative threshold: everything is logged.
    assert_eq!(
        send(
            &mut s,
            &[b"CONFIG", b"SET", b"slowlog-log-slower-than", b"-1"]
        ),
        b"+OK\r\n"
    );
    assert_eq!(send(&mut s, &[b"SET", b"baz", b"qux"]), b"+OK\r\n");
    assert_eq!(send(&mut s, &[b"SLOWLOG", b"LEN"]), b":1\r\n");
}

#[test]
fn slowlog_records_args_and_client_addr() {
    let server = spawn_server();
    let mut s = connect(&server.addr);

    assert_eq!(
        send(
            &mut s,
            &[b"CONFIG", b"SET", b"slowlog-log-slower-than", b"-1"]
        ),
        b"+OK\r\n"
    );
    assert_eq!(send(&mut s, &[b"SET", b"k", b"v"]), b"+OK\r\n");

        let reply = send(&mut s, &[b"SLOWLOG", b"GET"]);
    // The SET entry's args were reconstructed: ["SET","k","v"].
    assert!(
        reply
            .windows(b"$3\r\nSET\r\n".len())
            .any(|w| w == b"$3\r\nSET\r\n"),
        "missing SET in slow-log args"
    );
    assert!(
        reply
            .windows(b"$1\r\nk\r\n".len())
            .any(|w| w == b"$1\r\nk\r\n"),
        "missing key k"
    );
    assert!(
        reply
            .windows(b"$1\r\nv\r\n".len())
            .any(|w| w == b"$1\r\nv\r\n"),
        "missing value v"
    );
    // Client address is the loopback peer.
    let text = String::from_utf8_lossy(&reply);
    assert!(
        text.contains("127.0.0.1:"),
        "expected client addr, got: {text}"
    );
    // Client name is an empty bulk.
    assert!(
        reply
            .windows(b"$0\r\n\r\n".len())
            .any(|w| w == b"$0\r\n\r\n"),
        "expected empty client-name bulk"
    );
}

#[test]
fn slowlog_reset_clears_ring() {
    let server = spawn_server();
    let mut s = connect(&server.addr);

    assert_eq!(
        send(
            &mut s,
            &[b"CONFIG", b"SET", b"slowlog-log-slower-than", b"-1"]
        ),
        b"+OK\r\n"
    );
    // `SET a b` is recorded (alongside the already-logged `CONFIG
    // SET` and any later commands), then RESET empties the ring.
    assert_eq!(send(&mut s, &[b"SET", b"a", b"b"]), b"+OK\r\n");
    assert_eq!(send(&mut s, &[b"SLOWLOG", b"RESET"]), b"+OK\r\n");
    assert_eq!(send(&mut s, &[b"SLOWLOG", b"LEN"]), b":0\r\n");
}

#[test]
fn config_get_round_trips_slowlog_params() {
    let server = spawn_server();
    let mut s = connect(&server.addr);

    // Defaults: threshold 10000us, max-len 128.
    let reply = send(&mut s, &[b"CONFIG", b"GET", b"slowlog-log-slower-than"]);
    assert!(
        reply
            .windows(b"$5\r\n10000\r\n".len())
            .any(|w| w == b"$5\r\n10000\r\n"),
        "expected default threshold 10000"
    );

    let reply = send(&mut s, &[b"CONFIG", b"GET", b"slowlog-max-len"]);
    assert!(
        reply
            .windows(b"$3\r\n128\r\n".len())
            .any(|w| w == b"$3\r\n128\r\n"),
        "expected default max-len 128"
    );

    // Wildcard GET includes both parameters.
    let reply = send(&mut s, &[b"CONFIG", b"GET", b"*"]);
    let text = String::from_utf8_lossy(&reply);
    assert!(text.contains("slowlog-log-slower-than"));
    assert!(text.contains("slowlog-max-len"));
}

#[test]
fn config_set_max_len_rejects_zero() {
    let server = spawn_server();
    let mut s = connect(&server.addr);
    let reply = send(&mut s, &[b"CONFIG", b"SET", b"slowlog-max-len", b"0"]);
    assert!(
        reply.starts_with(b"-ERR"),
        "expected ERR for max-len 0, got: {:?}",
        String::from_utf8_lossy(&reply)
    );
}
