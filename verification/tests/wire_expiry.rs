use std::cell::RefCell;
use std::rc::Rc;

use ferrum_kv::network::server::Session;
use ferrum_kv::protocol::encoder;
use ferrum_kv::storage::engine::KvEngine;
use ferrum_kv::storage::expire::sweep_tick;

/// A server without a socket: an engine that connections share.
struct Server {
    addr: Rc<RefCell<KvEngine>>,
}

/// A client whose bytes go straight to a session of the server.
struct Client {
    engine: Rc<RefCell<KvEngine>>,
    session: Session,
    inbox: Vec<u8>,
    closed: bool,
}

impl Client {
    fn write_all(&mut self, bytes: &[u8]) -> Result<(), String> {
        if self.closed {
            return Err("closed".to_string());
        }
        let verdict =
            self.session.on_data(bytes, &mut self.engine.borrow_mut(), &mut self.inbox);
        self.closed = verdict.close;
        Ok(())
    }

    fn read_exact(&mut self, out: &mut [u8]) -> Result<(), String> {
        if self.inbox.len() < out.len() {
            return Err(format!("only {:?}", self.inbox));
        }
        let rest = self.inbox.split_off(out.len());
        out.copy_from_slice(&self.inbox);
        self.inbox = rest;
        Ok(())
    }

    fn read(&mut self, out: &mut [u8]) -> Result<usize, String> {
        let n = self.inbox.len().min(out.len());
        self.read_exact(&mut out[..n])?;
        Ok(n)
    }
}

fn spawn_server_with_engine(engine: KvEngine) -> Server {
    Server { addr: Rc::new(RefCell::new(engine)) }
}

fn connect(engine: &Rc<RefCell<KvEngine>>) -> Client {
    Client {
        engine: Rc::clone(engine),
        session: Session::new(Some("127.0.0.1:50000".to_string())),
        inbox: Vec::new(),
        closed: false,
    }
}

fn build_request(args: &[&[u8]]) -> Vec<u8> {
    let mut out = Vec::new();
    encoder::encode_array_header(&mut out, args.len());
    for arg in args {
        encoder::encode_bulk_string(&mut out, arg);
    }
    out
}

fn spawn_server() -> Server {
    spawn_server_with_engine(KvEngine::new())
}

fn send(stream: &mut Client, request: &[u8]) -> Vec<u8> {
    stream.write_all(request).expect("write request");
    std::mem::take(&mut stream.inbox)
}

#[test]
fn ttl_returns_minus_two_for_missing_key() {
    let guard = spawn_server();
    let mut stream = connect(&guard.addr);

    let reply = send(&mut stream, &build_request(&[b"TTL", b"missing"]));
    assert_eq!(reply, b":-2\r\n");
}

#[test]
fn ttl_returns_minus_one_for_persistent_key() {
    let guard = spawn_server();
    let mut stream = connect(&guard.addr);

    send(&mut stream, &build_request(&[b"SET", b"k", b"v"]));
    let reply = send(&mut stream, &build_request(&[b"TTL", b"k"]));
    assert_eq!(reply, b":-1\r\n");
}

#[test]
fn expire_and_ttl_roundtrip() {
    let guard = spawn_server();
    let mut stream = connect(&guard.addr);

    send(&mut stream, &build_request(&[b"SET", b"k", b"v"]));
    let r = send(&mut stream, &build_request(&[b"EXPIRE", b"k", b"100"]));
    assert_eq!(r, b":1\r\n");

    let ttl = send(&mut stream, &build_request(&[b"TTL", b"k"]));
    let text = std::str::from_utf8(&ttl).unwrap();
    assert!(text.starts_with(':') && text.ends_with("\r\n"));
    let n: i64 = text[1..text.len() - 2].parse().unwrap();
    assert!((1..=100).contains(&n), "TTL out of range: {n}");
}

#[test]
fn persist_removes_ttl() {
    let guard = spawn_server();
    let mut stream = connect(&guard.addr);

    send(&mut stream, &build_request(&[b"SET", b"k", b"v"]));
    send(&mut stream, &build_request(&[b"EXPIRE", b"k", b"60"]));
    let r = send(&mut stream, &build_request(&[b"PERSIST", b"k"]));
    assert_eq!(r, b":1\r\n");
    let ttl = send(&mut stream, &build_request(&[b"TTL", b"k"]));
    assert_eq!(ttl, b":-1\r\n");
}

#[test]
fn expire_with_negative_seconds_deletes_key() {
    let guard = spawn_server();
    let mut stream = connect(&guard.addr);

    send(&mut stream, &build_request(&[b"SET", b"k", b"v"]));
    let r = send(&mut stream, &build_request(&[b"EXPIRE", b"k", b"-1"]));
    assert_eq!(r, b":1\r\n");
    let reply = send(&mut stream, &build_request(&[b"GET", b"k"]));
    assert_eq!(reply, b"$-1\r\n");
}

#[test]
fn set_overwrite_clears_ttl_on_wire() {
    let guard = spawn_server();
    let mut stream = connect(&guard.addr);

    send(&mut stream, &build_request(&[b"SET", b"k", b"v"]));
    send(&mut stream, &build_request(&[b"EXPIRE", b"k", b"60"]));
    send(&mut stream, &build_request(&[b"SET", b"k", b"v2"]));
    let ttl = send(&mut stream, &build_request(&[b"TTL", b"k"]));
    assert_eq!(ttl, b":-1\r\n");
}

#[test]
fn pexpire_triggers_background_eviction() {
    let guard = spawn_server();
    let mut stream = connect(&guard.addr);

    send(&mut stream, &build_request(&[b"SET", b"k", b"v"]));
    send(&mut stream, &build_request(&[b"PEXPIRE", b"k", b"50"]));
    let start = std::time::Instant::now();
    while start.elapsed().as_millis() < 60 {}
    sweep_tick(&mut guard.addr.borrow_mut(), 16);
    assert_eq!(guard.addr.borrow().used_memory(), 0);
    let reply = send(&mut stream, &build_request(&[b"EXISTS", b"k"]));
    assert_eq!(reply, b":0\r\n");
}
