use std::cell::RefCell;
use std::rc::Rc;

use ferrum_kv::network::server::Session;
use ferrum_kv::protocol::encoder;
use ferrum_kv::storage::engine::KvEngine;
use ferrum_kv::storage::eviction::{EvictionConfig, EvictionPolicy};

/// A server without a socket: an engine that connections share.
struct Server {
    addr: Rc<RefCell<KvEngine>>,
}

/// A client whose bytes go straight to a session of the server.
struct Client {
    engine: Rc<RefCell<KvEngine>>,
    session: Session,
    inbox: Vec<u8>,
    closed: bool,
}

impl Client {
    fn write_all(&mut self, bytes: &[u8]) -> Result<(), String> {
        if self.closed {
            return Err("closed".to_string());
        }
        let verdict =
            self.session.on_data(bytes, &mut self.engine.borrow_mut(), &mut self.inbox);
        self.closed = verdict.close;
        Ok(())
    }

    fn read_exact(&mut self, out: &mut [u8]) -> Result<(), String> {
        if self.inbox.len() < out.len() {
            return Err(format!("only {:?}", self.inbox));
        }
        let rest = self.inbox.split_off(out.len());
        out.copy_from_slice(&self.inbox);
        self.inbox = rest;
        Ok(())
    }

    fn read(&mut self, out: &mut [u8]) -> Result<usize, String> {
        let n = self.inbox.len().min(out.len());
        self.read_exact(&mut out[..n])?;
        Ok(n)
    }
}

fn spawn_server_with_engine(engine: KvEngine) -> Server {
    Server { addr: Rc::new(RefCell::new(engine)) }
}

fn connect(engine: &Rc<RefCell<KvEngine>>) -> Client {
    Client {
        engine: Rc::clone(engine),
        session: Session::new(Some("127.0.0.1:50000".to_string())),
        inbox: Vec::new(),
        closed: false,
    }
}

fn build_request(args: &[&[u8]]) -> Vec<u8> {
    let mut out = Vec::new();
    encoder::encode_array_header(&mut out, args.len());
    for arg in args {
        encoder::encode_bulk_string(&mut out, arg);
    }
    out
}

fn send(stream: &mut Client, request: &[u8]) -> Vec<u8> {
    stream.write_all(request).expect("write request");
    std::mem::take(&mut stream.inbox)
}


/// Lets the monotonic clock move on.
fn pause() {
    let start = std::time::Instant::now();
    while start.elapsed().as_millis() < 5 {}
}

#[test]
fn memory_usage_reports_integer_for_known_key() {
    let engine = KvEngine::new();
    let guard = spawn_server_with_engine(engine);
    let mut stream = connect(&guard.addr);

    send(&mut stream, &build_request(&[b"SET", b"k", b"hello"]));
    let reply = send(&mut stream, &build_request(&[b"MEMORY", b"USAGE", b"k"]));
    // Payload is `:<N>\r\n`.
    let text = std::str::from_utf8(&reply).unwrap();
    assert!(text.starts_with(':'), "reply: {text:?}");
    let n: u64 = text[1..text.len() - 2].parse().unwrap();
    assert!(n >= (1 + 5), "memory usage should cover key+value: {n}");
}

#[test]
fn memory_usage_returns_null_bulk_for_missing_key() {
    let engine = KvEngine::new();
    let guard = spawn_server_with_engine(engine);
    let mut stream = connect(&guard.addr);

    let reply = send(
        &mut stream,
        &build_request(&[b"MEMORY", b"USAGE", b"absent"]),
    );
    assert_eq!(reply, b"$-1\r\n");
}

#[test]
fn info_memory_contains_used_memory_and_policy() {
    let mut engine = KvEngine::new();
    engine
        .set_eviction_config(EvictionConfig {
            max_memory: 1024,
            policy: EvictionPolicy::AllKeysLru,
            samples: 7,
        })
        .unwrap();
    let guard = spawn_server_with_engine(engine);
    let mut stream = connect(&guard.addr);

    let reply = send(&mut stream, &build_request(&[b"INFO", b"memory"]));
    let text = String::from_utf8_lossy(&reply);
    assert!(text.starts_with('$'), "reply: {text}");
    assert!(text.contains("used_memory:"));
    assert!(text.contains("maxmemory:1024"));
    assert!(text.contains("maxmemory_policy:allkeys-lru"));
    assert!(text.contains("maxmemory_samples:7"));
}

#[test]
fn noeviction_returns_oom_error_on_overflow() {
    let mut engine = KvEngine::new();
    engine
        .set_eviction_config(EvictionConfig {
            max_memory: 64, // tight
            policy: EvictionPolicy::NoEviction,
            samples: 5,
        })
        .unwrap();
    let guard = spawn_server_with_engine(engine);
    let mut stream = connect(&guard.addr);

    // First SET fits.
    send(&mut stream, &build_request(&[b"SET", b"k", b"v"]));
    // Second SET with a large value should bust the cap.
    let payload = vec![b'x'; 256];
    let reply = send(&mut stream, &build_request(&[b"SET", b"big", &payload]));
    let text = String::from_utf8_lossy(&reply);
    assert!(text.starts_with('-'), "expected error reply, got {text:?}");
}

#[test]
fn allkeys_lru_evicts_over_the_wire() {
    let mut engine = KvEngine::new();
    // Room for two small entries.
    engine
        .set_eviction_config(EvictionConfig {
            max_memory: 2 * (1 + 1 + 48),
            policy: EvictionPolicy::AllKeysLru,
            samples: 10,
        })
        .unwrap();
    let guard = spawn_server_with_engine(engine);
    let mut stream = connect(&guard.addr);

    send(&mut stream, &build_request(&[b"SET", b"a", b"1"]));
    pause();
    send(&mut stream, &build_request(&[b"SET", b"b", b"2"]));
    pause();
    // Touch `a` so `b` becomes the LRU victim.
    send(&mut stream, &build_request(&[b"GET", b"a"]));
    pause();
    send(&mut stream, &build_request(&[b"SET", b"c", b"3"]));

    // `b` should have been evicted; both `a` and `c` should be alive.
    let reply_b = send(&mut stream, &build_request(&[b"EXISTS", b"b"]));
    assert_eq!(reply_b, b":0\r\n");
    let reply_a = send(&mut stream, &build_request(&[b"EXISTS", b"a"]));
    assert_eq!(reply_a, b":1\r\n");
    let reply_c = send(&mut stream, &build_request(&[b"EXISTS", b"c"]));
    assert_eq!(reply_c, b":1\r\n");
}

#[test]
fn allkeys_lfu_evicts_cold_key_over_the_wire() {
    let mut engine = KvEngine::new();
    // Room for two small entries.
    engine
        .set_eviction_config(EvictionConfig {
            max_memory: 2 * (1 + 1 + 48),
            policy: EvictionPolicy::AllKeysLfu,
            samples: 10,
        })
        .unwrap();
    let guard = spawn_server_with_engine(engine);
    let mut stream = connect(&guard.addr);

    send(&mut stream, &build_request(&[b"SET", b"a", b"1"]));
    send(&mut stream, &build_request(&[b"SET", b"b", b"2"]));
    // Warm `a` with many reads so its LFU counter dwarfs `b`'s.
    for _ in 0..64 {
        send(&mut stream, &build_request(&[b"GET", b"a"]));
    }
    // Insert a third key so eviction has to pick between `a` and `b`.
    send(&mut stream, &build_request(&[b"SET", b"c", b"3"]));

    let reply_b = send(&mut stream, &build_request(&[b"EXISTS", b"b"]));
    assert_eq!(reply_b, b":0\r\n", "cold key `b` should be evicted");
    let reply_a = send(&mut stream, &build_request(&[b"EXISTS", b"a"]));
    assert_eq!(reply_a, b":1\r\n", "hot key `a` must survive");
    let reply_c = send(&mut stream, &build_request(&[b"EXISTS", b"c"]));
    assert_eq!(reply_c, b":1\r\n");
}

#[test]
fn allkeys_ahe_evicts_and_publishes_alpha_in_info() {
    let mut engine = KvEngine::new();
    engine
        .set_eviction_config(EvictionConfig {
            max_memory: 2 * (1 + 1 + 48),
            policy: EvictionPolicy::AllKeysAhe,
            samples: 10,
        })
        .unwrap();
    let guard = spawn_server_with_engine(engine);
    let mut stream = connect(&guard.addr);

    // Fill + warm so AHE has both recency and frequency signal.
    send(&mut stream, &build_request(&[b"SET", b"a", b"1"]));
    send(&mut stream, &build_request(&[b"SET", b"b", b"2"]));
    for _ in 0..32 {
        send(&mut stream, &build_request(&[b"GET", b"a"]));
    }
    // Force at least one eviction pass.
    send(&mut stream, &build_request(&[b"SET", b"c", b"3"]));

    // Cold key must be gone; hot key must live.
    let reply_b = send(&mut stream, &build_request(&[b"EXISTS", b"b"]));
    assert_eq!(reply_b, b":0\r\n");
    let reply_a = send(&mut stream, &build_request(&[b"EXISTS", b"a"]));
    assert_eq!(reply_a, b":1\r\n");

    let reply = send(&mut stream, &build_request(&[b"INFO", b"memory"]));
    let text = String::from_utf8_lossy(&reply);
    assert!(text.contains("maxmemory_policy:allkeys-ahe"));
    assert!(text.contains("ahe_alpha:"));
}

#[test]
fn info_stats_reports_keyspace_hits_and_misses() {
    let engine = KvEngine::new();
    let guard = spawn_server_with_engine(engine);
    let mut stream = connect(&guard.addr);

    send(&mut stream, &build_request(&[b"SET", b"k", b"v"]));
    // One hit, one miss.
    send(&mut stream, &build_request(&[b"GET", b"k"]));
    send(&mut stream, &build_request(&[b"GET", b"absent"]));

    let reply = send(&mut stream, &build_request(&[b"INFO", b"stats"]));
    let text = String::from_utf8_lossy(&reply);
    assert!(text.contains("keyspace_hits:1"), "reply: {text}");
    assert!(text.contains("keyspace_misses:1"), "reply: {text}");
}
