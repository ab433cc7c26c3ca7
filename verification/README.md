# FerrumKV

A key-value server that speaks RESP2, written in Verus. The library under `src/`
holds everything the server decides; each function states what it does, and
Verus proves it. The program under `app/` adds sockets, files and threads.

## The library

- `protocol` — RESP2 replies, frames and commands, and a line protocol.
- `storage` — the engine: keys, values, deadlines, memory accounting, eviction
  (LRU, LFU, TTL, random, SIEVE, AdaptiveClimb), glob scans, the slow log and
  active expiry.
- `persistence` — the append-only log, its replay and its rewriting.
- `network` — executing commands, client connections, and the web dashboard's
  requests and responses.
- `config` — the configuration file and the command line.
- `bytes`, `decimal`, `text`, `clock`, `error` — what the others share.

The state of the engine is the mathematical type `EngineView`
(`storage/engine/model.rs`). Every command is a function from a state and a
reading of the clock to a reply and a state, and the executable command is
proved to compute it. The laws relate the commands to each other:

- `storage/engine/laws.rs`, `room.rs`, `sight.rs` — reads and writes, lifetimes,
  counters, when the memory limit refuses a write;
- `storage/engine/durability.rs`, `persistence/laws.rs`, `persistence/history.rs`,
  `persistence/restart.rs` — what the log says is what the store holds, and a
  restart finds it again;
- `network/laws.rs` — pipelining, fragmented requests, authentication.

What is believed and not proved stands in a few small functions, each with a
comment that says what is claimed: `text.rs` (text conversions of the standard
library), `clock.rs` (the system clocks) and `storage/queue.rs` (`indexmap`).

## The program

```text
ferrum-kv [--addr HOST:PORT] [--aof-path PATH] [--appendfsync always|everysec|no]
```

The adaptive hybrid eviction policy scores keys with floating-point numbers, so
its score and its feedback loop live in `app/ahe.rs`; the library samples the
candidates and evicts the one that was chosen.
