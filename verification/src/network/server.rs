//! One client connection.
//!
//! A [`Session`] holds what a connection remembers between reads: the bytes of
//! an unfinished frame and whether the client has authenticated. Bytes go in
//! as they arrive; replies come out in the order of the requests.

use vstd::prelude::*;
use vstd::string::*;
use vstd::utf8::encode_utf8;

use crate::bytes::push_all;
use crate::clock::Clock;
use crate::network::execute::{
    error_reply, execute_at, executed, push_raw_error, raw_error, write_ferrum_error,
};
use crate::persistence::resp::vec_views;
use crate::protocol::frame::{
    command_from_parts, protocol_error, wire_meaning, Command, WireCommand,
};
use crate::protocol::reader::{read_frame_at, read_record, RecordRead, Step};
use crate::storage::engine::model::EngineView;
use crate::storage::engine::slowlog::{copy_parts, text_view};
use crate::storage::engine::KvEngine;

verus! {

/// The most bytes that may wait for the rest of a frame.
pub const READ_BUF_MAX: usize = 16_777_216;

/// What a request is measured with: the clock as it began and as it ended.
pub struct Tick {
    pub now: Clock,
    pub end: Clock,
}

impl Tick {
    /// Whether neither reading stands before the epoch.
    pub open spec fn dated(self) -> bool {
        self.now.epoch_ms >= 0 && self.end.epoch_ms >= 0
    }

    /// How long the request took, in whole microseconds.
    pub open spec fn duration_us(self) -> u64 {
        if self.end.mono_ns >= self.now.mono_ns {
            ((self.end.mono_ns - self.now.mono_ns) / 1000) as u64
        } else {
            0
        }
    }

    /// The second at which the request ended.
    pub open spec fn ts_secs(self) -> u64 {
        (self.end.epoch_ms / 1000) as u64
    }
}

/// Whether no reading of the clock stands before the epoch.
pub open spec fn in_epoch(ticks: Seq<Tick>) -> bool {
    forall|i: int| 0 <= i < ticks.len() ==> (#[trigger] ticks[i]).dated()
}

/// The tick of a frame that ran no command.
spec fn no_tick() -> Tick {
    Tick { now: Clock { mono_ns: 0, epoch_ms: 0 }, end: Clock { mono_ns: 0, epoch_ms: 0 } }
}

/// A connection and the engine behind it.
#[verifier::ext_equal]
pub struct ServerView {
    pub engine: EngineView,
    /// Received bytes that were not consumed yet.
    pub buf: Seq<u8>,
    pub authenticated: bool,
    pub peer: Option<Seq<char>>,
    /// Replies so far.
    pub out: Seq<u8>,
    /// Whether the connection is to be closed.
    pub closed: bool,
    /// Whether a log rewrite is to be started.
    pub rewrite: bool,
}

/// Whether a command must be refused for want of authentication.
pub open spec fn gated(v: ServerView, c: WireCommand) -> bool {
    v.engine.password is Some && !v.authenticated && !(c is Auth)
}

/// The reply to a command that must be refused.
pub open spec fn noauth_reply() -> Seq<u8> {
    raw_error(encode_utf8("NOAUTH Authentication required."@))
}

/// Whether a command starts a log rewrite.
pub open spec fn starts_rewrite(s: EngineView, c: WireCommand) -> bool {
    c is BgRewriteAof && (s.log matches Some(a) && !a.rewriting)
}

/// The engine after the slow log heard of a command.
pub open spec fn slow_logged(
    before: EngineView,
    after: EngineView,
    c: WireCommand,
    parts: Seq<Seq<u8>>,
    peer: Option<Seq<char>>,
    t: Tick,
) -> EngineView {
    if before.slow.threshold_us != 0 && !(c is SlowLogReset) {
        EngineView { slow: after.slow.pushed(parts, peer, t.duration_us(), t.ts_secs()), ..after }
    } else {
        after
    }
}

/// The connection after a command.
pub open spec fn answered(
    v: ServerView,
    c: WireCommand,
    parts: Seq<Seq<u8>>,
    t: Tick,
) -> ServerView {
    if gated(v, c) {
        ServerView { out: v.out + noauth_reply(), ..v }
    } else {
        let (reply, after) = executed(v.engine, c, t.now);
        ServerView {
            engine: slow_logged(v.engine, after, c, parts, v.peer, t),
            out: v.out + reply,
            authenticated: v.authenticated || (c matches WireCommand::Auth { password }
                && v.engine.authenticated(password) == Ok::<bool, crate::error::ErrorView>(true)),
            rewrite: v.rewrite || starts_rewrite(v.engine, c),
            ..v
        }
    }
}

/// Whether the buffer holds no complete frame.
pub open spec fn idle(buf: Seq<u8>) -> bool {
    buf.len() == 0 || read_frame_at(buf, 0) is Short
}

/// The connection after its first frame. A frame that is no command is answered
/// with an error; bytes that are no frame close the connection.
#[verifier::opaque]
pub open spec fn stepped(v: ServerView, t: Tick) -> ServerView {
    if v.closed || idle(v.buf) {
        v
    } else {
        match read_frame_at(v.buf, 0) {
            Step::Short => v,
            Step::Bad { end } => ServerView {
                out: v.out + error_reply(protocol_error()),
                closed: true,
                ..v
            },
            Step::Done { value: parts, end } => {
                let rest = ServerView { buf: v.buf.skip(end), ..v };
                match wire_meaning(parts) {
                    Ok(c) => answered(rest, c, parts, t),
                    Err(e) => ServerView { out: v.out + error_reply(e), ..rest },
                }
            },
        }
    }
}

/// The connection after several frames.
pub open spec fn served(v: ServerView, ticks: Seq<Tick>) -> ServerView
    decreases ticks.len(),
{
    if ticks.len() == 0 {
        v
    } else {
        stepped(served(v, ticks.drop_last()), ticks.last())
    }
}

/// Whether each of the ticks measured a frame.
pub open spec fn all_used(v: ServerView, ticks: Seq<Tick>) -> bool
    decreases ticks.len(),
{
    ticks.len() == 0 || {
        let before = served(v, ticks.drop_last());
        all_used(v, ticks.drop_last()) && !before.closed && !idle(before.buf)
    }
}

/// The connection after its buffer was checked for its size.
pub open spec fn size_checked(v: ServerView) -> ServerView {
    if !v.closed && v.buf.len() > READ_BUF_MAX {
        ServerView {
            out: v.out + raw_error(encode_utf8("ERR request too large"@)),
            closed: true,
            ..v
        }
    } else {
        v
    }
}

/// What the owner of the socket is to do after bytes were handled.
#[derive(Debug, Clone, Copy, PartialEq, Eq, Structural)]
pub struct Verdict {
    /// Close the connection once the replies are written.
    pub close: bool,
    /// Start a log rewrite.
    pub start_rewrite: bool,
}

/// Whether a chunk takes a connection from one state to another, with the
/// frames measured as `ticks` says: every complete frame is answered, or the
/// connection is closed; a requested rewrite is handed over in the verdict.
pub open spec fn taken_in(
    start: ServerView,
    chunk: Seq<u8>,
    ticks: Seq<Tick>,
    end: ServerView,
    verdict: Verdict,
) -> bool {
    let received = ServerView { buf: start.buf + chunk, ..start };
    let v = served(received, ticks);
    let w = size_checked(v);
    &&& all_used(received, ticks)
    &&& in_epoch(ticks)
    &&& v.closed || idle(v.buf)
    &&& end == ServerView { rewrite: false, ..w }
    &&& verdict.close == w.closed
    &&& verdict.start_rewrite == w.rewrite
}

/// The state of a connection.
#[derive(Debug)]
pub struct Session {
    inbuf: Vec<u8>,
    authenticated: bool,
    peer: Option<String>,
    closed: bool,
    start_rewrite: bool,
}

impl Session {
    /// The session with the engine and the replies so far.
    pub closed spec fn state(&self, engine: EngineView, out: Seq<u8>) -> ServerView {
        ServerView {
            engine,
            buf: self.inbuf@,
            authenticated: self.authenticated,
            peer: text_view(self.peer),
            out,
            closed: self.closed,
            rewrite: self.start_rewrite,
        }
    }

    /// A new connection: nothing received, not authenticated.
    pub fn new(peer: Option<String>) -> (session: Session)
        ensures
            forall|engine: EngineView, out: Seq<u8>|
                #[trigger] session.state(engine, out) == (ServerView {
                    engine,
                    buf: Seq::empty(),
                    authenticated: false,
                    peer: text_view(peer),
                    out,
                    closed: false,
                    rewrite: false,
                }),
    {
        let session = Session {
            inbuf: Vec::new(),
            authenticated: false,
            peer,
            closed: false,
            start_rewrite: false,
        };
        assert(session.inbuf@ =~= Seq::<u8>::empty());
        session
    }

    /// Whether the client may run commands: it has given the password, or there
    /// is none.
    pub fn has_access(&self, engine: &KvEngine) -> (yes: bool)
        ensures
            forall|out: Seq<u8>|
                yes == (engine@.password is None || (#[trigger] self.state(
                    engine@,
                    out,
                )).authenticated),
    {
        match engine.requirepass() {
            Ok(Some(_)) => self.authenticated,
            _ => true,
        }
    }

    /// Executes a command for this connection and appends its reply.
    fn answer(
        &mut self,
        command: Command,
        parts: &[Vec<u8>],
        engine: &mut KvEngine,
        out: &mut Vec<u8>,
    )
        requires
            old(engine).wf(),
        ensures
            final(engine).wf(),
            exists|t: Tick|
                t.dated() && final(self).state(final(engine)@, final(out)@)
                    == #[trigger] answered(
                    old(self).state(old(engine)@, old(out)@),
                    command@,
                    vec_views(parts@),
                    t,
                ),
    {
        let is_auth: bool = match &command {
            Command::Auth { password } => true,
            _ => false,
        };
        let has_password: bool = match engine.requirepass() {
            Ok(Some(_)) => true,
            _ => false,
        };
        let start: Clock = engine.now();
        let ghost c = command@;
        let ghost v = self.state(engine@, out@);
        if has_password && !self.authenticated && !is_auth {
            push_raw_error(out, "NOAUTH Authentication required.".as_bytes());
            proof {
                let t = Tick { now: start, end: start };
                assert(self.state(engine@, out@) =~= answered(v, c, vec_views(parts@), t));
            }
            return;
        }
        let unlocked: bool = match &command {
            Command::Auth { password } => match engine.authenticate(password.as_slice()) {
                Ok(yes) => yes,
                Err(_) => false,
            },
            _ => false,
        };
        let start_rewrite: bool = match &command {
            Command::BgRewriteAof => match engine.rewrite_aof() {
                Ok(yes) => yes,
                Err(_) => false,
            },
            _ => false,
        };
        let logs: bool = engine.slowlog_active() && (match &command {
            Command::SlowLogReset => false,
            _ => true,
        });
        execute_at(command, engine, out, start);
        if unlocked {
            self.authenticated = true;
        }
        if start_rewrite {
            self.start_rewrite = true;
        }
        let end: Clock = engine.now();
        let duration_us: u64 = if end.mono_ns >= start.mono_ns {
            (end.mono_ns - start.mono_ns) / 1000
        } else {
            0
        };
        let ts_secs: u64 = end.epoch_ms as u64 / 1000;
        if logs {
            let peer: Option<String> = match &self.peer {
                Some(p) => Some(p.clone()),
                None => None,
            };
            engine.maybe_push_slowlog_at(copy_parts(parts), peer, duration_us, ts_secs);
        }
        proof {
            let t = Tick { now: start, end };
            assert(self.state(engine@, out@) =~= answered(v, c, vec_views(parts@), t));
        }
    }

    /// Answers the first frame of the buffer; says whether there was one and the
    /// connection stays open.
    fn step(&mut self, engine: &mut KvEngine, out: &mut Vec<u8>) -> (more: bool)
        requires
            old(engine).wf(),
        ensures
            final(engine).wf(),
            exists|t: Tick|
                t.dated() && final(self).state(final(engine)@, final(out)@)
                    == #[trigger] stepped(old(self).state(old(engine)@, old(out)@), t),
            !more ==> (final(self).closed || idle(final(self).inbuf@)) && final(self).inbuf@
                == old(self).inbuf@,
            more ==> final(self).inbuf@.len() < old(self).inbuf@.len() && final(self).closed
                == old(self).closed,
    {
        proof {
            reveal(stepped);
        }
        let ghost v = self.state(engine@, out@);
        if self.closed {
            proof {
                let t = no_tick();
                assert(self.state(engine@, out@) =~= stepped(v, t));
            }
            return false;
        }
        match read_record(self.inbuf.as_slice(), 0) {
            RecordRead::End => {
                proof {
                    let t = no_tick();
                    assert(self.state(engine@, out@) =~= stepped(v, t));
                }
                false
            },
            RecordRead::Partial { consumed } => {
                proof {
                    let t = no_tick();
                    assert(self.state(engine@, out@) =~= stepped(v, t));
                }
                false
            },
            RecordRead::Malformed { consumed } => {
                write_ferrum_error(
                    out,
                    &crate::error::FerrumError::ParseError(
                        "Protocol error: expected an array of bulk strings".to_owned(),
                    ),
                );
                self.closed = true;
                proof {
                    let t = no_tick();
                    assert(self.state(engine@, out@) =~= stepped(v, t));
                }
                false
            },
            RecordRead::Record { parts, consumed } => {
                let rest: Vec<u8> = self.inbuf.split_off(consumed);
                self.inbuf = rest;
                let ghost w = self.state(engine@, out@);
                assert(w =~= (ServerView { buf: v.buf.skip(consumed as int), ..v }));
                match command_from_parts(parts.as_slice()) {
                    Ok(command) => {
                        let ghost c = command@;
                        self.answer(command, parts.as_slice(), engine, out);
                        proof {
                            let t = choose|t: Tick|
                                t.dated() && self.state(engine@, out@)
                                    == #[trigger] answered(
                                    w,
                                    c,
                                    vec_views(parts@),
                                    t,
                                );
                            assert(self.state(engine@, out@) == stepped(v, t));
                            assert(self.state(engine@, out@).buf == w.buf);
                        }
                    },
                    Err(e) => {
                        write_ferrum_error(out, &e);
                        proof {
                            let t = no_tick();
                            assert(self.state(engine@, out@) =~= stepped(v, t));
                        }
                    },
                }
                true
            },
        }
    }

    /// Takes in received bytes and answers every complete frame.
    ///
    /// Replies are appended in the order of the requests. What is left of an
    /// unfinished frame waits for more bytes; if that grows too large the
    /// connection is closed with an error.
    pub fn on_data(&mut self, chunk: &[u8], engine: &mut KvEngine, out: &mut Vec<u8>) -> (verdict:
        Verdict)
        requires
            old(engine).wf(),
        ensures
            final(engine).wf(),
            exists|ticks: Seq<Tick>|
                #[trigger] taken_in(
                    old(self).state(old(engine)@, old(out)@),
                    chunk@,
                    ticks,
                    final(self).state(final(engine)@, final(out)@),
                    verdict,
                ),
    {
        let ghost start = self.state(engine@, out@);
        push_all(&mut self.inbuf, chunk);
        let ghost first = self.state(engine@, out@);
        assert(first =~= (ServerView { buf: start.buf + chunk@, ..start }));
        let ghost mut ticks: Seq<Tick> = Seq::empty();
        let mut more: bool = true;
        while more
            invariant
                engine.wf(),
                self.state(engine@, out@) == served(first, ticks),
                all_used(first, ticks),
                in_epoch(ticks),
                !more ==> self.closed || idle(self.inbuf@),
            decreases self.inbuf@.len(), (if more { 1int } else { 0 }),
        {
            let ghost before = self.state(engine@, out@);
            more = self.step(engine, out);
            proof {
                let t = choose|t: Tick|
                    t.dated() && self.state(engine@, out@) == #[trigger] stepped(
                        before,
                        t,
                    );
                if before.closed || idle(before.buf) {
                    reveal(stepped);
                } else {
                    let longer = ticks.push(t);
                    assert(longer.drop_last() =~= ticks);
                    assert(served(first, longer) == stepped(served(first, ticks), t));
                    ticks = longer;
                }
            }
        }
        let ghost v = self.state(engine@, out@);
        if !self.closed && self.inbuf.len() > READ_BUF_MAX {
            push_raw_error(out, "ERR request too large".as_bytes());
            self.closed = true;
        }
        let ghost w = self.state(engine@, out@);
        assert(w =~= size_checked(v));
        let verdict = Verdict { close: self.closed, start_rewrite: self.start_rewrite };
        self.start_rewrite = false;
        assert(self.state(engine@, out@) =~= (ServerView { rewrite: false, ..w }));
        assert(taken_in(start, chunk@, ticks, self.state(engine@, out@), verdict));
        verdict
    }
}

/// Whether there is room for one more connection.
pub open spec fn has_room(active: usize, max_clients: usize) -> bool {
    max_clients == 0 || active < max_clients
}

/// Whether one more connection is taken; a limit of zero means none.
pub fn admits(active: usize, max_clients: usize) -> (yes: bool)
    ensures
        yes == (max_clients == 0 || active < max_clients),
        yes == has_room(active, max_clients),
{
    max_clients == 0 || active < max_clients
}

/// What a connection that is not taken is told.
pub open spec fn refusal_line() -> Seq<u8> {
    raw_error(encode_utf8("ERR max number of clients reached"@))
}

/// What a connection that is not taken is told before it is closed.
pub fn refusal() -> (out: Vec<u8>)
    ensures
        out@ == raw_error(encode_utf8("ERR max number of clients reached"@)),
        out@ == refusal_line(),
{
    let mut out: Vec<u8> = Vec::new();
    push_raw_error(&mut out, "ERR max number of clients reached".as_bytes());
    assert(out@ =~= raw_error(encode_utf8("ERR max number of clients reached"@)));
    out
}

} // verus!
