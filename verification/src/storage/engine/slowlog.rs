//! The slow log: a bounded ring of the slowest commands.

use std::collections::VecDeque;

use vstd::prelude::*;
use vstd::string::*;

use crate::bytes::copied;
use crate::persistence::resp::vec_views;

verus! {

/// One recorded command.
#[derive(Debug)]
pub struct SlowLogEntry {
    /// Numbers grow by one with each recorded command, from one.
    pub id: u64,
    /// When the command ran, in seconds since the Unix epoch.
    pub ts_secs: u64,
    /// How long it ran, in microseconds.
    pub duration_us: u64,
    /// The command as it was sent.
    pub args: Vec<Vec<u8>>,
    /// The client's address.
    pub peer: String,
}

/// The mathematical content of a [`SlowLogEntry`].
#[verifier::ext_equal]
pub struct SlowEntryView {
    pub id: u64,
    pub ts_secs: u64,
    pub duration_us: u64,
    pub args: Seq<Seq<u8>>,
    pub peer: Seq<char>,
}

impl View for SlowLogEntry {
    type V = SlowEntryView;

    open spec fn view(&self) -> SlowEntryView {
        SlowEntryView {
            id: self.id,
            ts_secs: self.ts_secs,
            duration_us: self.duration_us,
            args: vec_views(self.args@),
            peer: self.peer@,
        }
    }
}

/// The ring, oldest entry first, and its settings.
#[verifier::ext_equal]
pub struct SlowLogView {
    /// Microseconds that a command must exceed; zero switches the log off and
    /// a negative number records everything.
    pub threshold_us: i64,
    /// How many entries the ring keeps.
    pub max_len: u64,
    /// The number of the latest recorded command.
    pub last_id: u64,
    pub ring: Seq<SlowEntryView>,
}

pub open spec fn next_u64(n: u64) -> u64 {
    if n == u64::MAX {
        0
    } else {
        (n + 1) as u64
    }
}

/// The address that stands for a client whose address is not known.
pub open spec fn peer_or_unspecified(peer: Option<Seq<char>>) -> Seq<char> {
    match peer {
        Some(p) => p,
        None => "0.0.0.0:0"@,
    }
}

/// The last `n` elements, or all if there are fewer.
pub open spec fn newest<T>(s: Seq<T>, n: int) -> Seq<T> {
    if s.len() <= n {
        s
    } else {
        s.skip(s.len() - n)
    }
}

impl SlowLogView {
    pub open spec fn initial() -> SlowLogView {
        SlowLogView { threshold_us: 10_000, max_len: 128, last_id: 0, ring: Seq::empty() }
    }

    /// Whether a command of this duration is recorded.
    pub open spec fn records(self, duration_us: u64) -> bool {
        self.threshold_us < 0 || (self.threshold_us > 0 && duration_us > self.threshold_us)
    }

    /// How many entries are kept: at least one.
    pub open spec fn capacity(self) -> int {
        if self.max_len == 0 {
            1
        } else {
            self.max_len as int
        }
    }

    /// After a command ran.
    pub open spec fn pushed(
        self,
        args: Seq<Seq<u8>>,
        peer: Option<Seq<char>>,
        duration_us: u64,
        ts_secs: u64,
    ) -> SlowLogView {
        if self.records(duration_us) {
            let entry = SlowEntryView {
                id: next_u64(self.last_id),
                ts_secs,
                duration_us,
                args,
                peer: peer_or_unspecified(peer),
            };
            SlowLogView {
                last_id: next_u64(self.last_id),
                ring: newest(self.ring.push(entry), self.capacity()),
                ..self
            }
        } else {
            self
        }
    }
}

/// The slow log.
#[derive(Debug)]
pub struct SlowLog {
    threshold_us: i64,
    max_len: u64,
    last_id: u64,
    ring: VecDeque<SlowLogEntry>,
}

spec fn ring_view(ring: Seq<SlowLogEntry>) -> Seq<SlowEntryView> {
    ring.map_values(|e: SlowLogEntry| e@)
}

impl View for SlowLog {
    type V = SlowLogView;

    closed spec fn view(&self) -> SlowLogView {
        SlowLogView {
            threshold_us: self.threshold_us,
            max_len: self.max_len,
            last_id: self.last_id,
            ring: ring_view(self.ring@),
        }
    }
}

/// The view of an optional text.
pub open spec fn text_view(t: Option<String>) -> Option<Seq<char>> {
    match t {
        Some(s) => Some(s@),
        None => None,
    }
}

/// Copies a list of byte strings.
pub fn copy_parts(parts: &[Vec<u8>]) -> (copy: Vec<Vec<u8>>)
    ensures
        vec_views(copy@) == vec_views(parts@),
{
    let mut copy: Vec<Vec<u8>> = Vec::new();
    let mut i: usize = 0;
    while i < parts.len()
        invariant
            i <= parts.len(),
            vec_views(copy@) == vec_views(parts@.take(i as int)),
        decreases parts.len() - i,
    {
        let part: Vec<u8> = copied(parts[i].as_slice());
        let ghost before = vec_views(copy@);
        copy.push(part);
        assert(vec_views(copy@) =~= before.push(part@));
        assert(vec_views(parts@.take(i as int + 1)) =~= vec_views(parts@.take(i as int)).push(
            parts@[i as int]@,
        ));
        i += 1;
    }
    assert(parts@.take(i as int) =~= parts@);
    copy
}

impl SlowLog {
    /// An empty log: commands over ten milliseconds, 128 entries.
    pub fn new() -> (log: SlowLog)
        ensures
            log@ == SlowLogView::initial(),
    {
        let log = SlowLog { threshold_us: 10_000, max_len: 128, last_id: 0, ring: VecDeque::new() };
        assert(log@ =~= SlowLogView::initial());
        log
    }

    /// Whether anything can be recorded.
    pub fn is_active(&self) -> (yes: bool)
        ensures
            yes == (self@.threshold_us != 0),
    {
        self.threshold_us != 0
    }

    /// Records a command that ran longer than the threshold.
    pub fn push(&mut self, args: Vec<Vec<u8>>, peer: Option<String>, duration_us: u64, ts_secs: u64)
        ensures
            final(self)@ == old(self)@.pushed(
                vec_views(args@),
                text_view(peer),
                duration_us,
                ts_secs,
            ),
    {
        let record: bool = if self.threshold_us == 0 {
            false
        } else if self.threshold_us < 0 {
            true
        } else {
            duration_us > self.threshold_us as u64
        };
        if !record {
            return;
        }
        self.last_id = self.last_id.wrapping_add(1);
        let entry = SlowLogEntry {
            id: self.last_id,
            ts_secs,
            duration_us,
            args,
            peer: match peer {
                Some(p) => p,
                None => "0.0.0.0:0".to_owned(),
            },
        };
        let ghost before = ring_view(self.ring@);
        let ghost added = entry@;
        self.ring.push_back(entry);
        let ghost grown = before.push(added);
        assert(ring_view(self.ring@) =~= grown);
        let keep: u64 = if self.max_len == 0 {
            1
        } else {
            self.max_len
        };
        assert(grown.skip(0) =~= grown);
        let ghost mut dropped: int = 0;
        while self.ring.len() as u64 > keep
            invariant
                0 <= dropped <= grown.len(),
                ring_view(self.ring@) == grown.skip(dropped),
                dropped > 0 ==> self.ring@.len() >= keep,
                keep >= 1,
                self.last_id == old(self)@.pushed(
                    vec_views(args@),
                    text_view(peer),
                    duration_us,
                    ts_secs,
                ).last_id,
                self.max_len == old(self).max_len,
                self.threshold_us == old(self).threshold_us,
            decreases self.ring@.len(),
        {
            let ghost was = ring_view(self.ring@);
            let oldest = self.ring.pop_front();
            proof {
                assert(ring_view(self.ring@) =~= was.skip(1));
                assert(grown.skip(dropped).skip(1) =~= grown.skip(dropped + 1));
                dropped = dropped + 1;
            }
        }
        assert(ring_view(self.ring@) =~= newest(grown, keep as int));
    }

    /// Copies of the newest `count` entries, or of all, newest first.
    pub fn get(&self, count: Option<usize>) -> (entries: Vec<SlowLogEntry>)
        ensures
            entries.len() == (match count {
                Some(n) if n < self@.ring.len() => n as int,
                _ => self@.ring.len() as int,
            }),
            forall|i: int|
                0 <= i < entries.len() ==> (#[trigger] entries@[i])@ == self@.ring[self@.ring.len()
                    - 1 - i],
    {
        let len: usize = self.ring.len();
        let n: usize = match count {
            Some(c) => if c < len {
                c
            } else {
                len
            },
            None => len,
        };
        let mut entries: Vec<SlowLogEntry> = Vec::new();
        let mut i: usize = 0;
        while i < n
            invariant
                i <= n <= len,
                len == self.ring@.len(),
                entries.len() == i,
                forall|j: int|
                    0 <= j < i ==> (#[trigger] entries@[j])@ == ring_view(self.ring@)[len - 1 - j],
            decreases n - i,
        {
            let e = &self.ring[len - 1 - i];
            let copy = SlowLogEntry {
                id: e.id,
                ts_secs: e.ts_secs,
                duration_us: e.duration_us,
                args: copy_parts(e.args.as_slice()),
                peer: e.peer.clone(),
            };
            assert(copy@ == self.ring@[len - 1 - i]@);
            entries.push(copy);
            i += 1;
        }
        entries
    }

    /// The number of entries.
    pub fn len(&self) -> (n: usize)
        ensures
            n == self@.ring.len(),
    {
        self.ring.len()
    }

    /// Removes every entry. Numbering goes on.
    pub fn reset(&mut self)
        ensures
            final(self)@ == (SlowLogView { ring: Seq::empty(), ..old(self)@ }),
    {
        self.ring.clear();
        assert(self@ =~= (SlowLogView { ring: Seq::empty(), ..old(self)@ }));
    }

    pub fn threshold_us(&self) -> (us: i64)
        ensures
            us == self@.threshold_us,
    {
        self.threshold_us
    }

    pub fn max_len(&self) -> (n: u64)
        ensures
            n == self@.max_len,
    {
        self.max_len
    }

    pub fn set_threshold_us(&mut self, us: i64)
        ensures
            final(self)@ == (SlowLogView { threshold_us: us, ..old(self)@ }),
    {
        self.threshold_us = us;
    }

    pub fn set_max_len(&mut self, n: u64)
        ensures
            final(self)@ == (SlowLogView { max_len: n, ..old(self)@ }),
    {
        self.max_len = n;
    }
}

/// The ring never outgrows its capacity by recording, and what it keeps are the
/// newest entries.
pub proof fn law_slowlog_bounded(
    log: SlowLogView,
    args: Seq<Seq<u8>>,
    peer: Option<Seq<char>>,
    duration_us: u64,
    ts_secs: u64,
)
    requires
        log.records(duration_us),
    ensures
        log.pushed(args, peer, duration_us, ts_secs).ring.len() <= log.capacity(),
        log.pushed(args, peer, duration_us, ts_secs).ring.last().id == next_u64(log.last_id),
        log.pushed(args, peer, duration_us, ts_secs).ring.last().args == args,
{
}

/// Whether the entries are numbered one after the other, up to the latest number
/// given out. Past the largest number the count starts over.
pub open spec fn numbered(log: SlowLogView) -> bool {
    forall|i: int|
        0 <= i < log.ring.len() ==> ((#[trigger] log.ring[i]).id + (log.ring.len() - 1 - i))
            % 0x1_0000_0000_0000_0000 == log.last_id
}

/// Recording an entry and emptying the log keep the entries numbered one after
/// the other, so that the numbers grow from the oldest entry to the newest and
/// none is given twice, until the count starts over.
pub proof fn law_slowlog_numbers_grow(
    log: SlowLogView,
    args: Seq<Seq<u8>>,
    peer: Option<Seq<char>>,
    duration_us: u64,
    ts_secs: u64,
)
    requires
        numbered(log),
    ensures
        numbered(log.pushed(args, peer, duration_us, ts_secs)),
        numbered(SlowLogView { ring: Seq::empty(), ..log }),
        log.ring.len() <= log.last_id + 1 ==> forall|i: int, j: int|
            0 <= i < j < log.ring.len() ==> (#[trigger] log.ring[i]).id < (
            #[trigger] log.ring[j]).id,
{
    let after = log.pushed(args, peer, duration_us, ts_secs);
    if log.records(duration_us) {
        let dropped = log.ring.len() + 1 - after.ring.len();
        let whole = log.ring.push(
            SlowEntryView {
                id: next_u64(log.last_id),
                ts_secs,
                duration_us,
                args,
                peer: peer_or_unspecified(peer),
            },
        );
        assert forall|i: int| 0 <= i < after.ring.len() implies ((#[trigger] after.ring[i]).id + (
        after.ring.len() - 1 - i)) % 0x1_0000_0000_0000_0000 == after.last_id by {
            assert(after.ring[i] == whole[i + dropped]);
            if i < after.ring.len() - 1 {
                assert(after.ring[i] == log.ring[i + dropped]);
            }
        }
    }
    assert forall|i: int| 0 <= i < log.ring.len() && log.ring.len() <= log.last_id + 1 implies (
    #[trigger] log.ring[i]).id == log.last_id - (log.ring.len() - 1 - i) by {}
}

} // verus!
