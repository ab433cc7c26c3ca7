//! The append-only log.
//!
//! [`AofWriter`] turns changes into records and decides what is to be written.
//! The bytes wait in `pending` until the owner of the file takes them. While a
//! rewrite runs, new records are also kept in a delta, to be put behind the
//! compact snapshot; a delta that outgrows its cap ends the rewrite, and the
//! old log stays in use.

use vstd::prelude::*;

use crate::bytes::push_all;
use crate::decimal::format_i64;
use crate::persistence::config::FsyncPolicy;
use crate::persistence::record::{
    del_word, flushdb_word, frames, persist_word, pexpireat_word, set_word, Record,
};
use crate::persistence::resp::{command_frame, encode_command, slice_views};

verus! {

/// The cap of the delta: 64 MiB.
pub const DEFAULT_DELTA_CAP: usize = 67_108_864;

/// What the log holds in memory.
#[verifier::ext_equal]
pub struct AofView {
    /// Bytes that are to be appended to the file.
    pub pending: Seq<u8>,
    /// Whether a rewrite runs.
    pub rewriting: bool,
    /// The records since the rewrite began.
    pub delta: Seq<u8>,
    /// How long the delta may grow.
    pub cap: usize,
    pub policy: FsyncPolicy,
}

impl AofView {
    /// After appending `bytes`.
    pub open spec fn wrote(self, bytes: Seq<u8>) -> AofView {
        let fits = self.delta.len() + bytes.len() <= self.cap;
        AofView {
            pending: self.pending + bytes,
            rewriting: self.rewriting && fits,
            delta: if !self.rewriting {
                self.delta
            } else if fits {
                self.delta + bytes
            } else {
                Seq::empty()
            },
            ..self
        }
    }

    /// A new log.
    pub open spec fn fresh(policy: FsyncPolicy, cap: usize) -> AofView {
        AofView { pending: Seq::empty(), rewriting: false, delta: Seq::empty(), cap, policy }
    }
}

/// The log.
#[derive(Debug)]
pub struct AofWriter {
    policy: FsyncPolicy,
    pending: Vec<u8>,
    rewriting: bool,
    delta: Vec<u8>,
    delta_cap: usize,
}

impl View for AofWriter {
    type V = AofView;

    closed spec fn view(&self) -> AofView {
        AofView {
            pending: self.pending@,
            rewriting: self.rewriting,
            delta: self.delta@,
            cap: self.delta_cap,
            policy: self.policy,
        }
    }
}

/// What the end of a rewrite asks of the owner of the file.
#[derive(Debug, PartialEq, Eq)]
pub enum RewriteEnd {
    /// The rewrite was given up: the snapshot is dropped and the old log stays.
    KeepOld,
    /// The snapshot replaces the log, and these bytes follow it.
    Swap(Vec<u8>),
}

impl AofWriter {
    /// A log with the default cap of the delta.
    pub fn new(policy: FsyncPolicy) -> (w: AofWriter)
        ensures
            w@ == AofView::fresh(policy, DEFAULT_DELTA_CAP),
    {
        AofWriter::with_delta_cap(policy, DEFAULT_DELTA_CAP)
    }

    /// A log with the given cap of the delta.
    pub fn with_delta_cap(policy: FsyncPolicy, cap: usize) -> (w: AofWriter)
        ensures
            w@ == AofView::fresh(policy, cap),
    {
        let w = AofWriter {
            policy,
            pending: Vec::new(),
            rewriting: false,
            delta: Vec::new(),
            delta_cap: cap,
        };
        assert(w@ =~= AofView::fresh(policy, cap));
        w
    }

    /// When the file is to be synced.
    pub fn policy(&self) -> (policy: FsyncPolicy)
        ensures
            policy == self@.policy,
    {
        self.policy
    }

    /// Appends a `SET` record.
    pub fn append_set(&mut self, key: &[u8], value: &[u8])
        ensures
            final(self)@ == old(self)@.wrote((Record::Put { key: key@, value: value@ }).frame()),
    {
        let word: [u8; 3] = [83, 69, 84];
        let parts: [&[u8]; 3] = [&word, key, value];
        proof {
            assert(word@ =~= set_word());
            assert(slice_views(parts@) =~= (Record::Put { key: key@, value: value@ }).parts());
        }
        self.append(&parts);
    }

    /// Appends one `SET` record for each pair, in a single write.
    pub fn append_set_many(&mut self, pairs: &[(Vec<u8>, Vec<u8>)])
        ensures
            final(self)@ == (if pairs.len() == 0 {
                old(self)@
            } else {
                old(self)@.wrote(frames(set_records(pairs@)))
            }),
    {
        if pairs.len() == 0 {
            return;
        }
        let mut bytes: Vec<u8> = Vec::new();
        let word: [u8; 3] = [83, 69, 84];
        assert(word@ =~= set_word());
        let mut i: usize = 0;
        assert(set_records(pairs@.take(0)) =~= Seq::<Record>::empty());
        while i < pairs.len()
            invariant
                i <= pairs.len(),
                word@ == set_word(),
                bytes@ == frames(set_records(pairs@.take(i as int))),
            decreases pairs.len() - i,
        {
            let parts: [&[u8]; 3] = [&word, pairs[i].0.as_slice(), pairs[i].1.as_slice()];
            let frame: Vec<u8> = encode_command(&parts);
            proof {
                let shorter = set_records(pairs@.take(i as int));
                let longer = set_records(pairs@.take(i as int + 1));
                let r = Record::Put { key: pairs@[i as int].0@, value: pairs@[i as int].1@ };
                assert(longer =~= shorter.push(r));
                assert(longer.drop_last() =~= shorter);
                assert(slice_views(parts@) =~= r.parts());
            }
            push_all(&mut bytes, frame.as_slice());
            i += 1;
        }
        assert(pairs@.take(i as int) =~= pairs@);
        self.write_bytes(bytes.as_slice());
    }

    /// Appends a `DEL` record.
    pub fn append_del(&mut self, key: &[u8])
        ensures
            final(self)@ == old(self)@.wrote((Record::Del { key: key@ }).frame()),
    {
        let word: [u8; 3] = [68, 69, 76];
        let parts: [&[u8]; 2] = [&word, key];
        proof {
            assert(word@ =~= del_word());
            assert(slice_views(parts@) =~= (Record::Del { key: key@ }).parts());
        }
        self.append(&parts);
    }

    /// Appends a `FLUSHDB` record.
    pub fn append_flushdb(&mut self)
        ensures
            final(self)@ == old(self)@.wrote(Record::FlushDb.frame()),
    {
        let word: [u8; 7] = [70, 76, 85, 83, 72, 68, 66];
        let parts: [&[u8]; 1] = [&word];
        proof {
            assert(word@ =~= flushdb_word());
            assert(slice_views(parts@) =~= Record::FlushDb.parts());
        }
        self.append(&parts);
    }

    /// Appends a `PEXPIREAT` record. The time is absolute, so it keeps its
    /// meaning however long the log waits on disk.
    pub fn append_pexpireat(&mut self, key: &[u8], abs_epoch_ms: i64)
        ensures
            final(self)@ == old(self)@.wrote(
                (Record::PExpireAt { key: key@, at: abs_epoch_ms }).frame(),
            ),
    {
        let word: [u8; 9] = [80, 69, 88, 80, 73, 82, 69, 65, 84];
        let text: Vec<u8> = format_i64(abs_epoch_ms);
        let parts: [&[u8]; 3] = [&word, key, text.as_slice()];
        proof {
            assert(word@ =~= pexpireat_word());
            assert(slice_views(parts@) =~= (Record::PExpireAt {
                key: key@,
                at: abs_epoch_ms,
            }).parts());
        }
        self.append(&parts);
    }

    /// Appends a `PERSIST` record.
    pub fn append_persist(&mut self, key: &[u8])
        ensures
            final(self)@ == old(self)@.wrote((Record::Persist { key: key@ }).frame()),
    {
        let word: [u8; 7] = [80, 69, 82, 83, 73, 83, 84];
        let parts: [&[u8]; 2] = [&word, key];
        proof {
            assert(word@ =~= persist_word());
            assert(slice_views(parts@) =~= (Record::Persist { key: key@ }).parts());
        }
        self.append(&parts);
    }

    fn append(&mut self, parts: &[&[u8]])
        ensures
            final(self)@ == old(self)@.wrote(command_frame(slice_views(parts@))),
    {
        let bytes: Vec<u8> = encode_command(parts);
        self.write_bytes(bytes.as_slice());
    }

    fn write_bytes(&mut self, bytes: &[u8])
        ensures
            final(self)@ == old(self)@.wrote(bytes@),
    {
        push_all(&mut self.pending, bytes);
        if self.rewriting {
            if self.delta.len() > self.delta_cap
                || bytes.len() > self.delta_cap - self.delta.len() {
                self.rewriting = false;
                self.delta.clear();
            } else {
                push_all(&mut self.delta, bytes);
            }
        }
        assert(self@ =~= old(self)@.wrote(bytes@));
    }

    /// Hands out the bytes that are to be appended to the file.
    pub fn take_pending(&mut self) -> (bytes: Vec<u8>)
        ensures
            bytes@ == old(self)@.pending,
            final(self)@ == (AofView { pending: Seq::empty(), ..old(self)@ }),
    {
        let mut bytes: Vec<u8> = Vec::new();
        std::mem::swap(&mut bytes, &mut self.pending);
        assert(self@ =~= (AofView { pending: Seq::empty(), ..old(self)@ }));
        bytes
    }

    /// Starts a rewrite with an empty delta.
    pub fn begin_rewrite(&mut self)
        ensures
            final(self)@ == (AofView { rewriting: true, delta: Seq::empty(), ..old(self)@ }),
    {
        self.delta.clear();
        self.rewriting = true;
        assert(self@ =~= (AofView { rewriting: true, delta: Seq::empty(), ..old(self)@ }));
    }

    /// Gives a rewrite up; the old log keeps receiving records.
    pub fn abort_rewrite(&mut self)
        ensures
            final(self)@ == (AofView { rewriting: false, delta: Seq::empty(), ..old(self)@ }),
    {
        self.delta.clear();
        self.rewriting = false;
        assert(self@ =~= (AofView { rewriting: false, delta: Seq::empty(), ..old(self)@ }));
    }

    /// Whether a rewrite runs.
    pub fn is_rewriting(&self) -> (yes: bool)
        ensures
            yes == self@.rewriting,
    {
        self.rewriting
    }

    /// Ends a rewrite whose snapshot is complete.
    ///
    /// A rewrite that is still running ends in a swap: the snapshot holds every
    /// change from before the rewrite, the delta every later one, so bytes that
    /// still wait for the old file are dropped.
    pub fn finish_rewrite(&mut self) -> (end: RewriteEnd)
        ensures
            old(self)@.rewriting ==> final(self)@ == (AofView {
                pending: Seq::empty(),
                rewriting: false,
                delta: Seq::empty(),
                ..old(self)@
            }) && (end matches RewriteEnd::Swap(delta) && delta@ == old(self)@.delta),
            !old(self)@.rewriting ==> final(self)@ == old(self)@ && end is KeepOld,
    {
        if !self.rewriting {
            return RewriteEnd::KeepOld;
        }
        let mut delta: Vec<u8> = Vec::new();
        std::mem::swap(&mut delta, &mut self.delta);
        self.pending.clear();
        self.rewriting = false;
        assert(self@ =~= (AofView {
            pending: Seq::empty(),
            rewriting: false,
            delta: Seq::empty(),
            ..old(self)@
        }));
        RewriteEnd::Swap(delta)
    }
}

/// One `SET` record for each pair.
pub open spec fn set_records(pairs: Seq<(Vec<u8>, Vec<u8>)>) -> Seq<Record> {
    pairs.map_values(|p: (Vec<u8>, Vec<u8>)| Record::Put { key: p.0@, value: p.1@ })
}

/// No write is lost by a rewrite: a batch that arrives while one runs reaches
/// the old file's bytes, and either the delta as well, or it ends the rewrite,
/// so that the old file stays in use.
pub proof fn law_rewrite_loses_nothing(log: AofView, bytes: Seq<u8>)
    requires
        log.rewriting,
    ensures
        log.wrote(bytes).pending == log.pending + bytes,
        log.wrote(bytes).rewriting ==> log.wrote(bytes).delta == log.delta + bytes && log.wrote(
            bytes,
        ).delta.len() <= log.cap,
        !log.wrote(bytes).rewriting ==> log.wrote(bytes).delta.len() == 0 && log.delta.len()
            + bytes.len() > log.cap,
{
}

/// A new log has nothing to write, and its delta may grow to 64 MiB.
pub proof fn law_new_log(policy: FsyncPolicy)
    ensures
        ({
            let log = AofView::fresh(policy, DEFAULT_DELTA_CAP);
            &&& log.pending.len() == 0
            &&& !log.rewriting
            &&& log.delta.len() == 0
            &&& log.cap == 64 * 1024 * 1024
            &&& log.policy == policy
        }),
{
}

} // verus!
