//! The records of the append-only log.

use vstd::prelude::*;

use crate::decimal::dec_int;
use crate::persistence::resp::command_frame;

verus! {

/// One logged change.
#[verifier::ext_equal]
pub enum Record {
    Put { key: Seq<u8>, value: Seq<u8> },
    Del { key: Seq<u8> },
    FlushDb,
    PExpireAt { key: Seq<u8>, at: i64 },
    Persist { key: Seq<u8> },
}

/// `SET`
pub open spec fn set_word() -> Seq<u8> {
    seq![83u8, 69u8, 84u8]
}

/// `DEL`
pub open spec fn del_word() -> Seq<u8> {
    seq![68u8, 69u8, 76u8]
}

/// `FLUSHDB`
pub open spec fn flushdb_word() -> Seq<u8> {
    seq![70u8, 76u8, 85u8, 83u8, 72u8, 68u8, 66u8]
}

/// `PEXPIREAT`
pub open spec fn pexpireat_word() -> Seq<u8> {
    seq![80u8, 69u8, 88u8, 80u8, 73u8, 82u8, 69u8, 65u8, 84u8]
}

/// `PERSIST`
pub open spec fn persist_word() -> Seq<u8> {
    seq![80u8, 69u8, 82u8, 83u8, 73u8, 83u8, 84u8]
}

impl Record {
    /// The command name and its arguments.
    pub open spec fn parts(self) -> Seq<Seq<u8>> {
        match self {
            Record::Put { key, value } => seq![set_word(), key, value],
            Record::Del { key } => seq![del_word(), key],
            Record::FlushDb => seq![flushdb_word()],
            Record::PExpireAt { key, at } => seq![pexpireat_word(), key, dec_int(at as int)],
            Record::Persist { key } => seq![persist_word(), key],
        }
    }

    /// The record's bytes in the log.
    pub open spec fn frame(self) -> Seq<u8> {
        command_frame(self.parts())
    }
}

/// The bytes of several records, one after the other.
pub open spec fn frames(records: Seq<Record>) -> Seq<u8>
    decreases records.len(),
{
    if records.len() == 0 {
        Seq::empty()
    } else {
        frames(records.drop_last()) + records.last().frame()
    }
}

pub proof fn lemma_frames_one(r: Record)
    ensures
        frames(seq![r]) == r.frame(),
{
    assert(seq![r].drop_last() =~= Seq::<Record>::empty());
    assert(frames(seq![r].drop_last()) =~= Seq::<u8>::empty());
    assert(frames(seq![r]) =~= r.frame());
}

pub proof fn lemma_frames_concat(a: Seq<Record>, b: Seq<Record>)
    ensures
        frames(a + b) == frames(a) + frames(b),
    decreases b.len(),
{
    if b.len() == 0 {
        assert(a + b =~= a);
        assert(frames(a) + frames(b) =~= frames(a));
    } else {
        lemma_frames_concat(a, b.drop_last());
        assert((a + b).drop_last() =~= a + b.drop_last());
        assert((a + b).last() == b.last());
        assert(frames(a + b) =~= frames(a) + frames(b));
    }
}

} // verus!
