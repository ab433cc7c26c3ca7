//! The log speaks the wire protocol.

use vstd::prelude::*;
use vstd::string::*;
use vstd::utf8::{is_ascii_chars, is_ascii_chars_encode_utf8};

use crate::bytes::upper_bytes;
use crate::decimal::lemma_dec_int_round_trip;
use crate::persistence::record::{
    del_word, flushdb_word, persist_word, pexpireat_word, set_word, Record,
};
use crate::protocol::frame::{wire_meaning, word, WireCommand};

verus! {

/// The command that repeats a logged change.
pub open spec fn command_of(r: Record) -> WireCommand {
    match r {
        Record::Put { key, value } => WireCommand::SetKey { key, value },
        Record::Del { key } => WireCommand::Del { keys: seq![key] },
        Record::FlushDb => WireCommand::FlushDb,
        Record::PExpireAt { key, at } => WireCommand::PExpireAt { key, abs_epoch_ms: at },
        Record::Persist { key } => WireCommand::Persist { key },
    }
}

/// An ASCII word differs from a byte string of another length or with another
/// byte somewhere.
proof fn lemma_word_differs(name: Seq<char>, bytes: Seq<u8>, i: int)
    requires
        is_ascii_chars(name),
        name.len() != bytes.len() || (0 <= i < name.len() && name[i] as u8 != bytes[i]),
    ensures
        word(name) != bytes,
{
    is_ascii_chars_encode_utf8(name);
}

/// An ASCII word is its bytes.
proof fn lemma_word_is(name: Seq<char>, bytes: Seq<u8>)
    requires
        is_ascii_chars(name),
        name.len() == bytes.len(),
        forall|i: int| 0 <= i < name.len() ==> #[trigger] name[i] as u8 == bytes[i],
    ensures
        word(name) == bytes,
{
    is_ascii_chars_encode_utf8(name);
    assert(word(name) =~= bytes);
}

proof fn lemma_first_words(bytes: Seq<u8>)
    requires
        bytes == del_word() || bytes == flushdb_word() || bytes == persist_word() || bytes
            == pexpireat_word(),
    ensures
        word("SET"@) != bytes,
        word("SETNX"@) != bytes,
        word("GET"@) != bytes,
        word("APPEND"@) != bytes,
        word("STRLEN"@) != bytes,
{
    reveal_strlit("SET");
    reveal_strlit("SETNX");
    reveal_strlit("GET");
    reveal_strlit("APPEND");
    reveal_strlit("STRLEN");
    lemma_word_differs("SET"@, bytes, 0);
    lemma_word_differs("SETNX"@, bytes, 0);
    lemma_word_differs("GET"@, bytes, 0);
    lemma_word_differs("APPEND"@, bytes, 0);
    lemma_word_differs("STRLEN"@, bytes, 0);
}

proof fn lemma_expiry_words(bytes: Seq<u8>)
    requires
        bytes == del_word() || bytes == flushdb_word() || bytes == persist_word(),
    ensures
        word("PEXPIREAT"@) != bytes,
        word("PEXPIRE"@) != bytes,
        word("EXPIRE"@) != bytes,
{
    reveal_strlit("PEXPIREAT");
    reveal_strlit("PEXPIRE");
    reveal_strlit("EXPIRE");
    lemma_word_differs("PEXPIREAT"@, bytes, 0);
    lemma_word_differs("PEXPIRE"@, bytes, 2);
    lemma_word_differs("EXPIRE"@, bytes, 0);
}

proof fn lemma_middle_words(bytes: Seq<u8>)
    requires
        bytes == del_word() || bytes == flushdb_word(),
    ensures
        word("PERSIST"@) != bytes,
        word("TTL"@) != bytes,
        word("PTTL"@) != bytes,
        word("DBSIZE"@) != bytes,
{
    reveal_strlit("PERSIST");
    reveal_strlit("TTL");
    reveal_strlit("PTTL");
    reveal_strlit("DBSIZE");
    lemma_word_differs("PERSIST"@, bytes, 0);
    lemma_word_differs("TTL"@, bytes, 0);
    lemma_word_differs("PTTL"@, bytes, 0);
    lemma_word_differs("DBSIZE"@, bytes, 1);
}

proof fn lemma_late_words(bytes: Seq<u8>)
    requires
        bytes == del_word(),
    ensures
        word("FLUSHDB"@) != bytes,
        word("BGREWRITEAOF"@) != bytes,
        word("AUTH"@) != bytes,
{
    reveal_strlit("FLUSHDB");
    reveal_strlit("BGREWRITEAOF");
    reveal_strlit("AUTH");
    lemma_word_differs("FLUSHDB"@, bytes, 0);
    lemma_word_differs("BGREWRITEAOF"@, bytes, 0);
    lemma_word_differs("AUTH"@, bytes, 0);
}

/// Every word of the log is written in capitals and is the wire's word.
proof fn lemma_log_words()
    ensures
        word("SET"@) == set_word() && upper_bytes(set_word()) == set_word(),
        word("DEL"@) == del_word() && upper_bytes(del_word()) == del_word(),
        word("FLUSHDB"@) == flushdb_word() && upper_bytes(flushdb_word()) == flushdb_word(),
        word("PEXPIREAT"@) == pexpireat_word() && upper_bytes(pexpireat_word()) == pexpireat_word(),
        word("PERSIST"@) == persist_word() && upper_bytes(persist_word()) == persist_word(),
{
    reveal_strlit("SET");
    reveal_strlit("DEL");
    reveal_strlit("FLUSHDB");
    reveal_strlit("PEXPIREAT");
    reveal_strlit("PERSIST");
    lemma_word_is("SET"@, set_word());
    lemma_word_is("DEL"@, del_word());
    lemma_word_is("FLUSHDB"@, flushdb_word());
    lemma_word_is("PEXPIREAT"@, pexpireat_word());
    lemma_word_is("PERSIST"@, persist_word());
    assert(upper_bytes(set_word()) =~= set_word());
    assert(upper_bytes(del_word()) =~= del_word());
    assert(upper_bytes(flushdb_word()) =~= flushdb_word());
    assert(upper_bytes(pexpireat_word()) =~= pexpireat_word());
    assert(upper_bytes(persist_word()) =~= persist_word());
}

/// The log is a stream of commands: each record, read as a request, is the
/// command that repeats the change.
pub proof fn law_log_speaks_the_wire_protocol(r: Record)
    ensures
        wire_meaning(r.parts()) == Ok::<WireCommand, crate::error::ErrorView>(command_of(r)),
{
    lemma_log_words();
    match r {
        Record::Put { key, value } => {},
        Record::Del { key } => {
            lemma_first_words(del_word());
            lemma_expiry_words(del_word());
            lemma_middle_words(del_word());
            lemma_late_words(del_word());
            assert(r.parts().skip(1) =~= seq![key]);
        },
        Record::FlushDb => {
            lemma_first_words(flushdb_word());
            lemma_expiry_words(flushdb_word());
            lemma_middle_words(flushdb_word());
        },
        Record::PExpireAt { key, at } => {
            lemma_first_words(pexpireat_word());
            lemma_dec_int_round_trip(at);
        },
        Record::Persist { key } => {
            lemma_first_words(persist_word());
            lemma_expiry_words(persist_word());
        },
    }
}

} // verus!
