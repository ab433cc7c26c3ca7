//! What the command words mean.
//!
//! Each law names the words and the number of arguments, and the command that they
//! make.

use vstd::prelude::*;
use vstd::string::*;
use vstd::utf8::{encode_utf8, is_ascii_chars_encode_utf8};

use crate::bytes::upper_bytes;
use crate::decimal::{dec_int, law_signs_and_zeros, lemma_dec_int_round_trip, text_to_i64};
use crate::error::ErrorView;
use crate::protocol::frame::{pairs_of, wire_meaning, WireCommand};
use crate::text::readable;

verus! {

/// Whether a frame begins with this command word, in any case.
pub open spec fn begins(p: Seq<Seq<u8>>, word: Seq<char>) -> bool {
    p.len() > 0 && upper_bytes(p[0]) == encode_utf8(word)
}

/// Whether the second part of a frame is this word, in any case.
pub open spec fn goes_on(p: Seq<Seq<u8>>, word: Seq<char>) -> bool {
    p.len() > 1 && upper_bytes(p[1]) == encode_utf8(word)
}

proof fn lemma_differ(a: Seq<char>, b: Seq<char>)
    requires
        a != b,
    ensures
        encode_utf8(a) != encode_utf8(b),
{
    crate::text::lemma_same_encoding(a, b);
}

/// The lengths of the command words.
proof fn lemma_word_lengths()
    ensures
        encode_utf8("SET"@).len() == 3,
        encode_utf8("GET"@).len() == 3,
        encode_utf8("TTL"@).len() == 3,
        encode_utf8("DEL"@).len() == 3,
        encode_utf8("PTTL"@).len() == 4,
        encode_utf8("AUTH"@).len() == 4,
        encode_utf8("MGET"@).len() == 4,
        encode_utf8("MSET"@).len() == 4,
        encode_utf8("INCR"@).len() == 4,
        encode_utf8("DECR"@).len() == 4,
        encode_utf8("PING"@).len() == 4,
        encode_utf8("INFO"@).len() == 4,
        encode_utf8("SETNX"@).len() == 5,
        encode_utf8("APPEND"@).len() == 6,
        encode_utf8("STRLEN"@).len() == 6,
        encode_utf8("EXPIRE"@).len() == 6,
        encode_utf8("DBSIZE"@).len() == 6,
        encode_utf8("EXISTS"@).len() == 6,
        encode_utf8("INCRBY"@).len() == 6,
        encode_utf8("DECRBY"@).len() == 6,
        encode_utf8("MEMORY"@).len() == 6,
        encode_utf8("CONFIG"@).len() == 6,
        encode_utf8("PEXPIRE"@).len() == 7,
        encode_utf8("PERSIST"@).len() == 7,
        encode_utf8("FLUSHDB"@).len() == 7,
        encode_utf8("SLOWLOG"@).len() == 7,
        encode_utf8("PEXPIREAT"@).len() == 9,
        encode_utf8("BGREWRITEAOF"@).len() == 12,
{
    reveal_strlit("SET");
    is_ascii_chars_encode_utf8("SET"@);
    reveal_strlit("GET");
    is_ascii_chars_encode_utf8("GET"@);
    reveal_strlit("TTL");
    is_ascii_chars_encode_utf8("TTL"@);
    reveal_strlit("DEL");
    is_ascii_chars_encode_utf8("DEL"@);
    reveal_strlit("PTTL");
    is_ascii_chars_encode_utf8("PTTL"@);
    reveal_strlit("AUTH");
    is_ascii_chars_encode_utf8("AUTH"@);
    reveal_strlit("MGET");
    is_ascii_chars_encode_utf8("MGET"@);
    reveal_strlit("MSET");
    is_ascii_chars_encode_utf8("MSET"@);
    reveal_strlit("INCR");
    is_ascii_chars_encode_utf8("INCR"@);
    reveal_strlit("DECR");
    is_ascii_chars_encode_utf8("DECR"@);
    reveal_strlit("PING");
    is_ascii_chars_encode_utf8("PING"@);
    reveal_strlit("INFO");
    is_ascii_chars_encode_utf8("INFO"@);
    reveal_strlit("SETNX");
    is_ascii_chars_encode_utf8("SETNX"@);
    reveal_strlit("APPEND");
    is_ascii_chars_encode_utf8("APPEND"@);
    reveal_strlit("STRLEN");
    is_ascii_chars_encode_utf8("STRLEN"@);
    reveal_strlit("EXPIRE");
    is_ascii_chars_encode_utf8("EXPIRE"@);
    reveal_strlit("DBSIZE");
    is_ascii_chars_encode_utf8("DBSIZE"@);
    reveal_strlit("EXISTS");
    is_ascii_chars_encode_utf8("EXISTS"@);
    reveal_strlit("INCRBY");
    is_ascii_chars_encode_utf8("INCRBY"@);
    reveal_strlit("DECRBY");
    is_ascii_chars_encode_utf8("DECRBY"@);
    reveal_strlit("MEMORY");
    is_ascii_chars_encode_utf8("MEMORY"@);
    reveal_strlit("CONFIG");
    is_ascii_chars_encode_utf8("CONFIG"@);
    reveal_strlit("PEXPIRE");
    is_ascii_chars_encode_utf8("PEXPIRE"@);
    reveal_strlit("PERSIST");
    is_ascii_chars_encode_utf8("PERSIST"@);
    reveal_strlit("FLUSHDB");
    is_ascii_chars_encode_utf8("FLUSHDB"@);
    reveal_strlit("SLOWLOG");
    is_ascii_chars_encode_utf8("SLOWLOG"@);
    reveal_strlit("PEXPIREAT");
    is_ascii_chars_encode_utf8("PEXPIREAT"@);
    reveal_strlit("BGREWRITEAOF");
    is_ascii_chars_encode_utf8("BGREWRITEAOF"@);
}

/// No two command words of the same length are the same.
proof fn lemma_words_differ()
    ensures
        encode_utf8("SET"@) != encode_utf8("GET"@),
        encode_utf8("SET"@) != encode_utf8("TTL"@),
        encode_utf8("SET"@) != encode_utf8("DEL"@),
        encode_utf8("GET"@) != encode_utf8("TTL"@),
        encode_utf8("GET"@) != encode_utf8("DEL"@),
        encode_utf8("TTL"@) != encode_utf8("DEL"@),
        encode_utf8("PTTL"@) != encode_utf8("AUTH"@),
        encode_utf8("PTTL"@) != encode_utf8("MGET"@),
        encode_utf8("PTTL"@) != encode_utf8("MSET"@),
        encode_utf8("PTTL"@) != encode_utf8("INCR"@),
        encode_utf8("PTTL"@) != encode_utf8("DECR"@),
        encode_utf8("PTTL"@) != encode_utf8("PING"@),
        encode_utf8("PTTL"@) != encode_utf8("INFO"@),
        encode_utf8("AUTH"@) != encode_utf8("MGET"@),
        encode_utf8("AUTH"@) != encode_utf8("MSET"@),
        encode_utf8("AUTH"@) != encode_utf8("INCR"@),
        encode_utf8("AUTH"@) != encode_utf8("DECR"@),
        encode_utf8("AUTH"@) != encode_utf8("PING"@),
        encode_utf8("AUTH"@) != encode_utf8("INFO"@),
        encode_utf8("MGET"@) != encode_utf8("MSET"@),
        encode_utf8("MGET"@) != encode_utf8("INCR"@),
        encode_utf8("MGET"@) != encode_utf8("DECR"@),
        encode_utf8("MGET"@) != encode_utf8("PING"@),
        encode_utf8("MGET"@) != encode_utf8("INFO"@),
        encode_utf8("MSET"@) != encode_utf8("INCR"@),
        encode_utf8("MSET"@) != encode_utf8("DECR"@),
        encode_utf8("MSET"@) != encode_utf8("PING"@),
        encode_utf8("MSET"@) != encode_utf8("INFO"@),
        encode_utf8("INCR"@) != encode_utf8("DECR"@),
        encode_utf8("INCR"@) != encode_utf8("PING"@),
        encode_utf8("INCR"@) != encode_utf8("INFO"@),
        encode_utf8("DECR"@) != encode_utf8("PING"@),
        encode_utf8("DECR"@) != encode_utf8("INFO"@),
        encode_utf8("PING"@) != encode_utf8("INFO"@),
        encode_utf8("APPEND"@) != encode_utf8("STRLEN"@),
        encode_utf8("APPEND"@) != encode_utf8("EXPIRE"@),
        encode_utf8("APPEND"@) != encode_utf8("DBSIZE"@),
        encode_utf8("APPEND"@) != encode_utf8("EXISTS"@),
        encode_utf8("APPEND"@) != encode_utf8("INCRBY"@),
        encode_utf8("APPEND"@) != encode_utf8("DECRBY"@),
        encode_utf8("APPEND"@) != encode_utf8("MEMORY"@),
        encode_utf8("APPEND"@) != encode_utf8("CONFIG"@),
        encode_utf8("STRLEN"@) != encode_utf8("EXPIRE"@),
        encode_utf8("STRLEN"@) != encode_utf8("DBSIZE"@),
        encode_utf8("STRLEN"@) != encode_utf8("EXISTS"@),
        encode_utf8("STRLEN"@) != encode_utf8("INCRBY"@),
        encode_utf8("STRLEN"@) != encode_utf8("DECRBY"@),
        encode_utf8("STRLEN"@) != encode_utf8("MEMORY"@),
        encode_utf8("STRLEN"@) != encode_utf8("CONFIG"@),
        encode_utf8("EXPIRE"@) != encode_utf8("DBSIZE"@),
        encode_utf8("EXPIRE"@) != encode_utf8("EXISTS"@),
        encode_utf8("EXPIRE"@) != encode_utf8("INCRBY"@),
        encode_utf8("EXPIRE"@) != encode_utf8("DECRBY"@),
        encode_utf8("EXPIRE"@) != encode_utf8("MEMORY"@),
        encode_utf8("EXPIRE"@) != encode_utf8("CONFIG"@),
        encode_utf8("DBSIZE"@) != encode_utf8("EXISTS"@),
        encode_utf8("DBSIZE"@) != encode_utf8("INCRBY"@),
        encode_utf8("DBSIZE"@) != encode_utf8("DECRBY"@),
        encode_utf8("DBSIZE"@) != encode_utf8("MEMORY"@),
        encode_utf8("DBSIZE"@) != encode_utf8("CONFIG"@),
        encode_utf8("EXISTS"@) != encode_utf8("INCRBY"@),
        encode_utf8("EXISTS"@) != encode_utf8("DECRBY"@),
        encode_utf8("EXISTS"@) != encode_utf8("MEMORY"@),
        encode_utf8("EXISTS"@) != encode_utf8("CONFIG"@),
        encode_utf8("INCRBY"@) != encode_utf8("DECRBY"@),
        encode_utf8("INCRBY"@) != encode_utf8("MEMORY"@),
        encode_utf8("INCRBY"@) != encode_utf8("CONFIG"@),
        encode_utf8("DECRBY"@) != encode_utf8("MEMORY"@),
        encode_utf8("DECRBY"@) != encode_utf8("CONFIG"@),
        encode_utf8("MEMORY"@) != encode_utf8("CONFIG"@),
        encode_utf8("PEXPIRE"@) != encode_utf8("PERSIST"@),
        encode_utf8("PEXPIRE"@) != encode_utf8("FLUSHDB"@),
        encode_utf8("PEXPIRE"@) != encode_utf8("SLOWLOG"@),
        encode_utf8("PERSIST"@) != encode_utf8("FLUSHDB"@),
        encode_utf8("PERSIST"@) != encode_utf8("SLOWLOG"@),
        encode_utf8("FLUSHDB"@) != encode_utf8("SLOWLOG"@),
{
    reveal_strlit("SET");
    reveal_strlit("GET");
    reveal_strlit("TTL");
    reveal_strlit("DEL");
    reveal_strlit("PTTL");
    reveal_strlit("AUTH");
    reveal_strlit("MGET");
    reveal_strlit("MSET");
    reveal_strlit("INCR");
    reveal_strlit("DECR");
    reveal_strlit("PING");
    reveal_strlit("INFO");
    reveal_strlit("SETNX");
    reveal_strlit("APPEND");
    reveal_strlit("STRLEN");
    reveal_strlit("EXPIRE");
    reveal_strlit("DBSIZE");
    reveal_strlit("EXISTS");
    reveal_strlit("INCRBY");
    reveal_strlit("DECRBY");
    reveal_strlit("MEMORY");
    reveal_strlit("CONFIG");
    reveal_strlit("PEXPIRE");
    reveal_strlit("PERSIST");
    reveal_strlit("FLUSHDB");
    reveal_strlit("SLOWLOG");
    reveal_strlit("PEXPIREAT");
    reveal_strlit("BGREWRITEAOF");
    assert("SET"@[0] != "GET"@[0]);
    lemma_differ("SET"@, "GET"@);
    assert("SET"@[0] != "TTL"@[0]);
    lemma_differ("SET"@, "TTL"@);
    assert("SET"@[0] != "DEL"@[0]);
    lemma_differ("SET"@, "DEL"@);
    assert("GET"@[0] != "TTL"@[0]);
    lemma_differ("GET"@, "TTL"@);
    assert("GET"@[0] != "DEL"@[0]);
    lemma_differ("GET"@, "DEL"@);
    assert("TTL"@[0] != "DEL"@[0]);
    lemma_differ("TTL"@, "DEL"@);
    assert("PTTL"@[0] != "AUTH"@[0]);
    lemma_differ("PTTL"@, "AUTH"@);
    assert("PTTL"@[0] != "MGET"@[0]);
    lemma_differ("PTTL"@, "MGET"@);
    assert("PTTL"@[0] != "MSET"@[0]);
    lemma_differ("PTTL"@, "MSET"@);
    assert("PTTL"@[0] != "INCR"@[0]);
    lemma_differ("PTTL"@, "INCR"@);
    assert("PTTL"@[0] != "DECR"@[0]);
    lemma_differ("PTTL"@, "DECR"@);
    assert("PTTL"@[1] != "PING"@[1]);
    lemma_differ("PTTL"@, "PING"@);
    assert("PTTL"@[0] != "INFO"@[0]);
    lemma_differ("PTTL"@, "INFO"@);
    assert("AUTH"@[0] != "MGET"@[0]);
    lemma_differ("AUTH"@, "MGET"@);
    assert("AUTH"@[0] != "MSET"@[0]);
    lemma_differ("AUTH"@, "MSET"@);
    assert("AUTH"@[0] != "INCR"@[0]);
    lemma_differ("AUTH"@, "INCR"@);
    assert("AUTH"@[0] != "DECR"@[0]);
    lemma_differ("AUTH"@, "DECR"@);
    assert("AUTH"@[0] != "PING"@[0]);
    lemma_differ("AUTH"@, "PING"@);
    assert("AUTH"@[0] != "INFO"@[0]);
    lemma_differ("AUTH"@, "INFO"@);
    assert("MGET"@[1] != "MSET"@[1]);
    lemma_differ("MGET"@, "MSET"@);
    assert("MGET"@[0] != "INCR"@[0]);
    lemma_differ("MGET"@, "INCR"@);
    assert("MGET"@[0] != "DECR"@[0]);
    lemma_differ("MGET"@, "DECR"@);
    assert("MGET"@[0] != "PING"@[0]);
    lemma_differ("MGET"@, "PING"@);
    assert("MGET"@[0] != "INFO"@[0]);
    lemma_differ("MGET"@, "INFO"@);
    assert("MSET"@[0] != "INCR"@[0]);
    lemma_differ("MSET"@, "INCR"@);
    assert("MSET"@[0] != "DECR"@[0]);
    lemma_differ("MSET"@, "DECR"@);
    assert("MSET"@[0] != "PING"@[0]);
    lemma_differ("MSET"@, "PING"@);
    assert("MSET"@[0] != "INFO"@[0]);
    lemma_differ("MSET"@, "INFO"@);
    assert("INCR"@[0] != "DECR"@[0]);
    lemma_differ("INCR"@, "DECR"@);
    assert("INCR"@[0] != "PING"@[0]);
    lemma_differ("INCR"@, "PING"@);
    assert("INCR"@[2] != "INFO"@[2]);
    lemma_differ("INCR"@, "INFO"@);
    assert("DECR"@[0] != "PING"@[0]);
    lemma_differ("DECR"@, "PING"@);
    assert("DECR"@[0] != "INFO"@[0]);
    lemma_differ("DECR"@, "INFO"@);
    assert("PING"@[0] != "INFO"@[0]);
    lemma_differ("PING"@, "INFO"@);
    assert("APPEND"@[0] != "STRLEN"@[0]);
    lemma_differ("APPEND"@, "STRLEN"@);
    assert("APPEND"@[0] != "EXPIRE"@[0]);
    lemma_differ("APPEND"@, "EXPIRE"@);
    assert("APPEND"@[0] != "DBSIZE"@[0]);
    lemma_differ("APPEND"@, "DBSIZE"@);
    assert("APPEND"@[0] != "EXISTS"@[0]);
    lemma_differ("APPEND"@, "EXISTS"@);
    assert("APPEND"@[0] != "INCRBY"@[0]);
    lemma_differ("APPEND"@, "INCRBY"@);
    assert("APPEND"@[0] != "DECRBY"@[0]);
    lemma_differ("APPEND"@, "DECRBY"@);
    assert("APPEND"@[0] != "MEMORY"@[0]);
    lemma_differ("APPEND"@, "MEMORY"@);
    assert("APPEND"@[0] != "CONFIG"@[0]);
    lemma_differ("APPEND"@, "CONFIG"@);
    assert("STRLEN"@[0] != "EXPIRE"@[0]);
    lemma_differ("STRLEN"@, "EXPIRE"@);
    assert("STRLEN"@[0] != "DBSIZE"@[0]);
    lemma_differ("STRLEN"@, "DBSIZE"@);
    assert("STRLEN"@[0] != "EXISTS"@[0]);
    lemma_differ("STRLEN"@, "EXISTS"@);
    assert("STRLEN"@[0] != "INCRBY"@[0]);
    lemma_differ("STRLEN"@, "INCRBY"@);
    assert("STRLEN"@[0] != "DECRBY"@[0]);
    lemma_differ("STRLEN"@, "DECRBY"@);
    assert("STRLEN"@[0] != "MEMORY"@[0]);
    lemma_differ("STRLEN"@, "MEMORY"@);
    assert("STRLEN"@[0] != "CONFIG"@[0]);
    lemma_differ("STRLEN"@, "CONFIG"@);
    assert("EXPIRE"@[0] != "DBSIZE"@[0]);
    lemma_differ("EXPIRE"@, "DBSIZE"@);
    assert("EXPIRE"@[2] != "EXISTS"@[2]);
    lemma_differ("EXPIRE"@, "EXISTS"@);
    assert("EXPIRE"@[0] != "INCRBY"@[0]);
    lemma_differ("EXPIRE"@, "INCRBY"@);
    assert("EXPIRE"@[0] != "DECRBY"@[0]);
    lemma_differ("EXPIRE"@, "DECRBY"@);
    assert("EXPIRE"@[0] != "MEMORY"@[0]);
    lemma_differ("EXPIRE"@, "MEMORY"@);
    assert("EXPIRE"@[0] != "CONFIG"@[0]);
    lemma_differ("EXPIRE"@, "CONFIG"@);
    assert("DBSIZE"@[0] != "EXISTS"@[0]);
    lemma_differ("DBSIZE"@, "EXISTS"@);
    assert("DBSIZE"@[0] != "INCRBY"@[0]);
    lemma_differ("DBSIZE"@, "INCRBY"@);
    assert("DBSIZE"@[1] != "DECRBY"@[1]);
    lemma_differ("DBSIZE"@, "DECRBY"@);
    assert("DBSIZE"@[0] != "MEMORY"@[0]);
    lemma_differ("DBSIZE"@, "MEMORY"@);
    assert("DBSIZE"@[0] != "CONFIG"@[0]);
    lemma_differ("DBSIZE"@, "CONFIG"@);
    assert("EXISTS"@[0] != "INCRBY"@[0]);
    lemma_differ("EXISTS"@, "INCRBY"@);
    assert("EXISTS"@[0] != "DECRBY"@[0]);
    lemma_differ("EXISTS"@, "DECRBY"@);
    assert("EXISTS"@[0] != "MEMORY"@[0]);
    lemma_differ("EXISTS"@, "MEMORY"@);
    assert("EXISTS"@[0] != "CONFIG"@[0]);
    lemma_differ("EXISTS"@, "CONFIG"@);
    assert("INCRBY"@[0] != "DECRBY"@[0]);
    lemma_differ("INCRBY"@, "DECRBY"@);
    assert("INCRBY"@[0] != "MEMORY"@[0]);
    lemma_differ("INCRBY"@, "MEMORY"@);
    assert("INCRBY"@[0] != "CONFIG"@[0]);
    lemma_differ("INCRBY"@, "CONFIG"@);
    assert("DECRBY"@[0] != "MEMORY"@[0]);
    lemma_differ("DECRBY"@, "MEMORY"@);
    assert("DECRBY"@[0] != "CONFIG"@[0]);
    lemma_differ("DECRBY"@, "CONFIG"@);
    assert("MEMORY"@[0] != "CONFIG"@[0]);
    lemma_differ("MEMORY"@, "CONFIG"@);
    assert("PEXPIRE"@[2] != "PERSIST"@[2]);
    lemma_differ("PEXPIRE"@, "PERSIST"@);
    assert("PEXPIRE"@[0] != "FLUSHDB"@[0]);
    lemma_differ("PEXPIRE"@, "FLUSHDB"@);
    assert("PEXPIRE"@[0] != "SLOWLOG"@[0]);
    lemma_differ("PEXPIRE"@, "SLOWLOG"@);
    assert("PERSIST"@[0] != "FLUSHDB"@[0]);
    lemma_differ("PERSIST"@, "FLUSHDB"@);
    assert("PERSIST"@[0] != "SLOWLOG"@[0]);
    lemma_differ("PERSIST"@, "SLOWLOG"@);
    assert("FLUSHDB"@[0] != "SLOWLOG"@[0]);
    lemma_differ("FLUSHDB"@, "SLOWLOG"@);
}

/// The commands on one key take exactly that key.
#[verifier::rlimit(40)]
pub proof fn law_words_of_one_key(p: Seq<Seq<u8>>)
    ensures
        begins(p, "GET"@) && p.len() == 2 ==> wire_meaning(p) == Ok::<WireCommand, ErrorView>(
            WireCommand::Get { key: p[1] },
        ),
        begins(p, "GET"@) && p.len() != 2 ==> wire_meaning(p) == Err::<WireCommand, ErrorView>(
            ErrorView::WrongArity("GET"@),
        ),
        begins(p, "STRLEN"@) && p.len() == 2 ==> wire_meaning(p) == Ok::<WireCommand, ErrorView>(
            WireCommand::StrLen { key: p[1] },
        ),
        begins(p, "STRLEN"@) && p.len() != 2 ==> wire_meaning(p) == Err::<WireCommand, ErrorView>(
            ErrorView::WrongArity("STRLEN"@),
        ),
        begins(p, "PERSIST"@) && p.len() == 2 ==> wire_meaning(p) == Ok::<WireCommand, ErrorView>(
            WireCommand::Persist { key: p[1] },
        ),
        begins(p, "PERSIST"@) && p.len() != 2 ==> wire_meaning(p) == Err::<WireCommand, ErrorView>(
            ErrorView::WrongArity("PERSIST"@),
        ),
        begins(p, "TTL"@) && p.len() == 2 ==> wire_meaning(p) == Ok::<WireCommand, ErrorView>(
            WireCommand::Ttl { key: p[1] },
        ),
        begins(p, "TTL"@) && p.len() != 2 ==> wire_meaning(p) == Err::<WireCommand, ErrorView>(
            ErrorView::WrongArity("TTL"@),
        ),
        begins(p, "PTTL"@) && p.len() == 2 ==> wire_meaning(p) == Ok::<WireCommand, ErrorView>(
            WireCommand::PTtl { key: p[1] },
        ),
        begins(p, "PTTL"@) && p.len() != 2 ==> wire_meaning(p) == Err::<WireCommand, ErrorView>(
            ErrorView::WrongArity("PTTL"@),
        ),
{
    lemma_word_lengths();
    lemma_words_differ();
}

/// The commands that write a value take a key and the value.
#[verifier::rlimit(40)]
pub proof fn law_words_of_values(p: Seq<Seq<u8>>)
    ensures
        begins(p, "SET"@) && p.len() == 3 ==> wire_meaning(p) == Ok::<WireCommand, ErrorView>(
            WireCommand::SetKey { key: p[1], value: p[2] },
        ),
        begins(p, "SET"@) && p.len() != 3 ==> wire_meaning(p) == Err::<WireCommand, ErrorView>(
            ErrorView::WrongArity("SET"@),
        ),
        begins(p, "SETNX"@) && p.len() == 3 ==> wire_meaning(p) == Ok::<WireCommand, ErrorView>(
            WireCommand::SetNx { key: p[1], value: p[2] },
        ),
        begins(p, "SETNX"@) && p.len() != 3 ==> wire_meaning(p) == Err::<WireCommand, ErrorView>(
            ErrorView::WrongArity("SETNX"@),
        ),
        begins(p, "APPEND"@) && p.len() == 3 ==> wire_meaning(p) == Ok::<WireCommand, ErrorView>(
            WireCommand::Append { key: p[1], value: p[2] },
        ),
        begins(p, "APPEND"@) && p.len() != 3 ==> wire_meaning(p) == Err::<WireCommand, ErrorView>(
            ErrorView::WrongArity("APPEND"@),
        ),
{
    lemma_word_lengths();
    lemma_words_differ();
}

/// Some commands take no argument; `PING` and `INFO` may take one.
#[verifier::rlimit(40)]
pub proof fn law_words_without_arguments(p: Seq<Seq<u8>>)
    ensures
        begins(p, "DBSIZE"@) && p.len() == 1 ==> wire_meaning(p) == Ok::<WireCommand, ErrorView>(
            WireCommand::DbSize,
        ),
        begins(p, "DBSIZE"@) && p.len() != 1 ==> wire_meaning(p) == Err::<WireCommand, ErrorView>(
            ErrorView::WrongArity("DBSIZE"@),
        ),
        begins(p, "FLUSHDB"@) && p.len() == 1 ==> wire_meaning(p) == Ok::<WireCommand, ErrorView>(
            WireCommand::FlushDb,
        ),
        begins(p, "FLUSHDB"@) && p.len() != 1 ==> wire_meaning(p) == Err::<WireCommand, ErrorView>(
            ErrorView::WrongArity("FLUSHDB"@),
        ),
        begins(p, "BGREWRITEAOF"@) && p.len() == 1 ==> wire_meaning(p) == Ok::<WireCommand, ErrorView>(
            WireCommand::BgRewriteAof,
        ),
        begins(p, "BGREWRITEAOF"@) && p.len() != 1 ==> wire_meaning(p) == Err::<WireCommand, ErrorView>(
            ErrorView::WrongArity("BGREWRITEAOF"@),
        ),
        begins(p, "PING"@) && p.len() == 1 ==> wire_meaning(p) == Ok::<WireCommand, ErrorView>(
            WireCommand::Ping { msg: None },
        ),
        begins(p, "PING"@) && p.len() == 2 ==> wire_meaning(p) == Ok::<WireCommand, ErrorView>(
            WireCommand::Ping { msg: Some(p[1]) },
        ),
        begins(p, "PING"@) && p.len() > 2 ==> wire_meaning(p) == Err::<WireCommand, ErrorView>(
            ErrorView::WrongArity("PING"@),
        ),
        begins(p, "INFO"@) && p.len() == 1 ==> wire_meaning(p) == Ok::<WireCommand, ErrorView>(
            WireCommand::Info { section: None },
        ),
        begins(p, "INFO"@) && p.len() == 2 ==> wire_meaning(p) == Ok::<WireCommand, ErrorView>(
            WireCommand::Info { section: Some(p[1]) },
        ),
        begins(p, "INFO"@) && p.len() > 2 ==> wire_meaning(p) == Err::<WireCommand, ErrorView>(
            ErrorView::WrongArity("INFO"@),
        ),
        begins(p, "AUTH"@) && p.len() == 2 ==> wire_meaning(p) == Ok::<WireCommand, ErrorView>(
            WireCommand::Auth { password: p[1] },
        ),
        begins(p, "AUTH"@) && p.len() != 2 ==> wire_meaning(p) == Err::<WireCommand, ErrorView>(
            ErrorView::WrongArity("AUTH"@),
        ),
{
    lemma_word_lengths();
    lemma_words_differ();
}

/// `DEL`, `EXISTS` and `MGET` take any number of keys but none, in order.
#[verifier::rlimit(40)]
pub proof fn law_words_of_many_keys(p: Seq<Seq<u8>>)
    ensures
        begins(p, "DEL"@) && p.len() >= 2 ==> wire_meaning(p) == Ok::<WireCommand, ErrorView>(
            WireCommand::Del { keys: p.skip(1) },
        ),
        begins(p, "DEL"@) && p.len() < 2 ==> wire_meaning(p) == Err::<WireCommand, ErrorView>(
            ErrorView::WrongArity("DEL"@),
        ),
        begins(p, "EXISTS"@) && p.len() >= 2 ==> wire_meaning(p) == Ok::<WireCommand, ErrorView>(
            WireCommand::Exists { keys: p.skip(1) },
        ),
        begins(p, "EXISTS"@) && p.len() < 2 ==> wire_meaning(p) == Err::<WireCommand, ErrorView>(
            ErrorView::WrongArity("EXISTS"@),
        ),
        begins(p, "MGET"@) && p.len() >= 2 ==> wire_meaning(p) == Ok::<WireCommand, ErrorView>(
            WireCommand::MGet { keys: p.skip(1) },
        ),
        begins(p, "MGET"@) && p.len() < 2 ==> wire_meaning(p) == Err::<WireCommand, ErrorView>(
            ErrorView::WrongArity("MGET"@),
        ),
{
    lemma_word_lengths();
    lemma_words_differ();
}

#[verifier::rlimit(40)]
proof fn lemma_pairs(p: Seq<Seq<u8>>)
    requires
        begins(p, "MSET"@),
    ensures
        wire_meaning(p) == (if p.len() < 3 || (p.len() - 1) % 2 != 0 {
            Err::<WireCommand, ErrorView>(ErrorView::WrongArity("MSET"@))
        } else {
            Ok(WireCommand::MSet { pairs: pairs_of(p.skip(1)) })
        }),
{
    lemma_word_lengths();
    lemma_words_differ();
}

/// `MSET` takes keys and values in turn, and there must be a value for each key.
pub proof fn law_words_of_pairs(p: Seq<Seq<u8>>, i: int)
    requires
        begins(p, "MSET"@),
    ensures
        p.len() >= 3 && p.len() % 2 == 1 ==> (wire_meaning(p) matches Ok(
            WireCommand::MSet { pairs },
        ) && pairs.len() == (p.len() - 1) / 2 && (0 <= i < pairs.len() ==> pairs[i] == (
            p[2 * i + 1],
            p[2 * i + 2],
        ))),
        p.len() < 3 || p.len() % 2 == 0 ==> wire_meaning(p) == Err::<WireCommand, ErrorView>(
            ErrorView::WrongArity("MSET"@),
        ),
{
    lemma_pairs(p);
    lemma_pairs_of(p, i);
}

proof fn lemma_pairs_of(p: Seq<Seq<u8>>, i: int)
    requires
        p.len() >= 1,
    ensures
        pairs_of(p.skip(1)).len() == (p.len() - 1) / 2,
        0 <= i < (p.len() - 1) / 2 ==> pairs_of(p.skip(1))[i] == (p[2 * i + 1], p[2 * i + 2]),
{
}

/// `INCR` adds one and `DECR` takes one away; `INCRBY` adds the number that it is given
/// and `DECRBY` takes it away.
#[verifier::rlimit(40)]
pub proof fn law_words_of_counters(p: Seq<Seq<u8>>, n: i64)
    ensures
        begins(p, "INCR"@) && p.len() == 2 ==> wire_meaning(p) == Ok::<WireCommand, ErrorView>(
            WireCommand::IncrBy { key: p[1], delta: 1 },
        ),
        begins(p, "DECR"@) && p.len() == 2 ==> (wire_meaning(p) matches Ok(WireCommand::IncrBy {
            key,
            delta,
        }) && key == p[1] && delta == -1),
        begins(p, "INCRBY"@) && p.len() == 3 && p[2] == dec_int(n as int) ==> wire_meaning(p)
            == Ok::<WireCommand, ErrorView>(WireCommand::IncrBy { key: p[1], delta: n }),
        begins(p, "DECRBY"@) && p.len() == 3 && p[2] == dec_int(n as int) && n > i64::MIN ==> (
        wire_meaning(p) matches Ok(WireCommand::IncrBy { key, delta }) && key == p[1] && delta
            == -n),
        begins(p, "DECRBY"@) && p.len() == 3 && p[2] == dec_int(i64::MIN as int) ==> wire_meaning(
            p,
        ) is Err,
{
    lemma_word_lengths();
    lemma_words_differ();
    lemma_dec_int_round_trip(n);
    lemma_dec_int_round_trip(i64::MIN);
}

/// The lifetime commands take a key and a number: seconds, milliseconds, or a moment
/// in milliseconds since the epoch.
#[verifier::rlimit(40)]
pub proof fn law_words_of_lifetimes(p: Seq<Seq<u8>>, n: i64)
    requires
        p.len() == 3,
        p[2] == dec_int(n as int),
    ensures
        begins(p, "EXPIRE"@) ==> wire_meaning(p) == Ok::<WireCommand, ErrorView>(
            WireCommand::Expire { key: p[1], seconds: n },
        ),
        begins(p, "PEXPIRE"@) ==> wire_meaning(p) == Ok::<WireCommand, ErrorView>(
            WireCommand::PExpire { key: p[1], millis: n },
        ),
        begins(p, "PEXPIREAT"@) ==> wire_meaning(p) == Ok::<WireCommand, ErrorView>(
            WireCommand::PExpireAt { key: p[1], abs_epoch_ms: n },
        ),
{
    lemma_word_lengths();
    lemma_words_differ();
    lemma_dec_int_round_trip(n);
}

/// Where a number is wanted nothing else is taken, and the error says so.
#[verifier::rlimit(40)]
pub proof fn law_words_want_numbers(p: Seq<Seq<u8>>)
    requires
        p.len() == 3,
        text_to_i64(p[2]) is None,
        begins(p, "INCRBY"@) || begins(p, "DECRBY"@) || begins(p, "EXPIRE"@) || begins(p, "PEXPIRE"@) || begins(p, "PEXPIREAT"@),
    ensures
        wire_meaning(p) == Err::<WireCommand, ErrorView>(
            ErrorView::ParseError("value is not an integer or out of range"@),
        ),
{
    lemma_word_lengths();
    lemma_words_differ();
}

/// The words behind the first one.
proof fn lemma_second_words()
    ensures
        encode_utf8("GET"@) != encode_utf8("SET"@),
        encode_utf8("LEN"@) != encode_utf8("GET"@),
        encode_utf8("LEN"@) != encode_utf8("RESET"@),
        encode_utf8("GET"@) != encode_utf8("RESET"@),
{
    reveal_strlit("GET");
    reveal_strlit("SET");
    reveal_strlit("LEN");
    reveal_strlit("RESET");
    assert("GET"@[0] != "SET"@[0]);
    assert("LEN"@[0] != "GET"@[0]);
    lemma_differ("GET"@, "SET"@);
    lemma_differ("LEN"@, "GET"@);
    lemma_differ("LEN"@, "RESET"@);
    lemma_differ("GET"@, "RESET"@);
}

/// The commands of two words: `MEMORY USAGE`, `CONFIG GET` and `SET`, and `SLOWLOG GET`,
/// `LEN` and `RESET`.
#[verifier::rlimit(40)]
pub proof fn law_words_of_two(p: Seq<Seq<u8>>, n: usize)
    ensures
        begins(p, "MEMORY"@) && goes_on(p, "USAGE"@) && p.len() == 3 ==> wire_meaning(p) == Ok::<
            WireCommand,
            ErrorView,
        >(WireCommand::MemoryUsage { key: p[2] }),
        begins(p, "CONFIG"@) && goes_on(p, "GET"@) && p.len() == 3 ==> wire_meaning(p) == Ok::<
            WireCommand,
            ErrorView,
        >(WireCommand::ConfigGet { pattern: p[2] }),
        begins(p, "CONFIG"@) && goes_on(p, "SET"@) && p.len() == 4 ==> wire_meaning(p) == Ok::<
            WireCommand,
            ErrorView,
        >(WireCommand::ConfigSet { parameter: p[2], value: p[3] }),
        begins(p, "SLOWLOG"@) && goes_on(p, "LEN"@) && p.len() == 2 ==> wire_meaning(p) == Ok::<
            WireCommand,
            ErrorView,
        >(WireCommand::SlowLogLen),
        begins(p, "SLOWLOG"@) && goes_on(p, "RESET"@) && p.len() == 2 ==> wire_meaning(p) == Ok::<
            WireCommand,
            ErrorView,
        >(WireCommand::SlowLogReset),
        begins(p, "SLOWLOG"@) && goes_on(p, "GET"@) && p.len() == 2 ==> wire_meaning(p) == Ok::<
            WireCommand,
            ErrorView,
        >(WireCommand::SlowLogGet { count: None }),
        begins(p, "SLOWLOG"@) && goes_on(p, "GET"@) && p.len() == 3 && p[2] == dec_int(n as int)
            ==> wire_meaning(p) == Ok::<WireCommand, ErrorView>(
            WireCommand::SlowLogGet { count: Some(n) },
        ),
{
    lemma_word_lengths();
    lemma_words_differ();
    lemma_second_words();
    law_signs_and_zeros(n as nat);
}

/// Whether a text is one of the command words.
pub open spec fn is_command_word(w: Seq<u8>) -> bool {
    ||| w == encode_utf8("SET"@)
    ||| w == encode_utf8("GET"@)
    ||| w == encode_utf8("TTL"@)
    ||| w == encode_utf8("DEL"@)
    ||| w == encode_utf8("PTTL"@)
    ||| w == encode_utf8("AUTH"@)
    ||| w == encode_utf8("MGET"@)
    ||| w == encode_utf8("MSET"@)
    ||| w == encode_utf8("INCR"@)
    ||| w == encode_utf8("DECR"@)
    ||| w == encode_utf8("PING"@)
    ||| w == encode_utf8("INFO"@)
    ||| w == encode_utf8("SETNX"@)
    ||| w == encode_utf8("APPEND"@)
    ||| w == encode_utf8("STRLEN"@)
    ||| w == encode_utf8("EXPIRE"@)
    ||| w == encode_utf8("DBSIZE"@)
    ||| w == encode_utf8("EXISTS"@)
    ||| w == encode_utf8("INCRBY"@)
    ||| w == encode_utf8("DECRBY"@)
    ||| w == encode_utf8("MEMORY"@)
    ||| w == encode_utf8("CONFIG"@)
    ||| w == encode_utf8("PEXPIRE"@)
    ||| w == encode_utf8("PERSIST"@)
    ||| w == encode_utf8("FLUSHDB"@)
    ||| w == encode_utf8("SLOWLOG"@)
    ||| w == encode_utf8("PEXPIREAT"@)
    ||| w == encode_utf8("BGREWRITEAOF"@)
}

/// Any other word is refused as unknown, and the error names it in upper case.
#[verifier::rlimit(40)]
pub proof fn law_other_words_are_refused(p: Seq<Seq<u8>>)
    requires
        p.len() > 0,
        !is_command_word(upper_bytes(p[0])),
    ensures
        wire_meaning(p) == Err::<WireCommand, ErrorView>(
            ErrorView::UnknownCommand(readable(upper_bytes(p[0]))),
        ),
{
}

} // verus!
