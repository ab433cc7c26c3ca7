//! What `INFO` reports.
//!
//! The laws read the report as a client does: line by line, a name, a colon and a
//! value.

use vstd::prelude::*;
use vstd::string::*;
use vstd::utf8::encode_utf8;

use crate::bytes::upper_bytes;
use crate::clock::Clock;
use crate::decimal::{dec_nat, is_digit, lemma_dec_nat, text_to_nat};
use crate::network::execute::{
    executed, info_effect, info_keyspace, info_memory, info_stats, info_text,
    milli_text, reported_memory,
};
use crate::network::replies::{law_get_reply, lemma_ascii, lemma_forms, said_value};
use crate::protocol::frame::WireCommand;
use crate::storage::engine::laws::{lemma_filter_count, lemma_live_count};
use crate::storage::engine::model::{total_cost, EngineView};
use crate::storage::eviction::EvictionPolicy;
use crate::storage::keyspace::{key_less, lemma_key_less_irreflexive, lemma_listed, sorted_keys};
use crate::text::lemma_same_encoding;

verus! {

/// Where the line at the front of a text ends: at its first carriage return.
pub open spec fn line_break(text: Seq<u8>, from: int) -> int
    decreases text.len() - from,
{
    if from < 0 || from >= text.len() {
        text.len() as int
    } else if text[from] == 13 {
        from
    } else {
        line_break(text, from + 1)
    }
}

/// The value that a report gives for a name: what stands behind `name:` on the first
/// line that begins so.
#[verifier::opaque]
pub open spec fn field(text: Seq<u8>, name: Seq<u8>) -> Option<Seq<u8>>
    decreases text.len(),
{
    let end = line_break(text, 0);
    if text.len() == 0 || end < 0 || end + 2 > text.len() {
        None
    } else {
        let line = text.take(end);
        if line.len() > name.len() && line.take(name.len() as int) == name && line[name.len() as int]
            == 58 {
            Some(line.skip(name.len() as int + 1))
        } else {
            field(text.skip(end + 2), name)
        }
    }
}

/// The number that a report gives for a name.
pub open spec fn number(text: Seq<u8>, name: Seq<u8>) -> Option<nat> {
    match field(text, name) {
        Some(v) => text_to_nat(v),
        None => None,
    }
}

/// Whether a text holds neither a colon nor a line break.
pub open spec fn plain_name(name: Seq<u8>) -> bool {
    forall|i: int| 0 <= i < name.len() ==> #[trigger] name[i] != 58 && name[i] != 13
}

/// Whether a text holds no carriage return.
pub open spec fn one_piece(v: Seq<u8>) -> bool {
    forall|i: int| 0 <= i < v.len() ==> #[trigger] v[i] != 13
}

proof fn lemma_line_break(line: Seq<u8>, rest: Seq<u8>, from: int)
    requires
        one_piece(line),
        0 <= from <= line.len(),
    ensures
        line_break(line + seq![13u8, 10u8] + rest, from) == line.len(),
    decreases line.len() - from,
{
    let text = line + seq![13u8, 10u8] + rest;
    if from < line.len() {
        assert(text[from] == line[from]);
        lemma_line_break(line, rest, from + 1);
    } else {
        assert(text[from] == 13);
    }
}

/// A line that does not begin with the name is passed over.
proof fn lemma_other_line(line: Seq<u8>, rest: Seq<u8>, name: Seq<u8>)
    requires
        one_piece(line),
        plain_name(line),
    ensures
        field(line + seq![13u8, 10u8] + rest, name) == field(rest, name),
{
    reveal_with_fuel(field, 2);
    let text = line + seq![13u8, 10u8] + rest;
    lemma_line_break(line, rest, 0);
    assert(text.take(line.len() as int) =~= line);
    assert(text.skip(line.len() as int + 2) =~= rest);
}

/// A line of a report gives its own name's value and is passed over for others.
proof fn lemma_field(own: Seq<u8>, v: Seq<u8>, rest: Seq<u8>, name: Seq<u8>)
    requires
        plain_name(own),
        plain_name(name),
        one_piece(v),
    ensures
        field(own + seq![58u8] + v + seq![13u8, 10u8] + rest, name) == (if name == own {
            Some(v)
        } else {
            field(rest, name)
        }),
{
    reveal_with_fuel(field, 2);
    let line = own + seq![58u8] + v;
    let text = line + seq![13u8, 10u8] + rest;
    assert forall|i: int| 0 <= i < line.len() implies #[trigger] line[i] != 13 by {
        if i < own.len() {
            assert(own[i] != 13);
        } else if i > own.len() {
            assert(v[i - own.len() - 1] != 13);
        }
    }
    lemma_line_break(line, rest, 0);
    assert(text.take(line.len() as int) =~= line);
    assert(text.skip(line.len() as int + 2) =~= rest);
    assert(line[own.len() as int] == 58);
    if name == own {
        assert(line.take(name.len() as int) =~= name);
        assert(line.skip(name.len() as int + 1) =~= v);
    } else if line.len() > name.len() && line.take(name.len() as int) == name && line[name.len() as int]
        == 58 {
        let n = name.len() as int;
        if n < own.len() {
            assert(line[n] == own[n]);
        } else if n > own.len() {
            assert(line.take(n)[own.len() as int] == name[own.len() as int]);
        } else {
            assert(line.take(n) =~= own);
        }
    }
}

proof fn lemma_digits_one_piece(n: nat)
    ensures
        one_piece(dec_nat(n)),
        text_to_nat(dec_nat(n)) == Some(n),
{
    lemma_dec_nat(n);
    assert forall|i: int| 0 <= i < dec_nat(n).len() implies #[trigger] dec_nat(n)[i] != 13 by {
        assert(is_digit(dec_nat(n)[i]));
    }
}

/// The names that `INFO` uses are plain.
proof fn lemma_names()
    ensures
        plain_name(encode_utf8("used_memory"@)),
        plain_name(encode_utf8("maxmemory"@)),
        plain_name(encode_utf8("maxmemory_policy"@)),
        plain_name(encode_utf8("maxmemory_samples"@)),
        plain_name(encode_utf8("ahe_alpha"@)),
        plain_name(encode_utf8("keyspace_hits"@)),
        plain_name(encode_utf8("keyspace_misses"@)),
        plain_name(encode_utf8("keys"@)),
        plain_name(encode_utf8("expires"@)),
        plain_name(encode_utf8("avg_ttl"@)),
        plain_name(encode_utf8("# Memory"@)),
        plain_name(encode_utf8("# Stats"@)),
        plain_name(encode_utf8("# Keyspace"@)),
{
    reveal_strlit("used_memory");
    reveal_strlit("maxmemory");
    reveal_strlit("maxmemory_policy");
    reveal_strlit("maxmemory_samples");
    reveal_strlit("ahe_alpha");
    reveal_strlit("keyspace_hits");
    reveal_strlit("keyspace_misses");
    reveal_strlit("keys");
    reveal_strlit("expires");
    reveal_strlit("avg_ttl");
    reveal_strlit("# Memory");
    reveal_strlit("# Stats");
    reveal_strlit("# Keyspace");
    lemma_ascii("used_memory"@);
    lemma_ascii("maxmemory"@);
    lemma_ascii("maxmemory_policy"@);
    lemma_ascii("maxmemory_samples"@);
    lemma_ascii("ahe_alpha"@);
    lemma_ascii("keyspace_hits"@);
    lemma_ascii("keyspace_misses"@);
    lemma_ascii("keys"@);
    lemma_ascii("expires"@);
    lemma_ascii("avg_ttl"@);
    lemma_ascii("# Memory"@);
    lemma_ascii("# Stats"@);
    lemma_ascii("# Keyspace"@);
}

/// The names are different from each other.
proof fn lemma_names_differ()
    ensures
        encode_utf8("used_memory"@) != encode_utf8("maxmemory"@),
        encode_utf8("used_memory"@) != encode_utf8("maxmemory_policy"@),
        encode_utf8("used_memory"@) != encode_utf8("maxmemory_samples"@),
        encode_utf8("used_memory"@) != encode_utf8("ahe_alpha"@),
        encode_utf8("used_memory"@) != encode_utf8("keyspace_hits"@),
        encode_utf8("used_memory"@) != encode_utf8("keyspace_misses"@),
        encode_utf8("used_memory"@) != encode_utf8("keys"@),
        encode_utf8("used_memory"@) != encode_utf8("expires"@),
        encode_utf8("used_memory"@) != encode_utf8("avg_ttl"@),
        encode_utf8("maxmemory"@) != encode_utf8("maxmemory_policy"@),
        encode_utf8("maxmemory"@) != encode_utf8("maxmemory_samples"@),
        encode_utf8("maxmemory"@) != encode_utf8("ahe_alpha"@),
        encode_utf8("maxmemory"@) != encode_utf8("keyspace_hits"@),
        encode_utf8("maxmemory"@) != encode_utf8("keyspace_misses"@),
        encode_utf8("maxmemory"@) != encode_utf8("keys"@),
        encode_utf8("maxmemory"@) != encode_utf8("expires"@),
        encode_utf8("maxmemory"@) != encode_utf8("avg_ttl"@),
        encode_utf8("maxmemory_policy"@) != encode_utf8("maxmemory_samples"@),
        encode_utf8("maxmemory_policy"@) != encode_utf8("ahe_alpha"@),
        encode_utf8("maxmemory_policy"@) != encode_utf8("keyspace_hits"@),
        encode_utf8("maxmemory_policy"@) != encode_utf8("keyspace_misses"@),
        encode_utf8("maxmemory_policy"@) != encode_utf8("keys"@),
        encode_utf8("maxmemory_policy"@) != encode_utf8("expires"@),
        encode_utf8("maxmemory_policy"@) != encode_utf8("avg_ttl"@),
        encode_utf8("maxmemory_samples"@) != encode_utf8("ahe_alpha"@),
        encode_utf8("maxmemory_samples"@) != encode_utf8("keyspace_hits"@),
        encode_utf8("maxmemory_samples"@) != encode_utf8("keyspace_misses"@),
        encode_utf8("maxmemory_samples"@) != encode_utf8("keys"@),
        encode_utf8("maxmemory_samples"@) != encode_utf8("expires"@),
        encode_utf8("maxmemory_samples"@) != encode_utf8("avg_ttl"@),
        encode_utf8("ahe_alpha"@) != encode_utf8("keyspace_hits"@),
        encode_utf8("ahe_alpha"@) != encode_utf8("keyspace_misses"@),
        encode_utf8("ahe_alpha"@) != encode_utf8("keys"@),
        encode_utf8("ahe_alpha"@) != encode_utf8("expires"@),
        encode_utf8("ahe_alpha"@) != encode_utf8("avg_ttl"@),
        encode_utf8("keyspace_hits"@) != encode_utf8("keyspace_misses"@),
        encode_utf8("keyspace_hits"@) != encode_utf8("keys"@),
        encode_utf8("keyspace_hits"@) != encode_utf8("expires"@),
        encode_utf8("keyspace_hits"@) != encode_utf8("avg_ttl"@),
        encode_utf8("keyspace_misses"@) != encode_utf8("keys"@),
        encode_utf8("keyspace_misses"@) != encode_utf8("expires"@),
        encode_utf8("keyspace_misses"@) != encode_utf8("avg_ttl"@),
        encode_utf8("keys"@) != encode_utf8("expires"@),
        encode_utf8("keys"@) != encode_utf8("avg_ttl"@),
        encode_utf8("expires"@) != encode_utf8("avg_ttl"@),
{
    reveal_strlit("used_memory");
    reveal_strlit("maxmemory");
    reveal_strlit("maxmemory_policy");
    reveal_strlit("maxmemory_samples");
    reveal_strlit("ahe_alpha");
    reveal_strlit("keyspace_hits");
    reveal_strlit("keyspace_misses");
    reveal_strlit("keys");
    reveal_strlit("expires");
    reveal_strlit("avg_ttl");
    lemma_same_encoding("used_memory"@, "maxmemory"@);
    lemma_same_encoding("used_memory"@, "maxmemory_policy"@);
    lemma_same_encoding("used_memory"@, "maxmemory_samples"@);
    lemma_same_encoding("used_memory"@, "ahe_alpha"@);
    lemma_same_encoding("used_memory"@, "keyspace_hits"@);
    lemma_same_encoding("used_memory"@, "keyspace_misses"@);
    lemma_same_encoding("used_memory"@, "keys"@);
    lemma_same_encoding("used_memory"@, "expires"@);
    lemma_same_encoding("used_memory"@, "avg_ttl"@);
    lemma_same_encoding("maxmemory"@, "maxmemory_policy"@);
    lemma_same_encoding("maxmemory"@, "maxmemory_samples"@);
    assert("maxmemory"@[0] != "ahe_alpha"@[0]);
    lemma_same_encoding("maxmemory"@, "ahe_alpha"@);
    lemma_same_encoding("maxmemory"@, "keyspace_hits"@);
    lemma_same_encoding("maxmemory"@, "keyspace_misses"@);
    lemma_same_encoding("maxmemory"@, "keys"@);
    lemma_same_encoding("maxmemory"@, "expires"@);
    lemma_same_encoding("maxmemory"@, "avg_ttl"@);
    lemma_same_encoding("maxmemory_policy"@, "maxmemory_samples"@);
    lemma_same_encoding("maxmemory_policy"@, "ahe_alpha"@);
    lemma_same_encoding("maxmemory_policy"@, "keyspace_hits"@);
    lemma_same_encoding("maxmemory_policy"@, "keyspace_misses"@);
    lemma_same_encoding("maxmemory_policy"@, "keys"@);
    lemma_same_encoding("maxmemory_policy"@, "expires"@);
    lemma_same_encoding("maxmemory_policy"@, "avg_ttl"@);
    lemma_same_encoding("maxmemory_samples"@, "ahe_alpha"@);
    lemma_same_encoding("maxmemory_samples"@, "keyspace_hits"@);
    lemma_same_encoding("maxmemory_samples"@, "keyspace_misses"@);
    lemma_same_encoding("maxmemory_samples"@, "keys"@);
    lemma_same_encoding("maxmemory_samples"@, "expires"@);
    lemma_same_encoding("maxmemory_samples"@, "avg_ttl"@);
    lemma_same_encoding("ahe_alpha"@, "keyspace_hits"@);
    lemma_same_encoding("ahe_alpha"@, "keyspace_misses"@);
    lemma_same_encoding("ahe_alpha"@, "keys"@);
    lemma_same_encoding("ahe_alpha"@, "expires"@);
    lemma_same_encoding("ahe_alpha"@, "avg_ttl"@);
    lemma_same_encoding("keyspace_hits"@, "keyspace_misses"@);
    lemma_same_encoding("keyspace_hits"@, "keys"@);
    lemma_same_encoding("keyspace_hits"@, "expires"@);
    lemma_same_encoding("keyspace_hits"@, "avg_ttl"@);
    lemma_same_encoding("keyspace_misses"@, "keys"@);
    lemma_same_encoding("keyspace_misses"@, "expires"@);
    lemma_same_encoding("keyspace_misses"@, "avg_ttl"@);
    lemma_same_encoding("keys"@, "expires"@);
    lemma_same_encoding("keys"@, "avg_ttl"@);
    assert("expires"@[0] != "avg_ttl"@[0]);
    lemma_same_encoding("expires"@, "avg_ttl"@);
}

/// Lines of a report, one behind the other.
pub open spec fn block(lines: Seq<(Seq<u8>, Seq<u8>)>) -> Seq<u8>
    decreases lines.len(),
{
    if lines.len() == 0 {
        Seq::empty()
    } else {
        lines[0].0 + seq![58u8] + lines[0].1 + seq![13u8, 10u8] + block(lines.skip(1))
    }
}

/// A name's value is that of the first line with the name.
proof fn lemma_block(lines: Seq<(Seq<u8>, Seq<u8>)>, rest: Seq<u8>, name: Seq<u8>, at: int)
    requires
        plain_name(name),
        forall|i: int|
            0 <= i < lines.len() ==> plain_name((#[trigger] lines[i]).0) && one_piece(lines[i].1),
        0 <= at <= lines.len(),
        forall|i: int| 0 <= i < at ==> (#[trigger] lines[i]).0 != name,
        at < lines.len() ==> lines[at].0 == name,
    ensures
        field(block(lines) + rest, name) == (if at < lines.len() {
            Some(lines[at].1)
        } else {
            field(rest, name)
        }),
    decreases lines.len(),
{
    if lines.len() == 0 {
        assert(block(lines) + rest =~= rest);
    } else {
        let (own, v) = lines[0];
        let tail = lines.skip(1);
        assert(block(lines) + rest =~= own + seq![58u8] + v + seq![13u8, 10u8] + (block(tail)
            + rest));
        assert forall|i: int| 0 <= i < tail.len() implies plain_name((#[trigger] tail[i]).0)
            && one_piece(tail[i].1) && tail[i] == lines[i + 1] by {
            assert(tail[i] == lines[i + 1]);
        }
        lemma_field(own, v, block(tail) + rest, name);
        if at > 0 {
            assert(lines[0].0 != name);
            assert forall|i: int| 0 <= i < at - 1 implies (#[trigger] tail[i]).0 != name by {
                assert(tail[i] == lines[i + 1]);
            }
            lemma_block(tail, rest, name, at - 1);
        }
    }
}

/// The lines of the memory section.
pub open spec fn memory_lines(s: EngineView) -> Seq<(Seq<u8>, Seq<u8>)> {
    seq![
        (encode_utf8("used_memory"@), dec_nat(reported_memory(s))),
        (encode_utf8("maxmemory"@), dec_nat(s.cfg.max_memory as nat)),
        (encode_utf8("maxmemory_policy"@), encode_utf8(s.cfg.policy.wire_name())),
        (encode_utf8("maxmemory_samples"@), dec_nat(s.cfg.samples as nat)),
        (encode_utf8("ahe_alpha"@), milli_text(s.alpha_milli)),
    ]
}

/// The lines of the statistics section.
pub open spec fn stats_lines(s: EngineView) -> Seq<(Seq<u8>, Seq<u8>)> {
    seq![
        (encode_utf8("keyspace_hits"@), dec_nat(s.hits as nat)),
        (encode_utf8("keyspace_misses"@), dec_nat(s.misses as nat)),
    ]
}

/// The lines of the keyspace section.
pub open spec fn keyspace_lines(s: EngineView, now: Clock) -> Seq<(Seq<u8>, Seq<u8>)> {
    seq![
        (encode_utf8("keys"@), dec_nat(s.live_keys(sorted_keys(s.store), now).len())),
        (encode_utf8("expires"@), dec_nat(s.timed_keys(now).len())),
        (encode_utf8("avg_ttl"@), dec_nat(s.mean_ttl(now))),
    ]
}

/// The policies' names are plain.
proof fn lemma_policy_plain(p: EvictionPolicy)
    ensures
        one_piece(encode_utf8(p.wire_name())),
{
    reveal_strlit("noeviction");
    reveal_strlit("allkeys-lru");
    reveal_strlit("volatile-lru");
    reveal_strlit("allkeys-lfu");
    reveal_strlit("volatile-lfu");
    reveal_strlit("allkeys-random");
    reveal_strlit("volatile-random");
    reveal_strlit("volatile-ttl");
    reveal_strlit("allkeys-ahe");
    reveal_strlit("volatile-ahe");
    reveal_strlit("allkeys-sieve");
    reveal_strlit("volatile-sieve");
    reveal_strlit("allkeys-sieve-s");
    reveal_strlit("volatile-sieve-s");
    reveal_strlit("allkeys-adaptiveclimb");
    reveal_strlit("volatile-adaptiveclimb");
    lemma_ascii(p.wire_name());
}

proof fn lemma_milli_plain(milli: u16)
    ensures
        one_piece(milli_text(milli)),
{
    let whole = dec_nat((milli / 1000) as nat);
    lemma_digits_one_piece((milli / 1000) as nat);
    assert forall|i: int| 0 <= i < milli_text(milli).len() implies #[trigger] milli_text(milli)[i]
        != 13 by {
        if i < whole.len() {
            assert(whole[i] != 13);
        }
    }
}

/// A section: its heading, and its lines.
pub open spec fn section(heading: Seq<char>, lines: Seq<(Seq<u8>, Seq<u8>)>) -> Seq<u8> {
    encode_utf8(heading) + seq![13u8, 10u8] + block(lines)
}

/// One line of a report.
spec fn line_of(l: (Seq<u8>, Seq<u8>)) -> Seq<u8> {
    l.0 + seq![58u8] + l.1 + seq![13u8, 10u8]
}

proof fn lemma_block_push(lines: Seq<(Seq<u8>, Seq<u8>)>, l: (Seq<u8>, Seq<u8>))
    ensures
        block(lines.push(l)) == block(lines) + line_of(l),
    decreases lines.len(),
{
    let more = lines.push(l);
    if lines.len() == 0 {
        assert(more.skip(1) =~= lines);
        assert(block(more) =~= block(lines) + line_of(l));
    } else {
        assert(more.skip(1) =~= lines.skip(1).push(l));
        lemma_block_push(lines.skip(1), l);
        assert(block(more) =~= block(lines) + line_of(l));
    }
}

proof fn lemma_block_three(
    a: (Seq<u8>, Seq<u8>),
    b: (Seq<u8>, Seq<u8>),
    c: (Seq<u8>, Seq<u8>),
)
    ensures
        block(seq![a]) == line_of(a),
        block(seq![a, b]) == line_of(a) + line_of(b),
        block(seq![a, b, c]) == line_of(a) + line_of(b) + line_of(c),
{
    let none = Seq::<(Seq<u8>, Seq<u8>)>::empty();
    lemma_block_push(none, a);
    lemma_block_push(seq![a], b);
    lemma_block_push(seq![a, b], c);
    assert(none.push(a) =~= seq![a]);
    assert(seq![a].push(b) =~= seq![a, b]);
    assert(seq![a, b].push(c) =~= seq![a, b, c]);
    assert(block(none) + line_of(a) =~= line_of(a));
}

/// Five texts behind a heading, taken together or one by one.
proof fn lemma_strung_five(
    h: Seq<u8>,
    a: Seq<u8>,
    b: Seq<u8>,
    c: Seq<u8>,
    d: Seq<u8>,
    e: Seq<u8>,
)
    ensures
        h + a + b + c + d + e == h + (a + b + c + d + e),
        h + a + b + c == h + (a + b + c),
        h + a + b == h + (a + b),
{
    assert(h + a + b =~= h + (a + b));
    assert(h + a + b + c =~= h + (a + b + c));
    assert(h + a + b + c + d =~= h + (a + b + c + d));
    assert(h + a + b + c + d + e =~= h + (a + b + c + d + e));
}

proof fn lemma_memory_section(s: EngineView)
    ensures
        info_memory(s) == section("# Memory"@, memory_lines(s)),
{
    let m = memory_lines(s);
    lemma_block_three(m[0], m[1], m[2]);
    lemma_block_push(seq![m[0], m[1], m[2]], m[3]);
    lemma_block_push(seq![m[0], m[1], m[2], m[3]], m[4]);
    assert(seq![m[0], m[1], m[2]].push(m[3]) =~= seq![m[0], m[1], m[2], m[3]]);
    assert(seq![m[0], m[1], m[2], m[3]].push(m[4]) =~= m);
    lemma_strung_five(
        encode_utf8("# Memory"@) + seq![13u8, 10u8],
        line_of(m[0]),
        line_of(m[1]),
        line_of(m[2]),
        line_of(m[3]),
        line_of(m[4]),
    );
}

proof fn lemma_other_sections(s: EngineView, now: Clock)
    ensures
        info_stats(s) == section("# Stats"@, stats_lines(s)),
        info_keyspace(s, now) == section("# Keyspace"@, keyspace_lines(s, now)),
{
    let t = stats_lines(s);
    let k = keyspace_lines(s, now);
    let none = Seq::<u8>::empty();
    lemma_block_three(t[0], t[1], t[1]);
    lemma_block_three(k[0], k[1], k[2]);
    assert(seq![t[0], t[1]] =~= t);
    assert(seq![k[0], k[1], k[2]] =~= k);
    lemma_strung_five(
        encode_utf8("# Stats"@) + seq![13u8, 10u8],
        line_of(t[0]),
        line_of(t[1]),
        none,
        none,
        none,
    );
    lemma_strung_five(
        encode_utf8("# Keyspace"@) + seq![13u8, 10u8],
        line_of(k[0]),
        line_of(k[1]),
        line_of(k[2]),
        none,
        none,
    );
}

proof fn lemma_in_section(
    heading: Seq<char>,
    lines: Seq<(Seq<u8>, Seq<u8>)>,
    rest: Seq<u8>,
    name: Seq<u8>,
    at: int,
)
    requires
        plain_name(encode_utf8(heading)),
        plain_name(name),
        forall|i: int|
            0 <= i < lines.len() ==> plain_name((#[trigger] lines[i]).0) && one_piece(lines[i].1),
        0 <= at <= lines.len(),
        forall|i: int| 0 <= i < at ==> (#[trigger] lines[i]).0 != name,
        at < lines.len() ==> lines[at].0 == name,
    ensures
        field(section(heading, lines) + rest, name) == (if at < lines.len() {
            Some(lines[at].1)
        } else {
            field(rest, name)
        }),
{
    let head = encode_utf8(heading);
    assert(section(heading, lines) + rest =~= head + seq![13u8, 10u8] + (block(lines) + rest));
    lemma_other_line(head, block(lines) + rest, name);
    lemma_block(lines, rest, name, at);
}

/// What each line of the memory section says, with anything behind the section.
proof fn lemma_memory_fields(s: EngineView, rest: Seq<u8>, name: Seq<u8>)
    requires
        plain_name(name),
    ensures
        name == encode_utf8("used_memory"@) ==> number(info_memory(s) + rest, name) == Some(
            reported_memory(s),
        ),
        name == encode_utf8("maxmemory"@) ==> number(info_memory(s) + rest, name) == Some(
            s.cfg.max_memory as nat,
        ),
        name == encode_utf8("maxmemory_policy"@) ==> field(info_memory(s) + rest, name) == Some(
            encode_utf8(s.cfg.policy.wire_name()),
        ),
        name == encode_utf8("maxmemory_samples"@) ==> number(info_memory(s) + rest, name) == Some(
            s.cfg.samples as nat,
        ),
        name == encode_utf8("ahe_alpha"@) ==> field(info_memory(s) + rest, name) == Some(
            milli_text(s.alpha_milli),
        ),
        (forall|i: int| 0 <= i < 5 ==> (#[trigger] memory_lines(s)[i]).0 != name) ==> field(
            info_memory(s) + rest,
            name,
        ) == field(rest, name),
{
    let lines = memory_lines(s);
    lemma_names();
    lemma_names_differ();
    lemma_memory_section(s);
    lemma_digits_one_piece(reported_memory(s));
    lemma_digits_one_piece(s.cfg.max_memory as nat);
    lemma_digits_one_piece(s.cfg.samples as nat);
    lemma_policy_plain(s.cfg.policy);
    lemma_milli_plain(s.alpha_milli);
    let at: int = if name == lines[0].0 {
        0
    } else if name == lines[1].0 {
        1
    } else if name == lines[2].0 {
        2
    } else if name == lines[3].0 {
        3
    } else if name == lines[4].0 {
        4
    } else {
        5
    };
    assert forall|i: int| 0 <= i < at implies (#[trigger] lines[i]).0 != name by {}
    lemma_in_section("# Memory"@, lines, rest, name, at);
}

/// What each line of the statistics section says, with anything behind the section.
proof fn lemma_stats_fields(s: EngineView, rest: Seq<u8>, name: Seq<u8>)
    requires
        plain_name(name),
    ensures
        name == encode_utf8("keyspace_hits"@) ==> number(info_stats(s) + rest, name) == Some(
            s.hits as nat,
        ),
        name == encode_utf8("keyspace_misses"@) ==> number(info_stats(s) + rest, name) == Some(
            s.misses as nat,
        ),
        name != encode_utf8("keyspace_hits"@) && name != encode_utf8("keyspace_misses"@) ==> field(
            info_stats(s) + rest,
            name,
        ) == field(rest, name),
{
    let lines = stats_lines(s);
    let now = Clock { mono_ns: 0, epoch_ms: 0 };
    lemma_names();
    lemma_names_differ();
    lemma_other_sections(s, now);
    lemma_digits_one_piece(s.hits as nat);
    lemma_digits_one_piece(s.misses as nat);
    let at: int = if name == lines[0].0 {
        0
    } else if name == lines[1].0 {
        1
    } else {
        2
    };
    assert forall|i: int| 0 <= i < at implies (#[trigger] lines[i]).0 != name by {}
    lemma_in_section("# Stats"@, lines, rest, name, at);
}

/// What each line of the keyspace section says.
proof fn lemma_keyspace_fields(s: EngineView, name: Seq<u8>, now: Clock)
    requires
        plain_name(name),
    ensures
        name == encode_utf8("keys"@) ==> number(info_keyspace(s, now), name) == Some(
            s.live_keys(sorted_keys(s.store), now).len(),
        ),
        name == encode_utf8("expires"@) ==> number(info_keyspace(s, now), name) == Some(
            s.timed_keys(now).len(),
        ),
        name == encode_utf8("avg_ttl"@) ==> number(info_keyspace(s, now), name) == Some(
            s.mean_ttl(now),
        ),
{
    let lines = keyspace_lines(s, now);
    let none = Seq::<u8>::empty();
    lemma_names();
    lemma_names_differ();
    lemma_other_sections(s, now);
    lemma_digits_one_piece(s.live_keys(sorted_keys(s.store), now).len());
    lemma_digits_one_piece(s.timed_keys(now).len());
    lemma_digits_one_piece(s.mean_ttl(now));
    let at: int = if name == lines[0].0 {
        0
    } else if name == lines[1].0 {
        1
    } else if name == lines[2].0 {
        2
    } else {
        3
    };
    assert forall|i: int| 0 <= i < at implies (#[trigger] lines[i]).0 != name by {}
    lemma_in_section("# Keyspace"@, lines, none, name, at);
    assert(info_keyspace(s, now) + none =~= info_keyspace(s, now));
}

/// Whether a command asks for one section of the report or for all of it.
pub open spec fn asks_for(section: Option<Seq<u8>>, name: Seq<char>) -> bool {
    match section {
        Some(n) => upper_bytes(n) == encode_utf8(name),
        None => true,
    }
}

/// The sections' names are different.
proof fn lemma_section_names()
    ensures
        encode_utf8("MEMORY"@) != encode_utf8("STATS"@),
        encode_utf8("MEMORY"@) != encode_utf8("KEYSPACE"@),
        encode_utf8("STATS"@) != encode_utf8("KEYSPACE"@),
{
    reveal_strlit("MEMORY");
    reveal_strlit("STATS");
    reveal_strlit("KEYSPACE");
    lemma_same_encoding("MEMORY"@, "STATS"@);
    lemma_same_encoding("MEMORY"@, "KEYSPACE"@);
    lemma_same_encoding("STATS"@, "KEYSPACE"@);
}

/// `INFO` reports the settings of the engine and what it counts, each number behind
/// its own name: the memory in use and its limit, the policy and its sample size, the
/// hits and the misses, the live keys and those of them with a deadline. A section by
/// itself says the same as the whole report, and asking changes nothing.
pub proof fn law_info_reports(s: EngineView, section: Option<Seq<u8>>, now: Clock)
    requires
        s.store.dom().finite(),
    ensures
        ({
            let text = info_text(s, section, now);
            &&& executed(s, WireCommand::Info { section }, now) == (said_value(text), s)
            &&& asks_for(section, "MEMORY"@) ==> {
                &&& number(text, encode_utf8("maxmemory"@)) == Some(s.cfg.max_memory as nat)
                &&& number(text, encode_utf8("maxmemory_samples"@)) == Some(s.cfg.samples as nat)
                &&& field(text, encode_utf8("maxmemory_policy"@)) == Some(
                    encode_utf8(s.cfg.policy.wire_name()),
                )
                &&& 0 <= total_cost(s.store) <= u64::MAX ==> number(
                    text,
                    encode_utf8("used_memory"@),
                ) == Some(total_cost(s.store) as nat)
            }
            &&& asks_for(section, "STATS"@) ==> {
                &&& number(text, encode_utf8("keyspace_hits"@)) == Some(s.hits as nat)
                &&& number(text, encode_utf8("keyspace_misses"@)) == Some(s.misses as nat)
            }
            &&& asks_for(section, "KEYSPACE"@) ==> {
                &&& number(text, encode_utf8("keys"@)) == Some(
                    s.store.dom().filter(|k: Seq<u8>| s.live(k, now)).len(),
                )
                &&& number(text, encode_utf8("expires"@)) == Some(
                    s.store.dom().filter(
                        |k: Seq<u8>| s.live(k, now) && s.store[k].expire_at is Some,
                    ).len(),
                )
                &&& number(text, encode_utf8("avg_ttl"@)) == Some(s.mean_ttl(now))
            }
        }),
{
    reveal(info_effect);
    lemma_forms(info_text(s, section, now), 0);
    lemma_section_names();
    lemma_live_count(s, now);
    lemma_timed_count(s, now);
    if asks_for(section, "MEMORY"@) {
        lemma_reports_memory(s, section, now);
    }
    if asks_for(section, "STATS"@) {
        lemma_reports_stats(s, section, now);
    }
    if asks_for(section, "KEYSPACE"@) {
        lemma_reports_keyspace(s, section, now);
    }
}

proof fn lemma_reports_memory(s: EngineView, section: Option<Seq<u8>>, now: Clock)
    requires
        asks_for(section, "MEMORY"@),
    ensures
        ({
            let text = info_text(s, section, now);
            &&& number(text, encode_utf8("maxmemory"@)) == Some(s.cfg.max_memory as nat)
            &&& number(text, encode_utf8("maxmemory_samples"@)) == Some(s.cfg.samples as nat)
            &&& field(text, encode_utf8("maxmemory_policy"@)) == Some(
                encode_utf8(s.cfg.policy.wire_name()),
            )
            &&& number(text, encode_utf8("used_memory"@)) == Some(reported_memory(s))
        }),
{
    let rest = match section {
        Some(_) => Seq::empty(),
        None => info_stats(s) + info_keyspace(s, now),
    };
    lemma_names();
    assert(info_text(s, section, now) =~= info_memory(s) + rest);
    lemma_memory_fields(s, rest, encode_utf8("used_memory"@));
    lemma_memory_fields(s, rest, encode_utf8("maxmemory"@));
    lemma_memory_fields(s, rest, encode_utf8("maxmemory_policy"@));
    lemma_memory_fields(s, rest, encode_utf8("maxmemory_samples"@));
}

/// The memory section has no line for these names.
proof fn lemma_not_in_memory(s: EngineView, rest: Seq<u8>, name: Seq<u8>)
    requires
        name == encode_utf8("keyspace_hits"@) || name == encode_utf8("keyspace_misses"@) || name
            == encode_utf8("keys"@) || name == encode_utf8("expires"@) || name == encode_utf8(
            "avg_ttl"@,
        ),
    ensures
        field(info_memory(s) + rest, name) == field(rest, name),
{
    lemma_names();
    lemma_names_differ();
    assert forall|i: int| 0 <= i < 5 implies (#[trigger] memory_lines(s)[i]).0 != name by {}
    lemma_memory_fields(s, rest, name);
}

proof fn lemma_reports_stats(s: EngineView, section: Option<Seq<u8>>, now: Clock)
    requires
        asks_for(section, "STATS"@),
    ensures
        ({
            let text = info_text(s, section, now);
            &&& number(text, encode_utf8("keyspace_hits"@)) == Some(s.hits as nat)
            &&& number(text, encode_utf8("keyspace_misses"@)) == Some(s.misses as nat)
        }),
{
    let text = info_text(s, section, now);
    let hits = encode_utf8("keyspace_hits"@);
    let misses = encode_utf8("keyspace_misses"@);
    let last = match section {
        Some(_) => Seq::empty(),
        None => info_keyspace(s, now),
    };
    lemma_section_names();
    lemma_names();
    let part = info_stats(s) + last;
    if section is None {
        assert(text =~= info_memory(s) + part);
        lemma_not_in_memory(s, part, hits);
        lemma_not_in_memory(s, part, misses);
    } else {
        assert(text =~= part);
    }
    lemma_stats_fields(s, last, hits);
    lemma_stats_fields(s, last, misses);
}

proof fn lemma_reports_keyspace(s: EngineView, section: Option<Seq<u8>>, now: Clock)
    requires
        asks_for(section, "KEYSPACE"@),
    ensures
        ({
            let text = info_text(s, section, now);
            &&& number(text, encode_utf8("keys"@)) == Some(
                s.live_keys(sorted_keys(s.store), now).len(),
            )
            &&& number(text, encode_utf8("expires"@)) == Some(s.timed_keys(now).len())
            &&& number(text, encode_utf8("avg_ttl"@)) == Some(s.mean_ttl(now))
        }),
{
    let text = info_text(s, section, now);
    let last = info_keyspace(s, now);
    let keys = encode_utf8("keys"@);
    let expires = encode_utf8("expires"@);
    let avg = encode_utf8("avg_ttl"@);
    lemma_section_names();
    lemma_names();
    lemma_names_differ();
    if section is None {
        let part = info_stats(s) + last;
        assert(text =~= info_memory(s) + part);
        lemma_not_in_memory(s, part, keys);
        lemma_not_in_memory(s, part, expires);
        lemma_not_in_memory(s, part, avg);
        lemma_stats_fields(s, last, keys);
        lemma_stats_fields(s, last, expires);
        lemma_stats_fields(s, last, avg);
    }
    lemma_keyspace_fields(s, keys, now);
    lemma_keyspace_fields(s, expires, now);
    lemma_keyspace_fields(s, avg, now);
}

pub proof fn lemma_timed_count(s: EngineView, now: Clock)
    requires
        s.store.dom().finite(),
    ensures
        s.timed_keys(now).len() == s.store.dom().filter(
            |k: Seq<u8>| s.live(k, now) && s.store[k].expire_at is Some,
        ).len(),
{
    let keys = sorted_keys(s.store);
    lemma_listed(s.store);
    assert forall|i: int, j: int|
        0 <= i < keys.len() && 0 <= j < keys.len() && i != j implies keys[i] != keys[j] by {
        lemma_key_less_irreflexive(keys[i]);
        if i < j {
            assert(key_less(keys[i], keys[j]));
        } else {
            assert(key_less(keys[j], keys[i]));
        }
    }
    assert(keys.to_set() =~= s.store.dom());
    lemma_filter_count(keys, |k: Seq<u8>| s.live(k, now) && s.store[k].expire_at is Some);
}

/// A `GET` of a live key adds one to the number that `INFO` gives for
/// `keyspace_hits` and leaves the one for `keyspace_misses` alone; a `GET` of any
/// other key does the opposite.
pub proof fn law_info_counts_reads(
    s: EngineView,
    key: Seq<u8>,
    section: Option<Seq<u8>>,
    now: Clock,
    later: Clock,
)
    requires
        s.store.dom().finite(),
        asks_for(section, "STATS"@),
        s.hits < u64::MAX,
        s.misses < u64::MAX,
    ensures
        ({
            let t = executed(s, WireCommand::Get { key }, now).1;
            let before = info_text(s, section, now);
            let after = info_text(t, section, later);
            let hits = encode_utf8("keyspace_hits"@);
            let misses = encode_utf8("keyspace_misses"@);
            &&& executed(s, WireCommand::Info { section }, now).0 == said_value(before)
            &&& executed(t, WireCommand::Info { section }, later).0 == said_value(after)
            &&& number(before, hits) is Some && number(before, misses) is Some
            &&& s.live(key, now) ==> number(after, hits) == Some(number(before, hits)->0 + 1)
                && number(after, misses) == number(before, misses)
            &&& !s.live(key, now) ==> number(after, misses) == Some(number(before, misses)->0 + 1)
                && number(after, hits) == number(before, hits)
        }),
{
    reveal(crate::network::execute::get_effect);
    let t = executed(s, WireCommand::Get { key }, now).1;
    assert(t.store.dom().finite());
    law_get_reply(s, key, now);
    law_info_reports(s, section, now);
    law_info_reports(t, section, later);
}

proof fn lemma_lifetimes(s: EngineView, keys: Seq<Seq<u8>>, least: nat, most: nat, now: Clock)
    requires
        keys.len() * most <= u64::MAX,
        forall|i: int|
            0 <= i < keys.len() ==> (s.store[#[trigger] keys[i]].expire_at matches Some(d) && d
                > now.mono_ns && least <= (d - now.mono_ns) / 1_000_000 <= most),
    ensures
        keys.len() * least <= s.lifetimes(keys, now) <= keys.len() * most,
    decreases keys.len(),
{
    if keys.len() > 0 {
        let front = keys.drop_last();
        let n = front.len() as int;
        assert((n + 1) * most == n * most + most) by (nonlinear_arith);
        assert((n + 1) * least == n * least + least) by (nonlinear_arith);
        assert forall|i: int| 0 <= i < front.len() implies (
        s.store[#[trigger] front[i]].expire_at matches Some(d) && d > now.mono_ns && least <= (d
            - now.mono_ns) / 1_000_000 <= most) by {
            assert(front[i] == keys[i]);
        }
        lemma_lifetimes(s, front, least, most, now);
        let last = keys.last();
        assert(keys[keys.len() - 1] == last);
        let d = s.store[last].expire_at->0;
        let left = (d - now.mono_ns) / 1_000_000;
        assert(((d - now.mono_ns) as u128) / 1_000_000 == left);
        assert(most <= keys.len() * most) by (nonlinear_arith)
            requires
                keys.len() >= 1,
                most >= 0,
        ;
    }
}

/// The mean lifetime that `INFO` reports lies between the shortest and the longest
/// one, in milliseconds; where all are the same it is that one. Without deadlines it
/// is zero.
pub proof fn law_mean_lies_between(s: EngineView, least: nat, most: nat, now: Clock)
    requires
        s.timed_keys(now).len() * most <= u64::MAX,
        forall|k: Seq<u8>| #[trigger]
            s.live(k, now) && s.store[k].expire_at is Some ==> least <= (s.store[k].expire_at->0
                - now.mono_ns) / 1_000_000 <= most,
    ensures
        s.timed_keys(now).len() > 0 ==> least <= s.mean_ttl(now) <= most,
        s.timed_keys(now).len() == 0 ==> s.mean_ttl(now) == 0,
{
    let keys = s.timed_keys(now);
    let test = |k: Seq<u8>| s.live(k, now) && s.store[k].expire_at is Some;
    assert forall|i: int| 0 <= i < keys.len() implies (
    s.store[#[trigger] keys[i]].expire_at matches Some(d) && d > now.mono_ns && least <= (d
        - now.mono_ns) / 1_000_000 <= most) by {
        sorted_keys(s.store).lemma_filter_pred(test, i);
        assert(s.live(keys[i], now));
    }
    lemma_lifetimes(s, keys, least, most, now);
    let n = keys.len() as int;
    if n > 0 {
        let sum = s.lifetimes(keys, now) as int;
        assert(least <= sum / n <= most) by (nonlinear_arith)
            requires
                n > 0,
                n * least <= sum <= n * most,
        ;
    }
}

/// The report gives the share of an adaptive policy with three decimal places.
pub proof fn law_info_share(s: EngineView, section: Option<Seq<u8>>, now: Clock)
    requires
        asks_for(section, "MEMORY"@),
    ensures
        ({
            let share = field(info_text(s, section, now), encode_utf8("ahe_alpha"@));
            share is Some && exists|whole: nat, a: u8, b: u8, c: u8|
                #![trigger with_thousandths(whole, a, b, c)]
                share->0 == with_thousandths(whole, a, b, c) && a < 10 && b < 10 && c < 10
                    && s.alpha_milli == 1000 * whole + 100 * a + 10 * b + c
        }),
{
    let rest = match section {
        Some(_) => Seq::empty(),
        None => info_stats(s) + info_keyspace(s, now),
    };
    lemma_names();
    assert(info_text(s, section, now) =~= info_memory(s) + rest);
    lemma_memory_fields(s, rest, encode_utf8("ahe_alpha"@));
    lemma_thousandths(s.alpha_milli);
}

proof fn lemma_thousandths(m: u16)
    ensures
        exists|whole: nat, a: u8, b: u8, c: u8|
            #![trigger with_thousandths(whole, a, b, c)]
            milli_text(m) == with_thousandths(whole, a, b, c) && a < 10 && b < 10 && c < 10 && m
                == 1000 * whole + 100 * a + 10 * b + c,
{
    let whole = (m / 1000) as nat;
    let a = ((m / 100) % 10) as u8;
    let b = ((m / 10) % 10) as u8;
    let c = (m % 10) as u8;
    let tens: int = m as int / 10;
    let hundreds: int = tens / 10;
    assert(m as int / 100 == hundreds);
    assert(m as int / 1000 == hundreds / 10);
    assert(tens == 10 * hundreds + b);
    assert(hundreds == 10 * whole + a);
    assert(m == 1000 * whole + 100 * a + 10 * b + c);
    lemma_thousandths_text(m, whole, a, b, c);
}

proof fn lemma_thousandths_text(m: u16, whole: nat, a: u8, b: u8, c: u8)
    requires
        whole == m as int / 1000,
        a == (m as int / 100) % 10,
        b == (m as int / 10) % 10,
        c == m as int % 10,
    ensures
        milli_text(m) == with_thousandths(whole, a, b, c),
{
    assert(milli_text(m) =~= with_thousandths(whole, a, b, c));
}

/// A number with three decimal places.
pub open spec fn with_thousandths(whole: nat, a: u8, b: u8, c: u8) -> Seq<u8> {
    dec_nat(whole) + seq![46u8, (48 + a) as u8, (48 + b) as u8, (48 + c) as u8]
}

/// A section that there is not is empty, and asking for it changes nothing.
pub proof fn law_info_of_nothing(s: EngineView, name: Seq<u8>, now: Clock)
    requires
        upper_bytes(name) != encode_utf8("MEMORY"@),
        upper_bytes(name) != encode_utf8("STATS"@),
        upper_bytes(name) != encode_utf8("KEYSPACE"@),
    ensures
        executed(s, WireCommand::Info { section: Some(name) }, now) == (
            said_value(Seq::empty()),
            s,
        ),
{
    reveal(info_effect);
    lemma_forms(Seq::empty(), 0);
}

} // verus!
