//! Reading RESP2 frames.
//!
//! A frame is an array of bulk strings. The reader works on a buffer that may
//! hold part of a frame, one frame or many, and says how many bytes it used.

use vstd::prelude::*;

use crate::bytes::push_all;
use crate::decimal::{
    dec_int, lemma_dec_int_bytes, lemma_dec_int_round_trip, parse_i64, text_to_i64,
};
use crate::persistence::resp::{bulk_strings, command_frame, vec_views};
use crate::protocol::encoder::{bulk_string, crlf};

verus! {

/// The first index at or after `pos` that holds `b`, or the length.
pub open spec fn index_of_byte(s: Seq<u8>, pos: int, b: u8) -> int
    decreases s.len() - pos,
{
    if pos < 0 || pos >= s.len() {
        s.len() as int
    } else if s[pos] == b {
        pos
    } else {
        index_of_byte(s, pos + 1, b)
    }
}

/// What one step of reading found; `end` is the position behind what was read.
#[verifier::ext_equal]
pub enum Step<T> {
    /// The bytes ran out.
    Short,
    /// The bytes are not what the grammar asks for.
    Bad { end: int },
    /// A value, complete.
    Done { value: T, end: int },
}

/// Reads `<integer>\r\n` at `pos`.
pub open spec fn read_integer_at(s: Seq<u8>, pos: int) -> Step<i64> {
    let cr = index_of_byte(s, pos, 13);
    if cr + 1 >= s.len() {
        Step::Short
    } else if s[cr + 1] != 10 {
        Step::Bad { end: cr + 2 }
    } else {
        match text_to_i64(s.subrange(pos, cr)) {
            Some(n) => Step::Done { value: n, end: cr + 2 },
            None => Step::Bad { end: cr + 2 },
        }
    }
}

/// Reads `$<len>\r\n<payload>\r\n` at `pos`.
pub open spec fn read_bulk_at(s: Seq<u8>, pos: int) -> Step<Seq<u8>> {
    if pos >= s.len() {
        Step::Short
    } else if s[pos] != 36 {
        Step::Bad { end: pos + 1 }
    } else {
        match read_integer_at(s, pos + 1) {
            Step::Short => Step::Short,
            Step::Bad { end } => Step::Bad { end },
            Step::Done { value: len, end: start } => if len < 0 {
                Step::Bad { end: start }
            } else if start + len + 2 > s.len() {
                Step::Short
            } else if s[start + len] != 13 || s[start + len + 1] != 10 {
                Step::Bad { end: start + len + 2 }
            } else {
                Step::Done { value: s.subrange(start, start + len), end: start + len + 2 }
            },
        }
    }
}

/// Reads `count` bulk strings, one after the other.
pub open spec fn read_bulks_at(s: Seq<u8>, pos: int, count: nat) -> Step<Seq<Seq<u8>>>
    decreases count,
{
    if count == 0 {
        Step::Done { value: Seq::empty(), end: pos }
    } else {
        match read_bulk_at(s, pos) {
            Step::Short => Step::Short,
            Step::Bad { end } => Step::Bad { end },
            Step::Done { value: first, end: next } => with_parts(
                seq![first],
                read_bulks_at(s, next, (count - 1) as nat),
            ),
        }
    }
}

/// Puts `parts` in front of what `rest` read.
pub open spec fn with_parts(parts: Seq<Seq<u8>>, rest: Step<Seq<Seq<u8>>>) -> Step<Seq<Seq<u8>>> {
    match rest {
        Step::Done { value, end } => Step::Done { value: parts + value, end },
        other => other,
    }
}

/// Reads one frame at `pos`; there is at least one byte there.
pub open spec fn read_frame_at(s: Seq<u8>, pos: int) -> Step<Seq<Seq<u8>>> {
    if s[pos] != 42 {
        Step::Bad { end: pos + 1 }
    } else {
        match read_integer_at(s, pos + 1) {
            Step::Short => Step::Short,
            Step::Bad { end } => Step::Bad { end },
            Step::Done { value: count, end } => if count < 0 {
                Step::Bad { end }
            } else {
                read_bulks_at(s, end, count as nat)
            },
        }
    }
}

/// The outcome of [`read_record`].
#[derive(Debug)]
pub enum RecordRead {
    /// No byte is left at this position.
    End,
    /// The buffer ends inside a frame; `consumed` bytes belong to it.
    Partial { consumed: usize },
    /// The bytes do not form a frame; the flaw showed after `consumed` bytes.
    Malformed { consumed: usize },
    /// One complete frame of `consumed` bytes.
    Record { parts: Vec<Vec<u8>>, consumed: usize },
}

/// How the outcome of reading at `pos` follows from the grammar.
pub open spec fn read_outcome(s: Seq<u8>, pos: int, r: RecordRead) -> bool {
    match r {
        RecordRead::End => pos == s.len(),
        RecordRead::Partial { consumed } => pos < s.len() && read_frame_at(s, pos) is Short
            && consumed == s.len() - pos,
        RecordRead::Malformed { consumed } => pos < s.len() && (read_frame_at(s, pos) matches
            Step::Bad { end } && consumed == end - pos),
        RecordRead::Record { parts, consumed } => pos < s.len() && (read_frame_at(s, pos) matches
            Step::Done { value, end } && value == vec_views(parts@) && consumed == end - pos),
    }
}

/// An integer line as the executable reader hands it back.
enum IntRead {
    Short,
    Bad(usize),
    Done(i64, usize),
}

/// The first occurrence of a byte is where a search ends.
pub proof fn lemma_index_is(s: Seq<u8>, pos: int, b: u8, at: int)
    requires
        0 <= pos <= at < s.len(),
        s[at] == b,
        forall|i: int| pos <= i < at ==> s[i] != b,
    ensures
        index_of_byte(s, pos, b) == at,
    decreases at - pos,
{
    if pos < at {
        lemma_index_is(s, pos + 1, b, at);
    }
}

/// Finds the first index at or after `pos` that holds `b`, or the length.
pub fn find_byte(s: &[u8], pos: usize, b: u8) -> (at: usize)
    requires
        pos <= s.len(),
    ensures
        at == index_of_byte(s@, pos as int, b),
        pos <= at <= s.len(),
{
    let mut i: usize = pos;
    while i < s.len()
        invariant
            pos <= i <= s.len(),
            index_of_byte(s@, pos as int, b) == index_of_byte(s@, i as int, b),
        decreases s.len() - i,
    {
        if s[i] == b {
            return i;
        }
        i += 1;
    }
    i
}

fn read_integer(s: &[u8], pos: usize) -> (r: IntRead)
    requires
        pos <= s.len(),
    ensures
        match r {
            IntRead::Short => read_integer_at(s@, pos as int) is Short,
            IntRead::Bad(e) => read_integer_at(s@, pos as int)
                == (Step::<i64>::Bad { end: e as int })
                && pos <= e <= s.len(),
            IntRead::Done(n, e) => read_integer_at(s@, pos as int) == (Step::Done {
                value: n,
                end: e as int,
            }) && pos <= e <= s.len(),
        },
{
    let cr: usize = find_byte(s, pos, 13);
    if cr >= s.len() || cr + 1 >= s.len() {
        return IntRead::Short;
    }
    if s[cr + 1] != 10 {
        return IntRead::Bad(cr + 2);
    }
    match parse_i64(vstd::slice::slice_subrange(s, pos, cr)) {
        Some(n) => IntRead::Done(n, cr + 2),
        None => IntRead::Bad(cr + 2),
    }
}

/// Reads a single frame at `pos`.
///
/// The payloads come back as raw bytes. Nothing is read when `pos` is the end
/// of the buffer.
pub fn read_record(s: &[u8], pos: usize) -> (r: RecordRead)
    requires
        pos <= s.len(),
    ensures
        read_outcome(s@, pos as int, r),
        match r {
            RecordRead::End => true,
            RecordRead::Partial { consumed } => 0 < consumed <= s.len() - pos,
            RecordRead::Malformed { consumed } => 0 < consumed <= s.len() - pos,
            RecordRead::Record { parts, consumed } => 0 < consumed <= s.len() - pos,
        },
{
    if pos >= s.len() {
        return RecordRead::End;
    }
    if s[pos] != 42 {
        return RecordRead::Malformed { consumed: 1 };
    }
    let mut cur: usize = pos;
    let count: i64;
    match read_integer(s, pos + 1) {
        IntRead::Short => {
            return RecordRead::Partial { consumed: s.len() - pos };
        },
        IntRead::Bad(e) => {
            return RecordRead::Malformed { consumed: e - pos };
        },
        IntRead::Done(n, e) => {
            count = n;
            cur = e;
        },
    }
    if count < 0 {
        return RecordRead::Malformed { consumed: cur - pos };
    }
    let mut parts: Vec<Vec<u8>> = Vec::new();
    let mut left: i64 = count;
    let ghost whole = read_bulks_at(s@, cur as int, count as nat);
    assert(whole == read_frame_at(s@, pos as int));
    assert(vec_views(parts@) =~= Seq::<Seq<u8>>::empty());
    assert(with_parts(vec_views(parts@), whole) =~~= whole);
    while left > 0
        invariant
            pos < cur <= s.len(),
            0 <= left,
            whole == read_frame_at(s@, pos as int),
            whole == with_parts(vec_views(parts@), read_bulks_at(s@, cur as int, left as nat)),
        decreases left,
    {
        if cur >= s.len() {
            return RecordRead::Partial { consumed: s.len() - pos };
        }
        if s[cur] != 36 {
            return RecordRead::Malformed { consumed: cur + 1 - pos };
        }
        let start: usize;
        let len: i64;
        match read_integer(s, cur + 1) {
            IntRead::Short => {
                return RecordRead::Partial { consumed: s.len() - pos };
            },
            IntRead::Bad(e) => {
                return RecordRead::Malformed { consumed: e - pos };
            },
            IntRead::Done(n, e) => {
                len = n;
                start = e;
            },
        }
        if len < 0 {
            return RecordRead::Malformed { consumed: start - pos };
        }
        let room: usize = s.len() - start;
        if len as u64 > room as u64 || room - (len as usize) < 2 {
            return RecordRead::Partial { consumed: s.len() - pos };
        }
        let stop: usize = start + len as usize;
        if s[stop] != 13 || s[stop + 1] != 10 {
            return RecordRead::Malformed { consumed: stop + 2 - pos };
        }
        let mut part: Vec<u8> = Vec::new();
        push_all(&mut part, vstd::slice::slice_subrange(s, start, stop));
        let ghost before = vec_views(parts@);
        proof {
            assert(part@ =~= s@.subrange(start as int, stop as int));
            assert(read_bulk_at(s@, cur as int) == (Step::Done {
                value: part@,
                end: stop as int + 2,
            }));
        }
        let ghost added = part@;
        parts.push(part);
        proof {
            assert(vec_views(parts@) =~= before.push(added));
            let rest = read_bulks_at(s@, stop as int + 2, (left - 1) as nat);
            match rest {
                Step::Done { value, end } => {
                    assert(before + (seq![added] + value) =~= before.push(added) + value);
                },
                _ => {},
            }
        }
        cur = stop + 2;
        left -= 1;
    }
    proof {
        assert(vec_views(parts@) + Seq::<Seq<u8>>::empty() =~= vec_views(parts@));
    }
    RecordRead::Record { parts, consumed: cur - pos }
}

proof fn lemma_read_integer(s: Seq<u8>, pos: int, n: i64)
    requires
        0 <= pos,
        pos + dec_int(n as int).len() + 2 <= s.len(),
        s.subrange(pos, pos + dec_int(n as int).len() + 2) == dec_int(n as int) + crlf(),
    ensures
        read_integer_at(s, pos) == (Step::Done {
            value: n,
            end: pos + dec_int(n as int).len() + 2,
        }),
{
    let text = dec_int(n as int);
    let line = s.subrange(pos, pos + text.len() + 2);
    let cr = pos + text.len();
    lemma_dec_int_bytes(n as int);
    assert(line[text.len() as int] == 13);
    assert(line[text.len() as int + 1] == 10);
    assert forall|i: int| pos <= i < cr implies s[i] != 13 by {
        assert(s[i] == line[i - pos]);
        assert(line[i - pos] == text[i - pos]);
    }
    lemma_index_is(s, pos, 13, cr);
    assert(s.subrange(pos, cr) =~= text) by {
        assert forall|i: int| 0 <= i < text.len() implies s.subrange(pos, cr)[i] == text[i] by {
            assert(line[i] == text[i]);
        }
    }
    lemma_dec_int_round_trip(n);
}

proof fn lemma_read_bulk(s: Seq<u8>, pos: int, payload: Seq<u8>)
    requires
        0 <= pos,
        payload.len() <= i64::MAX,
        pos + bulk_string(payload).len() <= s.len(),
        s.subrange(pos, pos + bulk_string(payload).len()) == bulk_string(payload),
    ensures
        read_bulk_at(s, pos) == (Step::Done {
            value: payload,
            end: pos + bulk_string(payload).len(),
        }),
{
    let all = bulk_string(payload);
    let text = dec_int(payload.len() as int);
    let start = pos + 1 + text.len() + 2;
    assert(s[pos] == s.subrange(pos, pos + all.len())[0]);
    assert(s.subrange(pos + 1, pos + 1 + text.len() + 2) =~= text + crlf()) by {
        assert forall|i: int| 0 <= i < text.len() + 2 implies s.subrange(
            pos + 1,
            pos + 1 + text.len() + 2,
        )[i] == (text + crlf())[i] by {
            assert(s[pos + 1 + i] == s.subrange(pos, pos + all.len())[i + 1]);
            assert(all[i + 1] == (text + crlf())[i]);
        }
    }
    lemma_read_integer(s, pos + 1, payload.len() as i64);
    assert(s.subrange(start, start + payload.len()) =~= payload) by {
        assert forall|i: int| 0 <= i < payload.len() implies s.subrange(
            start,
            start + payload.len(),
        )[i] == payload[i] by {
            assert(s[start + i] == s.subrange(pos, pos + all.len())[start - pos + i]);
            assert(all[start - pos + i] == payload[i]);
        }
    }
    let tail = start + payload.len();
    assert(s[tail] == s.subrange(pos, pos + all.len())[tail - pos]);
    assert(s[tail + 1] == s.subrange(pos, pos + all.len())[tail + 1 - pos]);
}

proof fn lemma_read_bulks(s: Seq<u8>, pos: int, parts: Seq<Seq<u8>>)
    requires
        0 <= pos,
        forall|i: int| 0 <= i < parts.len() ==> (#[trigger] parts[i]).len() <= i64::MAX,
        pos + bulk_strings(parts).len() <= s.len(),
        s.subrange(pos, pos + bulk_strings(parts).len()) == bulk_strings(parts),
    ensures
        read_bulks_at(s, pos, parts.len()) == (Step::Done {
            value: parts,
            end: pos + bulk_strings(parts).len(),
        }),
    decreases parts.len(),
{
    if parts.len() == 0 {
        assert(parts =~= Seq::<Seq<u8>>::empty());
    } else {
        let all = bulk_strings(parts);
        let first = bulk_string(parts[0]);
        let rest = bulk_strings(parts.skip(1));
        let next = pos + first.len();
        assert(s.subrange(pos, next) =~= first) by {
            assert forall|i: int| 0 <= i < first.len() implies s.subrange(pos, next)[i]
                == first[i] by {
                assert(s[pos + i] == s.subrange(pos, pos + all.len())[i]);
            }
        }
        assert(s.subrange(next, next + rest.len()) =~= rest) by {
            assert forall|i: int| 0 <= i < rest.len() implies s.subrange(
                next,
                next + rest.len(),
            )[i] == rest[i] by {
                assert(s[next + i] == s.subrange(pos, pos + all.len())[first.len() + i]);
                assert(all[first.len() + i] == rest[i]);
            }
        }
        lemma_read_bulk(s, pos, parts[0]);
        assert forall|i: int| 0 <= i < parts.skip(1).len() implies (#[trigger] parts.skip(
            1,
        )[i]).len() <= i64::MAX by {
            assert(parts.skip(1)[i] == parts[i + 1]);
        }
        lemma_read_bulks(s, next, parts.skip(1));
        assert(seq![parts[0]] + parts.skip(1) =~= parts);
    }
}

/// Reading a command's frame gives the command back, whatever bytes its parts
/// hold and whatever follows the frame.
pub proof fn law_frame_reads_back(before: Seq<u8>, parts: Seq<Seq<u8>>, after: Seq<u8>)
    requires
        parts.len() <= i64::MAX,
        forall|i: int| 0 <= i < parts.len() ==> (#[trigger] parts[i]).len() <= i64::MAX,
    ensures
        read_frame_at(before + command_frame(parts) + after, before.len() as int) == (Step::Done {
            value: parts,
            end: before.len() as int + command_frame(parts).len(),
        }),
{
    let s = before + command_frame(parts) + after;
    let pos = before.len() as int;
    let text = dec_int(parts.len() as int);
    let bulks = bulk_strings(parts);
    let frame = command_frame(parts);
    assert forall|i: int| 0 <= i < frame.len() implies s[pos + i] == frame[i] by {}
    assert(frame[0] == 42);
    assert(s[pos] == 42);
    assert(s.subrange(pos + 1, pos + 1 + text.len() + 2) =~= text + crlf()) by {
        assert forall|i: int| 0 <= i < text.len() + 2 implies s.subrange(
            pos + 1,
            pos + 1 + text.len() + 2,
        )[i] == (text + crlf())[i] by {
            assert(s[pos + (i + 1)] == frame[i + 1]);
            assert(frame[i + 1] == (text + crlf())[i]);
        }
    }
    lemma_read_integer(s, pos + 1, parts.len() as i64);
    let start = pos + 1 + text.len() + 2;
    assert(s.subrange(start, start + bulks.len()) =~= bulks) by {
        assert forall|i: int| 0 <= i < bulks.len() implies s.subrange(
            start,
            start + bulks.len(),
        )[i] == bulks[i] by {
            assert(s[pos + (start - pos + i)] == frame[start - pos + i]);
            assert(frame[start - pos + i] == bulks[i]);
        }
    }
    lemma_read_bulks(s, start, parts);
}

/// Where a search from `pos` ends.
pub proof fn lemma_index_bounds(s: Seq<u8>, pos: int, b: u8)
    requires
        0 <= pos <= s.len(),
    ensures
        pos <= index_of_byte(s, pos, b) <= s.len(),
        index_of_byte(s, pos, b) < s.len() ==> s[index_of_byte(s, pos, b)] == b,
        forall|i: int| pos <= i < index_of_byte(s, pos, b) ==> s[i] != b,
    decreases s.len() - pos,
{
    if pos < s.len() && s[pos] != b {
        lemma_index_bounds(s, pos + 1, b);
    }
}

proof fn lemma_integer_end(s: Seq<u8>, pos: int)
    requires
        0 <= pos <= s.len(),
    ensures
        match read_integer_at(s, pos) {
            Step::Short => true,
            Step::Bad { end } => pos < end <= s.len(),
            Step::Done { value, end } => pos < end <= s.len(),
        },
{
    lemma_index_bounds(s, pos, 13);
}

proof fn lemma_bulks_end(s: Seq<u8>, pos: int, count: nat)
    requires
        0 <= pos <= s.len(),
    ensures
        match read_bulks_at(s, pos, count) {
            Step::Short => true,
            Step::Bad { end } => pos <= end <= s.len(),
            Step::Done { value, end } => pos <= end <= s.len(),
        },
    decreases count,
{
    if count > 0 && pos < s.len() {
        lemma_integer_end(s, pos + 1);
        if let Step::Done { value, end } = read_bulk_at(s, pos) {
            lemma_bulks_end(s, end, (count - 1) as nat);
        }
    }
}

/// Reading a frame moves on, and stays within the buffer.
pub proof fn lemma_frame_end(s: Seq<u8>, pos: int)
    requires
        0 <= pos < s.len(),
    ensures
        match read_frame_at(s, pos) {
            Step::Short => true,
            Step::Bad { end } => pos < end <= s.len(),
            Step::Done { value, end } => pos < end <= s.len(),
        },
{
    lemma_integer_end(s, pos + 1);
    if let Step::Done { value: count, end } = read_integer_at(s, pos + 1) {
        if count >= 0 {
            lemma_bulks_end(s, end, count as nat);
        }
    }
}

/// What reading finds in the first `n` bytes, when the whole gives `whole`.
pub open spec fn cut<T>(whole: Step<T>, n: int) -> Step<T> {
    match whole {
        Step::Short => Step::Short,
        Step::Bad { end } => if end <= n {
            whole
        } else {
            Step::Short
        },
        Step::Done { value, end } => if end <= n {
            whole
        } else {
            Step::Short
        },
    }
}

proof fn lemma_cut_integer(s: Seq<u8>, pos: int, n: int)
    requires
        0 <= pos <= n <= s.len(),
    ensures
        read_integer_at(s.take(n), pos) == cut(read_integer_at(s, pos), n),
{
    let t = s.take(n);
    let cr = index_of_byte(s, pos, 13);
    lemma_index_bounds(s, pos, 13);
    lemma_index_bounds(t, pos, 13);
    let tc = index_of_byte(t, pos, 13);
    if cr < n {
        assert(t[cr] == 13);
        assert forall|i: int| pos <= i < cr implies t[i] != 13 by {
            assert(s[i] != 13);
        }
        lemma_index_is(t, pos, 13, cr);
        assert(t.subrange(pos, cr) =~= s.subrange(pos, cr));
    } else {
        if tc < n {
            assert(t[tc] == s[tc]);
            assert(s[tc] != 13);
        }
    }
}

proof fn lemma_cut_bulk(s: Seq<u8>, pos: int, n: int)
    requires
        0 <= pos <= n <= s.len(),
    ensures
        read_bulk_at(s.take(n), pos) == cut(read_bulk_at(s, pos), n),
{
    if pos < n {
        lemma_cut_integer(s, pos + 1, n);
        lemma_integer_end(s, pos + 1);
        if let Step::Done { value: len, end: start } = read_integer_at(s, pos + 1) {
            if len >= 0 && start + len + 2 <= n {
                assert(s.take(n).subrange(start, start + len) =~= s.subrange(start, start + len));
            }
        }
    } else if pos < s.len() {
        lemma_integer_end(s, pos + 1);
    }
}

proof fn lemma_cut_bulks(s: Seq<u8>, pos: int, n: int, count: nat)
    requires
        0 <= pos <= n <= s.len(),
    ensures
        read_bulks_at(s.take(n), pos, count) == cut(read_bulks_at(s, pos, count), n),
    decreases count,
{
    if count > 0 {
        lemma_cut_bulk(s, pos, n);
        if pos < s.len() {
            lemma_integer_end(s, pos + 1);
        }
        if let Step::Done { value, end } = read_bulk_at(s, pos) {
            lemma_bulks_end(s, end, (count - 1) as nat);
            if end <= n {
                lemma_cut_bulks(s, end, n, (count - 1) as nat);
            }
        }
    }
}

/// Cutting a buffer short: whatever was complete within the cut reads as
/// before, and anything that reached beyond it is now incomplete.
pub proof fn law_cut_frame(s: Seq<u8>, pos: int, n: int)
    requires
        0 <= pos < n <= s.len(),
    ensures
        read_frame_at(s.take(n), pos) == cut(read_frame_at(s, pos), n),
{
    assert(s.take(n)[pos] == s[pos]);
    lemma_cut_integer(s, pos + 1, n);
    lemma_integer_end(s, pos + 1);
    if let Step::Done { value: count, end } = read_integer_at(s, pos + 1) {
        if count >= 0 {
            lemma_bulks_end(s, end, count as nat);
            if end <= n {
                lemma_cut_bulks(s, end, n, count as nat);
            }
        }
    }
}

} // verus!
