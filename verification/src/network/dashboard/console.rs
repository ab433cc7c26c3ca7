//! The command console: splitting a command line and showing a reply.

use vstd::prelude::*;
use vstd::string::*;
use vstd::slice::slice_subrange;

use crate::decimal::{parse_i64, text_to_i64};
use crate::persistence::resp::{bulk_strings, command_frame, vec_views};
use crate::protocol::encoder::{encode_array_header, encode_bulk_string};
use crate::protocol::reader::{find_byte, index_of_byte};
use crate::text::{readable, readable_text};

verus! {

/// Whether a byte divides the words of a command line.
pub open spec fn blank(b: u8) -> bool {
    b == 32 || b == 9 || b == 13 || b == 10
}

/// A word that may just have begun.
pub open spec fn begun(word: Option<Seq<u8>>) -> Seq<u8> {
    match word {
        Some(w) => w,
        None => Seq::empty(),
    }
}

/// A word in front of the others, where there is one.
pub open spec fn in_front(word: Option<Seq<u8>>, rest: Option<Seq<Seq<u8>>>) -> Option<
    Seq<Seq<u8>>,
> {
    match (word, rest) {
        (Some(w), Some(r)) => Some(seq![w] + r),
        (None, Some(r)) => Some(r),
        _ => None,
    }
}

/// The words of a command line from `i` on, where `word` has been read of the
/// present one and `quoted` says whether a quote is open. Blanks divide words
/// but in quotes; in quotes a backslash takes the next byte as it is. `None` if
/// a quote stays open.
pub open spec fn words_from(s: Seq<u8>, i: int, word: Option<Seq<u8>>, quoted: bool) -> Option<
    Seq<Seq<u8>>,
>
    decreases s.len() - i,
{
    if i >= s.len() {
        if quoted {
            None
        } else {
            in_front(word, Some(Seq::empty()))
        }
    } else if quoted {
        if s[i] == 34 {
            words_from(s, i + 1, word, false)
        } else if s[i] == 92 && i + 1 < s.len() {
            words_from(s, i + 2, Some(begun(word).push(s[i + 1])), true)
        } else {
            words_from(s, i + 1, Some(begun(word).push(s[i])), true)
        }
    } else if s[i] == 34 {
        words_from(s, i + 1, Some(begun(word)), true)
    } else if blank(s[i]) {
        in_front(word, words_from(s, i + 1, None, false))
    } else {
        words_from(s, i + 1, Some(begun(word).push(s[i])), false)
    }
}

/// The words of a command line.
pub open spec fn words_of(s: Seq<u8>) -> Option<Seq<Seq<u8>>> {
    words_from(s, 0, None, false)
}

/// Several words in front of others.
pub open spec fn after_words(words: Seq<Seq<u8>>, rest: Option<Seq<Seq<u8>>>) -> Option<
    Seq<Seq<u8>>,
> {
    match rest {
        Some(r) => Some(words + r),
        None => None,
    }
}

/// A word as it stands in quotes: a backslash before each quote and backslash.
pub open spec fn escaped(word: Seq<u8>) -> Seq<u8>
    decreases word.len(),
{
    if word.len() == 0 {
        Seq::empty()
    } else if word[0] == 34 || word[0] == 92 {
        seq![92u8, word[0]] + escaped(word.skip(1))
    } else {
        seq![word[0]] + escaped(word.skip(1))
    }
}

/// A word in quotes.
pub open spec fn quoted_word(word: Seq<u8>) -> Seq<u8> {
    seq![34u8] + escaped(word) + seq![34u8]
}

/// A command line of quoted words, a space between them.
pub open spec fn quoted_line(words: Seq<Seq<u8>>) -> Seq<u8>
    decreases words.len(),
{
    if words.len() == 0 {
        Seq::empty()
    } else if words.len() == 1 {
        quoted_word(words[0])
    } else {
        quoted_word(words[0]) + seq![32u8] + quoted_line(words.skip(1))
    }
}

/// Whether `part` stands in `s` from `i` on.
spec fn stands_at(s: Seq<u8>, i: int, part: Seq<u8>) -> bool {
    &&& 0 <= i <= s.len() - part.len()
    &&& forall|j: int| 0 <= j < part.len() ==> s[i + j] == #[trigger] part[j]
}

proof fn lemma_stands_apart(s: Seq<u8>, i: int, a: Seq<u8>, b: Seq<u8>)
    requires
        stands_at(s, i, a + b),
    ensures
        stands_at(s, i, a),
        stands_at(s, i + a.len(), b),
{
    assert forall|j: int| 0 <= j < a.len() implies s[i + j] == #[trigger] a[j] by {
        assert((a + b)[j] == a[j]);
    }
    assert forall|j: int| 0 <= j < b.len() implies s[i + a.len() + j] == #[trigger] b[j] by {
        assert((a + b)[a.len() + j] == b[j]);
    }
}

/// In quotes, an escaped word is read back.
proof fn lemma_escaped_read(s: Seq<u8>, i: int, read: Seq<u8>, word: Seq<u8>)
    requires
        stands_at(s, i, escaped(word)),
    ensures
        words_from(s, i, Some(read), true) == words_from(
            s,
            i + escaped(word).len(),
            Some(read + word),
            true,
        ),
    decreases word.len(),
{
    if word.len() == 0 {
        assert(read + word =~= read);
    } else {
        let rest = word.skip(1);
        let next = read.push(word[0]);
        assert(read + word =~= next + rest);
        if word[0] == 34 || word[0] == 92 {
            let head = seq![92u8, word[0]];
            lemma_stands_apart(s, i, head, escaped(rest));
            assert(s[i + 0] == head[0] && s[i + 1] == head[1]);
            lemma_escaped_read(s, i + 2, next, rest);
        } else {
            let head = seq![word[0]];
            lemma_stands_apart(s, i, head, escaped(rest));
            assert(s[i + 0] == head[0]);
            lemma_escaped_read(s, i + 1, next, rest);
        }
    }
}

/// A word in quotes is read back up to its last quote.
proof fn lemma_open_quote_read(s: Seq<u8>, i: int, word: Seq<u8>)
    requires
        stands_at(s, i, seq![34u8] + escaped(word)),
    ensures
        words_from(s, i, None, false) == words_from(
            s,
            i + 1 + escaped(word).len(),
            Some(word),
            true,
        ),
{
    let quote = seq![34u8];
    lemma_stands_apart(s, i, quote, escaped(word));
    assert(s[i + 0] == quote[0]);
    lemma_escaped_read(s, i + 1, Seq::empty(), word);
    assert(Seq::<u8>::empty() + word =~= word);
}

/// A word in quotes is read back.
proof fn lemma_quoted_read(s: Seq<u8>, i: int, word: Seq<u8>)
    requires
        stands_at(s, i, quoted_word(word)),
    ensures
        words_from(s, i, None, false) == words_from(
            s,
            i + quoted_word(word).len(),
            Some(word),
            false,
        ),
{
    let quote = seq![34u8];
    let open = quote + escaped(word);
    lemma_stands_apart(s, i, open, quote);
    assert(s[i + open.len() + 0] == quote[0]);
    lemma_open_quote_read(s, i, word);
}

/// A line of quoted words is read back, and with its last quote cut off it
/// gives none.
proof fn lemma_line_read(s: Seq<u8>, i: int, words: Seq<Seq<u8>>, cut: bool)
    requires
        words.len() > 0,
        !cut ==> stands_at(s, i, quoted_line(words)) && s.len() == i + quoted_line(words).len(),
        cut ==> stands_at(s, i, quoted_line(words).drop_last()) && s.len() == i + quoted_line(
            words,
        ).len() - 1,
    ensures
        words_from(s, i, None, false) == (if cut {
            None
        } else {
            Some(words)
        }),
    decreases words.len(),
{
    let quote = seq![34u8];
    let space = seq![32u8];
    let first = quoted_word(words[0]);
    let rest = words.skip(1);
    if words.len() > 1 {
        let tail = quoted_line(rest);
        if cut {
            assert((first + space + tail).drop_last() =~= first + space + tail.drop_last());
            lemma_stands_apart(s, i, first + space, tail.drop_last());
        } else {
            lemma_stands_apart(s, i, first + space, tail);
        }
        lemma_stands_apart(s, i, first, space);
        assert(s[i + first.len() + 0] == space[0]);
        lemma_quoted_read(s, i, words[0]);
        lemma_line_read(s, i + first.len() + 1, rest, cut);
        assert(words =~= seq![words[0]] + rest);
    } else if cut {
        assert(first.drop_last() =~= quote + escaped(words[0]));
        lemma_open_quote_read(s, i, words[0]);
    } else {
        lemma_quoted_read(s, i, words[0]);
        assert(words =~= seq![words[0]] + Seq::<Seq<u8>>::empty());
    }
}

/// Quoting is undone by splitting: a line of quoted words, empty ones among
/// them, gives the words back. Without its last quote it gives none.
pub proof fn law_quoted_words_come_back(words: Seq<Seq<u8>>)
    ensures
        words_of(quoted_line(words)) == Some(words),
        words.len() > 0 ==> words_of(quoted_line(words).drop_last()) is None,
{
    if words.len() == 0 {
        assert(words =~= Seq::<Seq<u8>>::empty());
    } else {
        lemma_line_read(quoted_line(words), 0, words, false);
        lemma_line_read(quoted_line(words).drop_last(), 0, words, true);
    }
}

/// Splits a command line into words, honouring double quotes and backslash
/// escapes.
pub fn tokenize_command(line: &[u8]) -> (argv: Option<Vec<Vec<u8>>>)
    ensures
        match argv {
            Some(words) => words_of(line@) == Some(vec_views(words@)),
            None => words_of(line@) is None,
        },
{
    let mut argv: Vec<Vec<u8>> = Vec::new();
    let mut cur: Vec<u8> = Vec::new();
    let mut in_token: bool = false;
    let mut in_quotes: bool = false;
    let mut i: usize = 0;
    let ghost mut word: Option<Seq<u8>> = None;
    proof {
        assert(vec_views(argv@) =~= Seq::<Seq<u8>>::empty());
        if words_of(line@) is Some {
            assert(Seq::<Seq<u8>>::empty() + words_of(line@)->0 =~= words_of(line@)->0);
        }
    }
    while i < line.len()
        invariant
            i <= line.len(),
            word == (if in_token {
                Some(cur@)
            } else {
                None::<Seq<u8>>
            }),
            !in_token ==> cur@.len() == 0 && !in_quotes,
            after_words(vec_views(argv@), words_from(line@, i as int, word, in_quotes)) == words_of(
                line@,
            ),
        decreases line.len() - i,
    {
        let b: u8 = line[i];
        let ghost before = vec_views(argv@);
        let ghost rest = words_from(line@, i as int, word, in_quotes);
        assert(begun(word) =~= cur@);
        if in_quotes {
            if b == 34 {
                in_quotes = false;
                i += 1;
            } else if b == 92 && line.len() - i > 1 {
                cur.push(line[i + 1]);
                i += 2;
            } else {
                cur.push(b);
                i += 1;
            }
        } else if b == 34 {
            in_quotes = true;
            in_token = true;
            i += 1;
        } else if b == 32 || b == 9 || b == 13 || b == 10 {
            if in_token {
                let mut done: Vec<u8> = Vec::new();
                std::mem::swap(&mut done, &mut cur);
                assert(done@ =~= begun(word));
                argv.push(done);
                assert(vec_views(argv@) =~= before.push(begun(word)));
                in_token = false;
            }
            i += 1;
            proof {
                let tail = words_from(line@, i as int, None, false);
                if tail is Some && word is Some {
                    assert(before.push(begun(word)) + tail->0 =~= before + (seq![begun(word)]
                        + tail->0));
                }
            }
        } else {
            in_token = true;
            cur.push(b);
            i += 1;
        }
        proof {
            word = if in_token {
                Some(cur@)
            } else {
                None
            };
        }
    }
    if in_quotes {
        return None;
    }
    let ghost before = vec_views(argv@);
    if in_token {
        let ghost w = cur@;
        argv.push(cur);
        assert(vec_views(argv@) =~= before + (seq![w] + Seq::<Seq<u8>>::empty()));
    } else {
        assert(vec_views(argv@) =~= before + Seq::<Seq<u8>>::empty());
    }
    Some(argv)
}

/// Builds the frame of a command.
pub fn encode_resp_array(argv: &[Vec<u8>]) -> (frame: Vec<u8>)
    ensures
        frame@ == command_frame(vec_views(argv@)),
{
    let mut frame: Vec<u8> = Vec::new();
    encode_array_header(&mut frame, argv.len());
    let ghost all = vec_views(argv@);
    assert(all.skip(0) =~= all);
    assert(frame@ + bulk_strings(all) =~= command_frame(all));
    let mut i: usize = 0;
    while i < argv.len()
        invariant
            i <= argv.len(),
            all == vec_views(argv@),
            frame@ + bulk_strings(all.skip(i as int)) == command_frame(all),
        decreases argv.len() - i,
    {
        let ghost before = frame@;
        encode_bulk_string(&mut frame, argv[i].as_slice());
        proof {
            let rest = all.skip(i as int);
            assert(rest[0] == argv@[i as int]@);
            assert(rest.skip(1) =~= all.skip(i as int + 1));
            assert(frame@ + bulk_strings(all.skip(i as int + 1)) =~= before + bulk_strings(rest));
        }
        i += 1;
    }
    assert(all.skip(i as int) =~= Seq::<Seq<u8>>::empty());
    assert(frame@ + bulk_strings(all.skip(i as int)) =~= frame@);
    frame
}

/// A line of a reply, up to the carriage return.
pub open spec fn line_at(s: Seq<u8>, pos: int) -> Seq<u8> {
    s.subrange(pos, index_of_byte(s, pos, 13))
}

/// Where the line behind the one at `pos` begins.
pub open spec fn behind_line(s: Seq<u8>, pos: int) -> int {
    let end = index_of_byte(s, pos, 13);
    if end + 2 <= s.len() {
        end + 2
    } else {
        s.len() as int
    }
}

/// Texts with line breaks between them.
pub open spec fn joined(parts: Seq<Seq<char>>) -> Seq<char>
    decreases parts.len(),
{
    if parts.len() == 0 {
        Seq::empty()
    } else if parts.len() == 1 {
        parts[0]
    } else {
        joined(parts.drop_last()) + seq!['\n'] + parts.last()
    }
}

/// How many bytes are left behind `pos`.
pub open spec fn left_at(s: Seq<u8>, pos: int) -> nat {
    if pos < s.len() {
        (s.len() - pos) as nat
    } else {
        0
    }
}

/// How the reply at `pos` is shown, and where it ends.
pub open spec fn shown_at(s: Seq<u8>, pos: int) -> Option<(Seq<char>, int)>
    decreases left_at(s, pos), 0nat, 0nat,
{
    if pos < 0 || pos >= s.len() {
        None
    } else {
        let line = line_at(s, pos + 1);
        let next = behind_line(s, pos + 1);
        if s[pos] == 43 || s[pos] == 58 {
            Some((readable(line), next))
        } else if s[pos] == 45 {
            Some(("(error) "@ + readable(line), next))
        } else if s[pos] == 36 {
            match text_to_i64(line) {
                Some(len) => if len < 0 {
                    Some(("(nil)"@, next))
                } else if next + len + 2 > s.len() {
                    None
                } else {
                    Some((readable(s.subrange(next, next + len)), next + len + 2))
                },
                None => None,
            }
        } else if s[pos] == 42 {
            match text_to_i64(line) {
                Some(count) => if count < 0 {
                    Some(("(empty array)"@, next))
                } else if next <= pos {
                    None
                } else {
                    match all_shown_at(s, next, count as nat) {
                        Some((parts, end)) => Some((joined(parts), end)),
                        None => None,
                    }
                },
                None => None,
            }
        } else {
            None
        }
    }
}

/// How `count` replies from `pos` on are shown, and where the last one ends.
pub open spec fn all_shown_at(s: Seq<u8>, pos: int, count: nat) -> Option<(Seq<Seq<char>>, int)>
    decreases left_at(s, pos), 1nat, count,
{
    if count == 0 {
        Some((Seq::empty(), pos))
    } else {
        match shown_at(s, pos) {
            Some((text, next)) => if next <= pos {
                None
            } else {
                match all_shown_at(s, next, (count - 1) as nat) {
                    Some((rest, end)) => Some((seq![text] + rest, end)),
                    None => None,
                }
            },
            None => None,
        }
    }
}

/// How a reply is shown; bytes that are no reply are shown as they are.
pub open spec fn shown(s: Seq<u8>) -> Seq<char> {
    match shown_at(s, 0) {
        Some((text, end)) => text,
        None => readable(s),
    }
}

/// Reads a line and moves behind it.
fn read_line<'a>(s: &'a [u8], cur: &mut usize) -> (line: &'a [u8])
    requires
        *old(cur) <= s.len(),
    ensures
        line@ == line_at(s@, *old(cur) as int),
        *final(cur) == behind_line(s@, *old(cur) as int),
        *old(cur) <= *final(cur) <= s.len(),
{
    let start: usize = *cur;
    let end: usize = find_byte(s, start, 13);
    *cur = if s.len() - end >= 2 {
        end + 2
    } else {
        s.len()
    };
    slice_subrange(s, start, end)
}

/// Texts as they are viewed.
pub open spec fn text_views(parts: Seq<String>) -> Seq<Seq<char>> {
    parts.map_values(|p: String| p@)
}

/// Joins texts with line breaks.
fn join_lines(parts: &[String]) -> (text: String)
    ensures
        text@ == joined(text_views(parts@)),
{
    let mut text: String = String::new();
    let mut i: usize = 0;
    let ghost all = text_views(parts@);
    assert(joined(all.take(0)) =~= Seq::<char>::empty());
    while i < parts.len()
        invariant
            i <= parts.len(),
            all == text_views(parts@),
            text@ == joined(all.take(i as int)),
        decreases parts.len() - i,
    {
        let ghost before = text@;
        if i > 0 {
            text.push('\n');
        }
        text.append(parts[i].as_str());
        proof {
            let more = all.take(i as int + 1);
            assert(more.drop_last() =~= all.take(i as int));
            assert(more.last() == parts@[i as int]@);
            if i == 0 {
                assert(text@ =~= parts@[0]@);
            } else {
                assert(text@ =~= before + seq!['\n'] + parts@[i as int]@);
            }
            assert(text@ =~= joined(more));
        }
        i += 1;
    }
    assert(all.take(i as int) =~= all);
    text
}

/// Shows the reply at `cur` and moves behind it.
fn decode_one(s: &[u8], cur: &mut usize) -> (text: Option<String>)
    requires
        *old(cur) <= s.len(),
    ensures
        match text {
            Some(t) => shown_at(s@, *old(cur) as int) == Some((t@, *final(cur) as int)) && *old(cur)
                < *final(cur) <= s.len(),
            None => shown_at(s@, *old(cur) as int) is None,
        },
    decreases left_at(s@, *old(cur) as int), 0nat, 0nat,
{
    if *cur >= s.len() {
        return None;
    }
    let marker: u8 = s[*cur];
    *cur = *cur + 1;
    let line: &[u8] = read_line(s, cur);
    if marker == 43 || marker == 58 {
        Some(readable_text(line))
    } else if marker == 45 {
        let mut text: String = "(error) ".to_owned();
        let detail: String = readable_text(line);
        text.append(detail.as_str());
        Some(text)
    } else if marker == 36 {
        match parse_i64(line) {
            Some(len) => if len < 0 {
                Some("(nil)".to_owned())
            } else {
                let available: usize = s.len() - *cur;
                if available < 2 || len as u64 > (available - 2) as u64 {
                    None
                } else {
                    let end: usize = *cur + len as usize;
                    let payload: &[u8] = slice_subrange(s, *cur, end);
                    *cur = end + 2;
                    Some(readable_text(payload))
                }
            },
            None => None,
        }
    } else if marker == 42 {
        match parse_i64(line) {
            Some(count) => if count < 0 {
                Some("(empty array)".to_owned())
            } else {
                match decode_many(s, cur, count as u64) {
                    Some(parts) => Some(join_lines(parts.as_slice())),
                    None => None,
                }
            },
            None => None,
        }
    } else {
        None
    }
}

/// Shows `count` replies from `cur` on.
fn decode_many(s: &[u8], cur: &mut usize, count: u64) -> (parts: Option<Vec<String>>)
    requires
        *old(cur) <= s.len(),
    ensures
        match parts {
            Some(ps) => all_shown_at(s@, *old(cur) as int, count as nat) == Some(
                (text_views(ps@), *final(cur) as int),
            ) && *old(cur) <= *final(cur) <= s.len(),
            None => all_shown_at(s@, *old(cur) as int, count as nat) is None,
        },
    decreases left_at(s@, *old(cur) as int), 1nat, 0nat,
{
    let mut parts: Vec<String> = Vec::new();
    let mut n: u64 = 0;
    let ghost whole = all_shown_at(s@, *cur as int, count as nat);
    proof {
        assert(text_views(parts@) =~= Seq::<Seq<char>>::empty());
        if whole is Some {
            assert(Seq::<Seq<char>>::empty() + (whole->0).0 =~= (whole->0).0);
        }
    }
    while n < count
        invariant
            n <= count,
            *old(cur) <= *cur <= s.len(),
            n > 0 ==> *old(cur) < *cur,
            whole == all_shown_at(s@, *old(cur) as int, count as nat),
            match (all_shown_at(s@, *cur as int, (count - n) as nat), whole) {
                (Some((rest, end)), Some((all, last))) => all == text_views(parts@) + rest && end
                    == last,
                (None, None) => true,
                _ => false,
            },
        decreases count - n,
    {
        let ghost at = *cur as int;
        match decode_one(s, cur) {
            Some(text) => {
                let ghost before = text_views(parts@);
                parts.push(text);
                proof {
                    assert(text_views(parts@) =~= before.push(text@));
                    let rest = all_shown_at(s@, *cur as int, (count - n - 1) as nat);
                    if rest is Some {
                        assert(before + (seq![text@] + (rest->0).0) =~= before.push(text@)
                            + (rest->0).0);
                    }
                }
            },
            None => {
                return None;
            },
        }
        n += 1;
    }
    proof {
        assert(text_views(parts@) + Seq::<Seq<char>>::empty() =~= text_views(parts@));
    }
    Some(parts)
}

/// Shows a reply as text.
pub fn decode_resp(s: &[u8]) -> (text: String)
    ensures
        text@ == shown(s@),
{
    let mut cur: usize = 0;
    match decode_one(s, &mut cur) {
        Some(text) => text,
        None => readable_text(s),
    }
}

/// Whether a text is a word that needs no quotes.
pub open spec fn bare(w: Seq<u8>) -> bool {
    w.len() > 0 && forall|i: int|
        0 <= i < w.len() ==> #[trigger] w[i] != 32 && w[i] != 9 && w[i] != 13 && w[i] != 10 && w[i]
            != 34
}

proof fn lemma_bare(before: Seq<u8>, w: Seq<u8>, after: Seq<u8>, read: int)
    requires
        bare(w),
        0 <= read <= w.len(),
    ensures
        words_from(
            before + w + after,
            before.len() + read,
            if read == 0 {
                None
            } else {
                Some(w.take(read))
            },
            false,
        ) == words_from(before + w + after, (before.len() + w.len()) as int, Some(w), false),
    decreases w.len() - read,
{
    let s = before + w + after;
    let at = before.len() + read;
    if read < w.len() {
        assert(s[at] == w[read]);
        lemma_bare(before, w, after, read + 1);
        assert(w.take(read).push(w[read]) =~= w.take(read + 1));
        assert(Seq::<u8>::empty().push(w[read]) =~= w.take(1) || read > 0);
    } else {
        assert(w.take(read) =~= w);
    }
}

/// Words without quotes are divided by blanks, and a quote must be closed.
pub proof fn law_blanks_divide_words(a: Seq<u8>, gap: u8, b: Seq<u8>)
    requires
        bare(a),
        bare(b),
        gap == 32 || gap == 9,
    ensures
        words_of(a) == Some(seq![a]),
        words_of(a + seq![gap] + b) == Some(seq![a, b]),
        words_of(seq![gap] + a + seq![gap]) == Some(seq![a]),
        words_of(seq![gap]) == Some(Seq::<Seq<u8>>::empty()),
        !a.contains(92) ==> words_of(seq![34u8] + a) is None,
{
    let none = Seq::<u8>::empty();
    let space = seq![gap];
    lemma_bare(none, a, none, 0);
    assert(none + a + none =~= a);
    assert(seq![a] + Seq::<Seq<u8>>::empty() =~= seq![a]);
    let two = a + space + b;
    lemma_bare(none, a, space + b, 0);
    assert(none + a + (space + b) =~= two);
    lemma_bare(a + space, b, none, 0);
    assert((a + space) + b + none =~= two);
    assert(two[a.len() as int] == gap);
    assert(seq![b] + Seq::<Seq<u8>>::empty() =~= seq![b]);
    assert(seq![a] + seq![b] =~= seq![a, b]);
    let wide = space + a + space;
    lemma_bare(space, a, space, 0);
    assert(wide[0] == gap);
    assert(wide[a.len() as int + 1] == gap);
    reveal_with_fuel(words_from, 3);
    if !a.contains(92) {
        let open = seq![34u8] + a;
        assert(open[0] == 34);
        lemma_open(open, 1, Some(none));
    }
}

proof fn lemma_open(s: Seq<u8>, i: int, word: Option<Seq<u8>>)
    requires
        0 <= i <= s.len(),
        forall|j: int| i <= j < s.len() ==> #[trigger] s[j] != 34 && s[j] != 92,
    ensures
        words_from(s, i, word, true) is None,
    decreases s.len() - i,
{
    if i < s.len() {
        lemma_open(s, i + 1, Some(begun(word).push(s[i])));
    }
}

} // verus!
