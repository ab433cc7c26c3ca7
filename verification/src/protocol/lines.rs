//! What the lines of the line protocol mean.

use vstd::prelude::*;
use vstd::string::*;

use crate::error::ErrorView;
use crate::protocol::parser::{line_command, space_from, LineCommand};
use crate::text::{raised, trim_of, trim_start_of, white_space};

verus! {

/// Whether a text is there and holds no white space.
pub open spec fn one_word(s: Seq<char>) -> bool {
    s.len() > 0 && forall|i: int| 0 <= i < s.len() ==> !white_space(#[trigger] s[i])
}

proof fn lemma_space(word: Seq<char>, rest: Seq<char>, pos: int)
    requires
        one_word(word),
        0 <= pos <= word.len(),
        rest.len() > 0 ==> rest[0] == ' ',
    ensures
        space_from(word + rest, pos) == word.len(),
    decreases word.len() - pos,
{
    if pos < word.len() {
        assert((word + rest)[pos] == word[pos]);
        lemma_space(word, rest, pos + 1);
    } else if rest.len() > 0 {
        assert((word + rest)[pos] == ' ');
    }
}

proof fn lemma_words()
    ensures
        "SET"@ != "GET"@,
        "SET"@ != "DEL"@,
        "GET"@ != "DEL"@,
        "SET"@.len() == 3,
        "GET"@.len() == 3,
        "DEL"@.len() == 3,
        "PING"@.len() == 4,
        "EXISTS"@.len() == 6,
        "DBSIZE"@.len() == 6,
        "FLUSHDB"@.len() == 7,
        "EXISTS"@ != "DBSIZE"@,
{
    reveal_strlit("SET");
    reveal_strlit("GET");
    reveal_strlit("DEL");
    reveal_strlit("PING");
    reveal_strlit("EXISTS");
    reveal_strlit("DBSIZE");
    reveal_strlit("FLUSHDB");
    assert("SET"@[0] != "GET"@[0]);
    assert("SET"@[0] != "DEL"@[0]);
    assert("GET"@[0] != "DEL"@[0]);
    assert("EXISTS"@[0] != "DBSIZE"@[0]);
}

/// A word and what stands behind the space.
proof fn lemma_line(word: Seq<char>, rest: Seq<char>)
    requires
        one_word(word),
        rest.len() > 0,
        !white_space(rest.last()),
    ensures
        ({
            let line = word + seq![' '] + rest;
            &&& trim_of(line) == line
            &&& space_from(line, 0) == word.len()
            &&& line.take(word.len() as int) == word
            &&& line.skip(word.len() as int + 1) == rest
            &&& line.len() > 0
        }),
{
    let line = word + seq![' '] + rest;
    assert(line[0] == word[0]);
    assert(line.last() == rest.last());
    lemma_space(word, seq![' '] + rest, 0);
    assert(word + (seq![' '] + rest) =~= line);
    assert(line.take(word.len() as int) =~= word);
    assert(line.skip(word.len() as int + 1) =~= rest);
}

/// A word alone.
proof fn lemma_alone(word: Seq<char>)
    requires
        one_word(word),
    ensures
        trim_of(word) == word,
        space_from(word, 0) == word.len(),
        word.take(word.len() as int) == word,
{
    lemma_space(word, Seq::empty(), 0);
    assert(word + Seq::<char>::empty() =~= word);
    assert(!white_space(word[word.len() - 1]));
    assert(word.take(word.len() as int) =~= word);
}

/// `SET` takes a key, up to the next space, and the rest of the line as the value.
pub proof fn law_set_line(word: Seq<char>, key: Seq<char>, value: Seq<char>)
    requires
        one_word(word),
        raised(word) == "SET"@,
        one_word(key),
        value.len() > 0,
        !white_space(value.last()),
    ensures
        line_command(word + seq![' '] + (key + seq![' '] + value)) == Ok::<LineCommand, ErrorView>(
            LineCommand::SetKey { key, value },
        ),
        line_command(word + seq![' '] + key) is Err,
        line_command(word) is Err,
{
    let rest = key + seq![' '] + value;
    lemma_words();
    assert(!white_space(key[key.len() - 1]));
    assert(rest.last() == value.last());
    lemma_line(word, rest);
    lemma_line(key, value);
    lemma_line(word, key);
    lemma_alone(key);
    lemma_alone(word);
}

/// `GET`, `DEL` and `EXISTS` take one key, and refuse none and two.
pub proof fn law_key_line(word: Seq<char>, key: Seq<char>, other: Seq<char>)
    requires
        one_word(word),
        one_word(key),
        one_word(other),
    ensures
        raised(word) == "GET"@ ==> line_command(word + seq![' '] + key) == Ok::<
            LineCommand,
            ErrorView,
        >(LineCommand::Get { key }),
        raised(word) == "DEL"@ ==> line_command(word + seq![' '] + key) == Ok::<
            LineCommand,
            ErrorView,
        >(LineCommand::Del { key }),
        raised(word) == "EXISTS"@ ==> line_command(word + seq![' '] + key) == Ok::<
            LineCommand,
            ErrorView,
        >(LineCommand::Exists { key }),
        raised(word) == "GET"@ || raised(word) == "DEL"@ || raised(word) == "EXISTS"@ ==> {
            &&& line_command(word) is Err
            &&& line_command(word + seq![' '] + (key + seq![' '] + other)) is Err
        },
{
    let rest = key + seq![' '] + other;
    lemma_words();
    assert(!white_space(key[key.len() - 1]));
    assert(!white_space(other[other.len() - 1]));
    assert(rest.last() == other.last());
    lemma_line(word, key);
    lemma_line(word, rest);
    lemma_line(key, other);
    lemma_alone(key);
    lemma_alone(word);
    assert(rest[key.len() as int] == ' ');
    assert forall|i: int| 0 <= i < key.len() implies key[i] != ' ' by {
        assert(!white_space(key[i]));
    }
}

/// `PING` takes a message or none, `DBSIZE` and `FLUSHDB` take nothing, and any other
/// word is unknown.
pub proof fn law_other_lines(word: Seq<char>, text: Seq<char>)
    requires
        one_word(word),
        text.len() > 0,
        !white_space(text[0]),
        !white_space(text.last()),
    ensures
        raised(word) == "PING"@ ==> {
            &&& line_command(word) == Ok::<LineCommand, ErrorView>(LineCommand::Ping { msg: None })
            &&& line_command(word + seq![' '] + text) == Ok::<LineCommand, ErrorView>(
                LineCommand::Ping { msg: Some(text) },
            )
        },
        raised(word) == "DBSIZE"@ ==> {
            &&& line_command(word) == Ok::<LineCommand, ErrorView>(LineCommand::DbSize)
            &&& line_command(word + seq![' '] + text) is Err
        },
        raised(word) == "FLUSHDB"@ ==> {
            &&& line_command(word) == Ok::<LineCommand, ErrorView>(LineCommand::FlushDb)
            &&& line_command(word + seq![' '] + text) is Err
        },
        ({
            &&& raised(word) != "SET"@
            &&& raised(word) != "GET"@
            &&& raised(word) != "DEL"@
            &&& raised(word) != "EXISTS"@
            &&& raised(word) != "PING"@
            &&& raised(word) != "DBSIZE"@
            &&& raised(word) != "FLUSHDB"@
        }) ==> line_command(word + seq![' '] + text) == Err::<LineCommand, ErrorView>(
            ErrorView::UnknownCommand(raised(word)),
        ),
{
    lemma_words();
    lemma_line(word, text);
    lemma_alone(word);
    assert(trim_start_of(text) == text);
    assert(trim_of(text) == text);
}

} // verus!
