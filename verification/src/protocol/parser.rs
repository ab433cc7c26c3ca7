//! The line protocol: one command per line, words separated by single spaces.

use vstd::prelude::*;
use vstd::string::*;

use crate::error::{ErrorView, FerrumError};
use crate::text::{
    ascii_raised, chars_of, lemma_margins, raised, raised_text, same_text, text_of, trim, trim_of,
    trim_start, trim_start_of, upper_char, white_space,
};

verus! {

/// A command of the line protocol.
#[derive(Debug, PartialEq)]
pub enum Command {
    /// `SET key value`
    SetKey { key: String, value: String },
    /// `GET key`
    Get { key: String },
    /// `DEL key`
    Del { key: String },
    /// `EXISTS key`
    Exists { key: String },
    /// `PING [message]`
    Ping { msg: Option<String> },
    /// `DBSIZE`
    DbSize,
    /// `FLUSHDB`
    FlushDb,
}

/// The mathematical content of a [`Command`].
#[verifier::ext_equal]
pub enum LineCommand {
    SetKey { key: Seq<char>, value: Seq<char> },
    Get { key: Seq<char> },
    Del { key: Seq<char> },
    Exists { key: Seq<char> },
    Ping { msg: Option<Seq<char>> },
    DbSize,
    FlushDb,
}

impl View for Command {
    type V = LineCommand;

    open spec fn view(&self) -> LineCommand {
        match self {
            Command::SetKey { key, value } => LineCommand::SetKey { key: key@, value: value@ },
            Command::Get { key } => LineCommand::Get { key: key@ },
            Command::Del { key } => LineCommand::Del { key: key@ },
            Command::Exists { key } => LineCommand::Exists { key: key@ },
            Command::Ping { msg } => LineCommand::Ping {
                msg: match msg {
                    Some(m) => Some(m@),
                    None => None,
                },
            },
            Command::DbSize => LineCommand::DbSize,
            Command::FlushDb => LineCommand::FlushDb,
        }
    }
}

/// The first index at or after `pos` that holds a space, or the length.
pub open spec fn space_from(s: Seq<char>, pos: int) -> int
    decreases s.len() - pos,
{
    if pos < 0 || pos >= s.len() {
        s.len() as int
    } else if s[pos] == ' ' {
        pos
    } else {
        space_from(s, pos + 1)
    }
}

/// The word that a line starts with.
pub open spec fn first_word(line: Seq<char>) -> Seq<char> {
    line.take(space_from(line, 0))
}

/// What stands behind the first space; empty when there is none.
pub open spec fn after_word(line: Seq<char>) -> Seq<char> {
    let at = space_from(line, 0);
    if at < line.len() {
        line.skip(at + 1)
    } else {
        Seq::empty()
    }
}

/// The single argument of a line, without white space around it: it exists when
/// it is not empty and holds no space.
pub open spec fn single_argument(line: Seq<char>) -> Option<Seq<char>> {
    let key = trim_of(after_word(line));
    if key.len() == 0 || key.contains(' ') {
        None
    } else {
        Some(key)
    }
}

/// The two arguments of `SET`: a key up to the second space and everything
/// behind it, neither of them empty.
pub open spec fn key_and_value(line: Seq<char>) -> Option<(Seq<char>, Seq<char>)> {
    let rest = after_word(line);
    let at = space_from(rest, 0);
    if 0 < at && at + 1 < rest.len() {
        Some((rest.take(at), rest.skip(at + 1)))
    } else {
        None
    }
}

/// What a line without white space at its ends means, given the upper-case form
/// of its first word.
pub open spec fn line_meaning(line: Seq<char>, upper: Seq<char>) -> Result<
    LineCommand,
    ErrorView,
> {
    if line.len() == 0 {
        Err(ErrorView::ParseError("empty command"@))
    } else if upper == "SET"@ {
        match key_and_value(line) {
            Some((key, value)) => Ok(LineCommand::SetKey { key, value }),
            None => Err(ErrorView::WrongArity("SET"@)),
        }
    } else if upper == "GET"@ {
        match single_argument(line) {
            Some(key) => Ok(LineCommand::Get { key }),
            None => Err(ErrorView::WrongArity("GET"@)),
        }
    } else if upper == "DEL"@ {
        match single_argument(line) {
            Some(key) => Ok(LineCommand::Del { key }),
            None => Err(ErrorView::WrongArity("DEL"@)),
        }
    } else if upper == "EXISTS"@ {
        match single_argument(line) {
            Some(key) => Ok(LineCommand::Exists { key }),
            None => Err(ErrorView::WrongArity("EXISTS"@)),
        }
    } else if upper == "PING"@ {
        let msg = trim_start_of(after_word(line));
        Ok(
            LineCommand::Ping {
                msg: if msg.len() == 0 {
                    None
                } else {
                    Some(msg)
                },
            },
        )
    } else if upper == "DBSIZE"@ {
        if trim_of(after_word(line)).len() == 0 {
            Ok(LineCommand::DbSize)
        } else {
            Err(ErrorView::WrongArity("DBSIZE"@))
        }
    } else if upper == "FLUSHDB"@ {
        if trim_of(after_word(line)).len() == 0 {
            Ok(LineCommand::FlushDb)
        } else {
            Err(ErrorView::WrongArity("FLUSHDB"@))
        }
    } else {
        Err(ErrorView::UnknownCommand(upper))
    }
}

/// What a line means.
pub open spec fn line_command(input: Seq<char>) -> Result<LineCommand, ErrorView> {
    line_meaning(trim_of(input), raised(first_word(trim_of(input))))
}

/// Whether two lines differ in nothing but the case of the ASCII letters of their
/// first word.
pub open spec fn same_but_case(a: Seq<char>, b: Seq<char>) -> bool {
    &&& a.len() == b.len()
    &&& forall|i: int|
        0 <= i < space_from(a, 0) ==> upper_char(#[trigger] a[i]) == upper_char(b[i])
    &&& forall|i: int| space_from(a, 0) <= i < a.len() ==> #[trigger] a[i] == b[i]
}

proof fn lemma_space_from(s: Seq<char>, pos: int)
    requires
        0 <= pos <= s.len(),
    ensures
        pos <= space_from(s, pos) <= s.len(),
    decreases s.len() - pos,
{
    if pos < s.len() && s[pos] != ' ' {
        lemma_space_from(s, pos + 1);
    }
}

proof fn lemma_same_space(a: Seq<char>, b: Seq<char>, pos: int)
    requires
        same_but_case(a, b),
        0 <= pos <= space_from(a, 0),
        space_from(a, pos) == space_from(a, 0),
    ensures
        space_from(b, pos) == space_from(a, 0),
    decreases a.len() - pos,
{
    lemma_space_from(a, 0);
    if pos < a.len() {
        if a[pos] == ' ' {
            assert(a[pos] == b[pos]);
        } else {
            lemma_space_from(a, pos + 1);
            assert(upper_char(a[pos]) == upper_char(b[pos]));
            lemma_same_space(a, b, pos + 1);
        }
    }
}

/// The case of the first word's letters and white space around a line do not
/// matter: such lines mean the same command, or the same error. The arguments
/// keep their case.
pub proof fn law_case_and_margins_do_not_matter(
    before: Seq<char>,
    a: Seq<char>,
    after: Seq<char>,
    b: Seq<char>,
)
    requires
        forall|i: int| 0 <= i < before.len() ==> white_space(#[trigger] before[i]),
        forall|i: int| 0 <= i < after.len() ==> white_space(#[trigger] after[i]),
        same_but_case(trim_of(a), trim_of(b)),
    ensures
        line_command(before + a + after) == line_command(b),
{
    let x = trim_of(a);
    let y = trim_of(b);
    lemma_margins(before, a, after);
    lemma_space_from(x, 0);
    lemma_same_space(x, y, 0);
    assert(ascii_raised(first_word(x)) =~= ascii_raised(first_word(y)));
    assert(after_word(x) =~= after_word(y));
}

/// A parsed line and its meaning agree.
pub open spec fn same_command(
    r: Result<Command, FerrumError>,
    m: Result<LineCommand, ErrorView>,
) -> bool {
    match (r, m) {
        (Ok(c), Ok(d)) => c@ == d,
        (Err(e), Err(f)) => e@ == f,
        _ => false,
    }
}

fn find_space(s: &[char], pos: usize) -> (at: usize)
    requires
        pos <= s.len(),
    ensures
        at == space_from(s@, pos as int),
        pos <= at <= s.len(),
        forall|i: int| pos <= i < at ==> s@[i] != ' ',
        at < s.len() ==> s@[at as int] == ' ',
{
    let mut i: usize = pos;
    while i < s.len()
        invariant
            pos <= i <= s.len(),
            space_from(s@, pos as int) == space_from(s@, i as int),
            forall|j: int| pos <= j < i ==> s@[j] != ' ',
        decreases s.len() - i,
    {
        if s[i] == ' ' {
            return i;
        }
        i += 1;
    }
    i
}

fn rest_of_line(line: &[char]) -> (rest: &[char])
    ensures
        rest@ == after_word(line@),
{
    let at: usize = find_space(line, 0);
    if at < line.len() {
        let rest = vstd::slice::slice_subrange(line, at + 1, line.len());
        assert(rest@ =~= line@.skip(at as int + 1));
        rest
    } else {
        let rest = vstd::slice::slice_subrange(line, at, line.len());
        assert(rest@ =~= Seq::<char>::empty());
        rest
    }
}

/// Reads the key of a command that takes one key.
fn single_key_arg(line: &[char], cmd: &'static str) -> (key: Result<String, FerrumError>)
    ensures
        match key {
            Ok(k) => single_argument(line@) == Some(k@),
            Err(e) => single_argument(line@) is None && e@ == ErrorView::WrongArity(cmd@),
        },
{
    let key = trim(rest_of_line(line));
    if key.len() == 0 {
        return Err(FerrumError::WrongArity { cmd });
    }
    let at: usize = find_space(key, 0);
    if at < key.len() {
        assert(key@.contains(' '));
        return Err(FerrumError::WrongArity { cmd });
    }
    Ok(text_of(key))
}

/// Checks that a command without arguments has none.
fn ensure_no_args(line: &[char], cmd: &'static str) -> (r: Result<(), FerrumError>)
    ensures
        match r {
            Ok(_) => trim_of(after_word(line@)).len() == 0,
            Err(e) => trim_of(after_word(line@)).len() > 0 && e@ == ErrorView::WrongArity(cmd@),
        },
{
    if trim(rest_of_line(line)).len() == 0 {
        Ok(())
    } else {
        Err(FerrumError::WrongArity { cmd })
    }
}

/// Interprets a line without white space at its ends, given the upper-case form
/// of its first word.
pub fn interpret(line: &[char], upper: &str) -> (r: Result<Command, FerrumError>)
    ensures
        same_command(r, line_meaning(line@, upper@)),
{
    if line.len() == 0 {
        return Err(FerrumError::ParseError("empty command".to_owned()));
    }
    if same_text(upper, "SET") {
        let rest = rest_of_line(line);
        let at: usize = find_space(rest, 0);
        if at == 0 || at >= rest.len() || at + 1 >= rest.len() {
            return Err(FerrumError::WrongArity { cmd: "SET" });
        }
        let key = vstd::slice::slice_subrange(rest, 0, at);
        let value = vstd::slice::slice_subrange(rest, at + 1, rest.len());
        assert(key@ =~= rest@.take(at as int));
        assert(value@ =~= rest@.skip(at as int + 1));
        return Ok(Command::SetKey { key: text_of(key), value: text_of(value) });
    }
    if same_text(upper, "GET") {
        return match single_key_arg(line, "GET") {
            Ok(key) => Ok(Command::Get { key }),
            Err(e) => Err(e),
        };
    }
    if same_text(upper, "DEL") {
        return match single_key_arg(line, "DEL") {
            Ok(key) => Ok(Command::Del { key }),
            Err(e) => Err(e),
        };
    }
    if same_text(upper, "EXISTS") {
        return match single_key_arg(line, "EXISTS") {
            Ok(key) => Ok(Command::Exists { key }),
            Err(e) => Err(e),
        };
    }
    if same_text(upper, "PING") {
        let msg = trim_start(rest_of_line(line));
        return if msg.len() == 0 {
            Ok(Command::Ping { msg: None })
        } else {
            Ok(Command::Ping { msg: Some(text_of(msg)) })
        };
    }
    if same_text(upper, "DBSIZE") {
        return match ensure_no_args(line, "DBSIZE") {
            Ok(_) => Ok(Command::DbSize),
            Err(e) => Err(e),
        };
    }
    if same_text(upper, "FLUSHDB") {
        return match ensure_no_args(line, "FLUSHDB") {
            Ok(_) => Ok(Command::FlushDb),
            Err(e) => Err(e),
        };
    }
    Err(FerrumError::UnknownCommand(upper.to_owned()))
}

/// Parses one line.
///
/// White space around the line is ignored and the command name may be written
/// in any case. The value of `SET` is everything behind the key, inner spaces
/// included.
pub fn parse(input: &str) -> (r: Result<Command, FerrumError>)
    ensures
        same_command(r, line_command(input@)),
{
    let chars: Vec<char> = chars_of(input);
    let line = trim(chars.as_slice());
    let at: usize = find_space(line, 0);
    let word = vstd::slice::slice_subrange(line, 0, at);
    assert(word@ =~= first_word(line@));
    let name: String = text_of(word);
    let upper: String = raised_text(name.as_str());
    interpret(line, upper.as_str())
}

/// The response line for a result.
pub open spec fn response_text(result: Result<String, FerrumError>) -> Seq<char> {
    match result {
        Ok(msg) => msg@,
        Err(e) => if e@ == ErrorView::OutOfMemory {
            "OOM command not allowed when used memory > maxmemory"@
        } else {
            "ERR "@ + e@.message()
        },
    }
}

/// Formats a result as the response line. Errors start with `ERR`, memory-limit
/// rejections with `OOM`.
pub fn format_response(result: Result<String, FerrumError>) -> (text: String)
    ensures
        text@ == response_text(result),
{
    match result {
        Ok(msg) => msg,
        Err(FerrumError::OutOfMemory) => {
            "OOM command not allowed when used memory > maxmemory".to_owned()
        },
        Err(e) => "ERR ".to_owned().concat(e.to_string().as_str()),
    }
}

} // verus!
