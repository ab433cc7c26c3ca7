//! The configuration file.
//!
//! One directive per line: a name, white space and a value. Lines that start
//! with `#` and blank lines are ignored. An unknown directive is an error, so
//! that typing mistakes show at once.

use vstd::prelude::*;
use vstd::string::*;
use vstd::utf8::{encode_utf8, is_ascii_chars, is_ascii_chars_encode_utf8};

use crate::decimal::{
    dec_nat, is_digit, lemma_dec_nat, parse_bounded, text_to_bounded, text_to_unsigned,
};
use crate::persistence::config::FsyncPolicy;
use crate::storage::eviction::EvictionPolicy;
use crate::text::{
    chars_of, is_white_space, lower_of, number_text, push_number, same_text, text_of, to_lower,
    trim, trim_of, white_space,
};

verus! {

/// What a configuration file specifies; `None` where it is silent.
#[derive(Debug, Clone, PartialEq, Eq)]
pub struct FileConfig {
    pub bind: Option<String>,
    pub port: Option<u16>,
    /// Idle timeout in seconds; zero means disabled.
    pub timeout_secs: Option<u64>,
    pub max_clients: Option<usize>,
    pub appendonly: Option<bool>,
    pub appendfilename: Option<String>,
    pub appendfsync: Option<FsyncPolicy>,
    /// Log level: one of `off`, `error`, `warn`, `info`, `debug`, `trace`.
    pub loglevel: Option<String>,
    /// Memory ceiling in bytes; zero disables it.
    pub max_memory: Option<u64>,
    pub max_memory_policy: Option<EvictionPolicy>,
    pub max_memory_samples: Option<usize>,
}

/// The mathematical content of a [`FileConfig`].
#[verifier::ext_equal]
pub struct ConfigView {
    pub bind: Option<Seq<char>>,
    pub port: Option<u16>,
    pub timeout_secs: Option<u64>,
    pub max_clients: Option<usize>,
    pub appendonly: Option<bool>,
    pub appendfilename: Option<Seq<char>>,
    pub appendfsync: Option<FsyncPolicy>,
    pub loglevel: Option<Seq<char>>,
    pub max_memory: Option<u64>,
    pub max_memory_policy: Option<EvictionPolicy>,
    pub max_memory_samples: Option<usize>,
}

pub open spec fn opt_text(t: Option<String>) -> Option<Seq<char>> {
    match t {
        Some(s) => Some(s@),
        None => None,
    }
}

impl View for FileConfig {
    type V = ConfigView;

    open spec fn view(&self) -> ConfigView {
        ConfigView {
            bind: opt_text(self.bind),
            port: self.port,
            timeout_secs: self.timeout_secs,
            max_clients: self.max_clients,
            appendonly: self.appendonly,
            appendfilename: opt_text(self.appendfilename),
            appendfsync: self.appendfsync,
            loglevel: opt_text(self.loglevel),
            max_memory: self.max_memory,
            max_memory_policy: self.max_memory_policy,
            max_memory_samples: self.max_memory_samples,
        }
    }
}

impl ConfigView {
    pub open spec fn empty() -> ConfigView {
        ConfigView {
            bind: None,
            port: None,
            timeout_secs: None,
            max_clients: None,
            appendonly: None,
            appendfilename: None,
            appendfsync: None,
            loglevel: None,
            max_memory: None,
            max_memory_policy: None,
            max_memory_samples: None,
        }
    }
}

impl Default for FileConfig {
    fn default() -> (cfg: FileConfig)
        ensures
            cfg@ == ConfigView::empty(),
    {
        FileConfig {
            bind: None,
            port: None,
            timeout_secs: None,
            max_clients: None,
            appendonly: None,
            appendfilename: None,
            appendfsync: None,
            loglevel: None,
            max_memory: None,
            max_memory_policy: None,
            max_memory_samples: None,
        }
    }
}

/// Why a configuration file could not be used.
#[derive(Debug)]
pub enum FileConfigError {
    /// The file could not be read: what went wrong, and its path.
    Io(String, String),
    /// A line could not be parsed. Lines count from one.
    Parse { path: String, line_no: usize, message: String },
}

impl FileConfigError {
    /// The text shown for this error.
    pub open spec fn message(&self) -> Seq<char> {
        match self {
            FileConfigError::Io(e, path) => "failed to read config '"@ + path@ + "': "@ + e@,
            FileConfigError::Parse { path, line_no, message } => "config '"@ + path@ + "' line "@
                + number_text(*line_no as nat) + ": "@ + message@,
        }
    }

    /// Renders the error.
    pub fn to_string(&self) -> (text: String)
        ensures
            text@ == self.message(),
    {
        match self {
            FileConfigError::Io(e, path) => "failed to read config '".to_owned().concat(
                path.as_str(),
            ).concat("': ").concat(e.as_str()),
            FileConfigError::Parse { path, line_no, message } => {
                let mut text: String = "config '".to_owned().concat(path.as_str()).concat(
                    "' line ",
                );
                push_number(&mut text, *line_no as u64);
                text.append(": ");
                text.append(message.as_str());
                text
            },
        }
    }
}

/// The first index at or after `pos` that holds a line break, or the length.
pub open spec fn line_end(text: Seq<char>, pos: int) -> int
    decreases text.len() - pos,
{
    if pos < 0 || pos >= text.len() {
        text.len() as int
    } else if text[pos] == '\n' {
        pos
    } else {
        line_end(text, pos + 1)
    }
}

/// The first index that holds white space, or the length.
pub open spec fn word_end(line: Seq<char>, pos: int) -> int
    decreases line.len() - pos,
{
    if pos < 0 || pos >= line.len() {
        line.len() as int
    } else if white_space(line[pos]) {
        pos
    } else {
        word_end(line, pos + 1)
    }
}

/// The name of a directive.
pub open spec fn directive_name(line: Seq<char>) -> Seq<char> {
    line.take(word_end(line, 0))
}

/// The value of a directive, without white space around it.
pub open spec fn directive_value(line: Seq<char>) -> Seq<char> {
    let at = word_end(line, 0);
    if at < line.len() {
        trim_of(line.skip(at + 1))
    } else {
        Seq::empty()
    }
}

/// An unsigned number of at most `max`.
pub open spec fn number_of(raw: Seq<char>, max: u64) -> Option<u64> {
    text_to_bounded(encode_utf8(raw), max)
}

/// `yes`, `true`, `on`, `1` and their opposites, in any ASCII case.
pub open spec fn bool_of(raw: Seq<char>) -> Option<bool> {
    let word = lower_of(raw);
    if word == "yes"@ || word == "true"@ || word == "on"@ || word == "1"@ {
        Some(true)
    } else if word == "no"@ || word == "false"@ || word == "off"@ || word == "0"@ {
        Some(false)
    } else {
        None
    }
}

/// A text without a pair of quotes around it.
pub open spec fn unquoted(raw: Seq<char>) -> Seq<char> {
    if raw.len() >= 2 && ((raw[0] == '"' && raw.last() == '"') || (raw[0] == '\'' && raw.last()
        == '\'')) {
        raw.subrange(1, raw.len() - 1)
    } else {
        raw
    }
}

pub open spec fn is_loglevel(word: Seq<char>) -> bool {
    word == "off"@ || word == "error"@ || word == "warn"@ || word == "info"@ || word == "debug"@
        || word == "trace"@
}

pub open spec fn ends_with(s: Seq<char>, tail: Seq<char>) -> bool {
    s.len() >= tail.len() && s.skip(s.len() - tail.len()) == tail
}

/// The number of a byte size, in lower case, and the factor that its suffix
/// means.
pub open spec fn size_parts(lower: Seq<char>) -> (Seq<char>, u64) {
    if ends_with(lower, seq!['g', 'b']) {
        (lower.take(lower.len() - 2), 1_073_741_824)
    } else if ends_with(lower, seq!['m', 'b']) {
        (lower.take(lower.len() - 2), 1_048_576)
    } else if ends_with(lower, seq!['k', 'b']) {
        (lower.take(lower.len() - 2), 1_024)
    } else if ends_with(lower, seq!['g']) {
        (lower.take(lower.len() - 1), 1_073_741_824)
    } else if ends_with(lower, seq!['m']) {
        (lower.take(lower.len() - 1), 1_048_576)
    } else if ends_with(lower, seq!['k']) {
        (lower.take(lower.len() - 1), 1_024)
    } else if ends_with(lower, seq!['b']) {
        (lower.take(lower.len() - 1), 1)
    } else {
        (lower, 1)
    }
}

/// What a byte size denotes.
pub enum ByteSize {
    Bytes(u64),
    NotASize,
    TooLarge,
}

/// The number of bytes that a size such as `64mb` denotes. White space may stand
/// around the size, none between its number and its suffix.
pub open spec fn byte_size(raw: Seq<char>) -> ByteSize {
    let (digits, factor) = size_parts(lower_of(trim_of(raw)));
    match number_of(digits, u64::MAX) {
        Some(n) => if n * factor <= u64::MAX {
            ByteSize::Bytes((n * factor) as u64)
        } else {
            ByteSize::TooLarge
        },
        None => ByteSize::NotASize,
    }
}

/// The configuration after a directive, or the message of its error.
pub open spec fn directive(cfg: ConfigView, key: Seq<char>, value: Seq<char>) -> Result<
    ConfigView,
    Seq<char>,
> {
    let name = lower_of(key);
    if name == "bind"@ {
        Ok(ConfigView { bind: Some(value), ..cfg })
    } else if name == "port"@ {
        match number_of(value, u16::MAX as u64) {
            Some(n) => Ok(ConfigView { port: Some(n as u16), ..cfg }),
            None => Err("invalid port: '"@ + value + "' is not a u16"@),
        }
    } else if name == "timeout"@ {
        match number_of(value, u64::MAX) {
            Some(n) => Ok(ConfigView { timeout_secs: Some(n), ..cfg }),
            None => Err("invalid timeout: '"@ + value + "' is not a non-negative integer"@),
        }
    } else if name == "maxclients"@ {
        match number_of(value, usize::MAX as u64) {
            Some(n) => Ok(ConfigView { max_clients: Some(n as usize), ..cfg }),
            None => Err("invalid maxclients: '"@ + value + "' is not a non-negative integer"@),
        }
    } else if name == "appendonly"@ {
        match bool_of(value) {
            Some(b) => Ok(ConfigView { appendonly: Some(b), ..cfg }),
            None => Err("expected yes/no, got '"@ + lower_of(value) + "'"@),
        }
    } else if name == "appendfilename"@ {
        Ok(ConfigView { appendfilename: Some(unquoted(value)), ..cfg })
    } else if name == "appendfsync"@ {
        match FsyncPolicy::of_text(value) {
            Some(p) => Ok(ConfigView { appendfsync: Some(p), ..cfg }),
            None => Err(
                "invalid appendfsync: "@ + ("invalid appendfsync value '"@ + lower_of(
                    trim_of(value),
                ) + "', expected one of always|everysec|no"@),
            ),
        }
    } else if name == "loglevel"@ {
        if is_loglevel(lower_of(value)) {
            Ok(ConfigView { loglevel: Some(lower_of(value)), ..cfg })
        } else {
            Err(
                "invalid loglevel '"@ + value
                    + "' (expected off|error|warn|info|debug|trace)"@,
            )
        }
    } else if name == "maxmemory"@ {
        match byte_size(value) {
            ByteSize::Bytes(n) => Ok(ConfigView { max_memory: Some(n), ..cfg }),
            ByteSize::NotASize => Err(
                "invalid "@ + "maxmemory"@ + ": '"@ + value + "' is not a byte size"@,
            ),
            ByteSize::TooLarge => Err(
                "invalid "@ + "maxmemory"@ + ": '"@ + value + "' overflows u64"@,
            ),
        }
    } else if name == "maxmemory-policy"@ {
        if EvictionPolicy::is_name(lower_of(value)) {
            Ok(
                ConfigView {
                    max_memory_policy: Some(
                        choose|p: EvictionPolicy| #[trigger] p.wire_name() == lower_of(value),
                    ),
                    ..cfg
                },
            )
        } else {
            Err(
                "invalid maxmemory-policy '"@ + value
                    + "' (expected one of noeviction, allkeys-lru, volatile-lru, allkeys-random, volatile-random, volatile-ttl)"@,
            )
        }
    } else if name == "maxmemory-samples"@ {
        match number_of(value, usize::MAX as u64) {
            Some(n) => Ok(ConfigView { max_memory_samples: Some(n as usize), ..cfg }),
            None => Err(
                "invalid maxmemory-samples: '"@ + value + "' is not a non-negative integer"@,
            ),
        }
    } else {
        Err("unknown directive '"@ + name + "'"@)
    }
}

/// The configuration after one line, or the message of its error.
pub open spec fn config_line(cfg: ConfigView, raw: Seq<char>) -> Result<ConfigView, Seq<char>> {
    let line = trim_of(raw);
    if line.len() == 0 || line[0] == '#' {
        Ok(cfg)
    } else if directive_value(line).len() == 0 {
        Err("directive '"@ + directive_name(line) + "' requires a value"@)
    } else {
        directive(cfg, directive_name(line), directive_value(line))
    }
}

/// The configuration of a text from `pos` on, or the number of the first bad
/// line and the message of its error.
pub open spec fn config_from(cfg: ConfigView, text: Seq<char>, pos: int, line_no: nat) -> Result<
    ConfigView,
    (nat, Seq<char>),
>
    decreases text.len() - pos,
    when 0 <= pos <= text.len()
    via config_from_decreases
{
    if pos == text.len() {
        Ok(cfg)
    } else {
        let end = line_end(text, pos);
        match config_line(cfg, text.subrange(pos, end)) {
            Err(message) => Err((line_no, message)),
            Ok(next) => if end == text.len() {
                Ok(next)
            } else {
                config_from(next, text, end + 1, line_no + 1)
            },
        }
    }
}

proof fn lemma_line_end(text: Seq<char>, pos: int)
    requires
        0 <= pos <= text.len(),
    ensures
        pos <= line_end(text, pos) <= text.len(),
    decreases text.len() - pos,
{
    if pos < text.len() && text[pos] != '\n' {
        lemma_line_end(text, pos + 1);
    }
}

#[via_fn]
proof fn config_from_decreases(cfg: ConfigView, text: Seq<char>, pos: int, line_no: nat) {
    lemma_line_end(text, pos);
}

/// The end of a line stays where it is, counted from the line's start, when
/// the text before it is dropped.
proof fn lemma_line_end_skip(text: Seq<char>, start: int, pos: int)
    requires
        0 <= start <= text.len(),
        0 <= pos <= text.len() - start,
    ensures
        line_end(text, start + pos) == start + line_end(text.skip(start), pos),
    decreases text.len() - start - pos,
{
    if start + pos < text.len() && text[start + pos] != '\n' {
        lemma_line_end_skip(text, start, pos + 1);
    }
}

/// What stands before `start` has no say in how the rest is read.
proof fn lemma_config_skip(cfg: ConfigView, text: Seq<char>, start: int, pos: int, line_no: nat)
    requires
        0 <= start <= text.len(),
        0 <= pos <= text.len() - start,
    ensures
        config_from(cfg, text, start + pos, line_no) == config_from(
            cfg,
            text.skip(start),
            pos,
            line_no,
        ),
    decreases text.len() - start - pos,
{
    let rest = text.skip(start);
    if pos < rest.len() {
        lemma_line_end(rest, pos);
        lemma_line_end_skip(text, start, pos);
        let end = line_end(rest, pos);
        assert(text.subrange(start + pos, start + end) =~= rest.subrange(pos, end));
        if end < rest.len() {
            match config_line(cfg, rest.subrange(pos, end)) {
                Ok(next) => lemma_config_skip(next, text, start, end + 1, line_no + 1),
                Err(_) => {},
            }
        }
    }
}

proof fn lemma_first_line_end(line: Seq<char>, rest: Seq<char>, pos: int)
    requires
        !line.contains('\n'),
        0 <= pos <= line.len(),
    ensures
        line_end(line.push('\n') + rest, pos) == line.len(),
    decreases line.len() - pos,
{
    if pos < line.len() {
        assert(line.contains(line[pos]));
        lemma_first_line_end(line, rest, pos + 1);
    }
}

/// A file is read line by line: the first line is applied, and the lines
/// behind it are read on top of what it left.
pub proof fn law_config_is_read_by_line(
    cfg: ConfigView,
    line: Seq<char>,
    rest: Seq<char>,
    line_no: nat,
)
    requires
        !line.contains('\n'),
    ensures
        config_from(cfg, line.push('\n') + rest, 0, line_no) == match config_line(cfg, line) {
            Ok(next) => config_from(next, rest, 0, line_no + 1),
            Err(message) => Err((line_no, message)),
        },
{
    let text = line.push('\n') + rest;
    let next_line = line.len() as int + 1;
    lemma_first_line_end(line, rest, 0);
    assert(text.subrange(0, line.len() as int) =~= line);
    assert(text.skip(next_line) =~= rest);
    match config_line(cfg, line) {
        Ok(next) => lemma_config_skip(next, text, next_line, 0, line_no + 1),
        Err(_) => {},
    }
}

/// Comments and blank lines say nothing: a file means the same with one in
/// front, but for the line numbers of its errors.
pub proof fn law_comments_say_nothing(
    cfg: ConfigView,
    line: Seq<char>,
    rest: Seq<char>,
    line_no: nat,
)
    requires
        !line.contains('\n'),
        trim_of(line).len() == 0 || trim_of(line)[0] == '#',
    ensures
        config_from(cfg, line.push('\n') + rest, 0, line_no) == config_from(
            cfg,
            rest,
            0,
            line_no + 1,
        ),
{
    law_config_is_read_by_line(cfg, line, rest, line_no);
}

/// The later of two settings of a field, if it was set at all.
pub open spec fn last_set<T>(sooner: Option<T>, later: Option<T>) -> Option<T> {
    if later is Some {
        later
    } else {
        sooner
    }
}

/// One configuration on top of another: a field that the later one sets is
/// taken from it, any other from the sooner one.
pub open spec fn overlaid(sooner: ConfigView, later: ConfigView) -> ConfigView {
    ConfigView {
        bind: last_set(sooner.bind, later.bind),
        port: last_set(sooner.port, later.port),
        timeout_secs: last_set(sooner.timeout_secs, later.timeout_secs),
        max_clients: last_set(sooner.max_clients, later.max_clients),
        appendonly: last_set(sooner.appendonly, later.appendonly),
        appendfilename: last_set(sooner.appendfilename, later.appendfilename),
        appendfsync: last_set(sooner.appendfsync, later.appendfsync),
        loglevel: last_set(sooner.loglevel, later.loglevel),
        max_memory: last_set(sooner.max_memory, later.max_memory),
        max_memory_policy: last_set(sooner.max_memory_policy, later.max_memory_policy),
        max_memory_samples: last_set(sooner.max_memory_samples, later.max_memory_samples),
    }
}

/// A directive sets the same on top of another configuration.
proof fn lemma_directive_overlaid(
    base: ConfigView,
    cfg: ConfigView,
    key: Seq<char>,
    value: Seq<char>,
)
    ensures
        match (directive(overlaid(base, cfg), key, value), directive(cfg, key, value)) {
            (Ok(a), Ok(b)) => a == overlaid(base, b),
            (Err(a), Err(b)) => a == b,
            _ => false,
        },
{
    // One directive at a time.
    let name = lower_of(key);
    if name == "bind"@ {
    } else if name == "port"@ {
    } else if name == "timeout"@ {
    } else if name == "maxclients"@ {
    } else if name == "appendonly"@ {
    } else if name == "appendfilename"@ {
    } else if name == "appendfsync"@ {
    } else if name == "loglevel"@ {
    } else if name == "maxmemory"@ {
    } else if name == "maxmemory-policy"@ {
    } else if name == "maxmemory-samples"@ {
    }
}

/// So does a line.
proof fn lemma_line_overlaid(base: ConfigView, cfg: ConfigView, raw: Seq<char>)
    ensures
        match (config_line(overlaid(base, cfg), raw), config_line(cfg, raw)) {
            (Ok(a), Ok(b)) => a == overlaid(base, b),
            (Err(a), Err(b)) => a == b,
            _ => false,
        },
{
    let line = trim_of(raw);
    lemma_directive_overlaid(base, cfg, directive_name(line), directive_value(line));
}

/// So does a text; its line numbers have no say in what it sets.
proof fn lemma_text_overlaid(
    base: ConfigView,
    cfg: ConfigView,
    text: Seq<char>,
    pos: int,
    line_no: nat,
    other_no: nat,
)
    requires
        0 <= pos <= text.len(),
        config_from(cfg, text, pos, line_no) is Ok,
    ensures
        config_from(overlaid(base, cfg), text, pos, other_no) == Ok::<ConfigView, (nat, Seq<char>)>(
            overlaid(base, config_from(cfg, text, pos, line_no)->Ok_0),
        ),
    decreases text.len() - pos,
{
    if pos < text.len() {
        lemma_line_end(text, pos);
        let end = line_end(text, pos);
        lemma_line_overlaid(base, cfg, text.subrange(pos, end));
        if end < text.len() {
            let next = config_line(cfg, text.subrange(pos, end))->Ok_0;
            lemma_text_overlaid(base, next, text, end + 1, line_no + 1, other_no + 1);
        }
    }
}

/// A line ends in a text where it ends without the line behind it.
proof fn lemma_line_end_joined(sooner: Seq<char>, later: Seq<char>, pos: int)
    requires
        0 <= pos <= sooner.len(),
    ensures
        line_end(sooner.push('\n') + later, pos) == line_end(sooner, pos),
    decreases sooner.len() - pos,
{
    if pos < sooner.len() && sooner[pos] != '\n' {
        lemma_line_end_joined(sooner, later, pos + 1);
    }
}

/// The line number with which the text behind `sooner` is read.
proof fn lemma_joined(
    cfg: ConfigView,
    sooner: Seq<char>,
    later: Seq<char>,
    pos: int,
    line_no: nat,
    other_no: nat,
) -> (behind: nat)
    requires
        0 <= pos <= sooner.len(),
        config_from(cfg, sooner, pos, line_no) is Ok,
    ensures
        config_from(cfg, sooner.push('\n') + later, pos, other_no) == config_from(
            config_from(cfg, sooner, pos, line_no)->Ok_0,
            later,
            0,
            behind,
        ),
    decreases sooner.len() - pos,
{
    let text = sooner.push('\n') + later;
    let end = line_end(sooner, pos);
    lemma_line_end(sooner, pos);
    lemma_line_end_joined(sooner, later, pos);
    assert(text.subrange(pos, end) =~= sooner.subrange(pos, end));
    if end < sooner.len() {
        let next = config_line(cfg, sooner.subrange(pos, end))->Ok_0;
        lemma_joined(next, sooner, later, end + 1, line_no + 1, other_no + 1)
    } else {
        let after = config_from(cfg, sooner, pos, line_no)->Ok_0;
        assert(text.skip(end + 1) =~= later);
        lemma_config_skip(after, text, end + 1, 0, other_no + 1);
        other_no + 1
    }
}

/// The last setting of a field wins: of two files joined by a line break, each
/// field is as the second has it where the second sets it, else as the first
/// has it.
pub proof fn law_last_setting_wins(sooner: Seq<char>, later: Seq<char>)
    requires
        config_from(ConfigView::empty(), sooner, 0, 1) is Ok,
        config_from(ConfigView::empty(), later, 0, 1) is Ok,
    ensures
        config_from(ConfigView::empty(), sooner.push('\n') + later, 0, 1) == Ok::<
            ConfigView,
            (nat, Seq<char>),
        >(
            overlaid(
                config_from(ConfigView::empty(), sooner, 0, 1)->Ok_0,
                config_from(ConfigView::empty(), later, 0, 1)->Ok_0,
            ),
        ),
{
    let first = config_from(ConfigView::empty(), sooner, 0, 1)->Ok_0;
    let behind = lemma_joined(ConfigView::empty(), sooner, later, 0, 1, 1);
    assert(overlaid(first, ConfigView::empty()) == first);
    lemma_text_overlaid(first, ConfigView::empty(), later, 0, 1, behind);
}

/// The names of the directives.
pub open spec fn is_directive(name: Seq<char>) -> bool {
    ||| name == "bind"@
    ||| name == "port"@
    ||| name == "timeout"@
    ||| name == "maxclients"@
    ||| name == "appendonly"@
    ||| name == "appendfilename"@
    ||| name == "appendfsync"@
    ||| name == "loglevel"@
    ||| name == "maxmemory"@
    ||| name == "maxmemory-policy"@
    ||| name == "maxmemory-samples"@
}

/// A misspelt directive is never passed over: the file is refused, and the
/// error carries the number of the line.
pub proof fn law_unknown_directive_is_refused(
    cfg: ConfigView,
    line: Seq<char>,
    rest: Seq<char>,
    line_no: nat,
)
    requires
        !line.contains('\n'),
        trim_of(line).len() > 0,
        trim_of(line)[0] != '#',
        !is_directive(lower_of(directive_name(trim_of(line)))),
    ensures
        config_from(cfg, line.push('\n') + rest, 0, line_no) matches Err((n, _)) && n == line_no,
{
    law_config_is_read_by_line(cfg, line, rest, line_no);
}

fn find_line_end(text: &[char], pos: usize) -> (at: usize)
    requires
        pos <= text.len(),
    ensures
        at == line_end(text@, pos as int),
        pos <= at <= text.len(),
{
    let mut i: usize = pos;
    while i < text.len()
        invariant
            pos <= i <= text.len(),
            line_end(text@, pos as int) == line_end(text@, i as int),
        decreases text.len() - i,
    {
        if text[i] == '\n' {
            return i;
        }
        i += 1;
    }
    i
}

fn find_word_end(line: &[char]) -> (at: usize)
    ensures
        at == word_end(line@, 0),
        at <= line.len(),
{
    let mut i: usize = 0;
    while i < line.len()
        invariant
            i <= line.len(),
            word_end(line@, 0) == word_end(line@, i as int),
        decreases line.len() - i,
    {
        if is_white_space(line[i]) {
            return i;
        }
        i += 1;
    }
    i
}

fn parse_number(raw: &[char], max: u64) -> (n: Option<u64>)
    ensures
        n == number_of(raw@, max),
{
    let text: String = text_of(raw);
    parse_bounded(text.as_str().as_bytes(), max)
}

fn quoted_message(head: &str, value: &[char], tail: &str) -> (message: String)
    ensures
        message@ == head@ + value@ + tail@,
{
    let text: String = text_of(value);
    head.to_owned().concat(text.as_str()).concat(tail)
}

fn parse_u16(raw: &[char]) -> (n: Result<u16, String>)
    ensures
        match n {
            Ok(v) => number_of(raw@, u16::MAX as u64) == Some(v as u64),
            Err(m) => number_of(raw@, u16::MAX as u64) is None && m@ == "invalid port: '"@ + raw@
                + "' is not a u16"@,
        },
{
    match parse_number(raw, 0xffff) {
        Some(n) => Ok(n as u16),
        None => Err(quoted_message("invalid port: '", raw, "' is not a u16")),
    }
}

fn parse_u64(raw: &[char], head: &str) -> (n: Result<u64, String>)
    ensures
        match n {
            Ok(v) => number_of(raw@, u64::MAX) == Some(v),
            Err(m) => number_of(raw@, u64::MAX) is None && m@ == head@ + raw@
                + "' is not a non-negative integer"@,
        },
{
    match parse_number(raw, u64::MAX) {
        Some(n) => Ok(n),
        None => Err(quoted_message(head, raw, "' is not a non-negative integer")),
    }
}

fn parse_usize(raw: &[char], head: &str) -> (n: Result<usize, String>)
    ensures
        match n {
            Ok(v) => number_of(raw@, usize::MAX as u64) == Some(v as u64),
            Err(m) => number_of(raw@, usize::MAX as u64) is None && m@ == head@ + raw@
                + "' is not a non-negative integer"@,
        },
{
    match parse_number(raw, usize::MAX as u64) {
        Some(n) => Ok(n as usize),
        None => Err(quoted_message(head, raw, "' is not a non-negative integer")),
    }
}

fn parse_bool(raw: &[char]) -> (b: Result<bool, String>)
    ensures
        match b {
            Ok(v) => bool_of(raw@) == Some(v),
            Err(m) => bool_of(raw@) is None && m@ == "expected yes/no, got '"@ + lower_of(raw@)
                + "'"@,
        },
{
    let word: String = text_of(to_lower(raw).as_slice());
    let w = word.as_str();
    if same_text(w, "yes") || same_text(w, "true") || same_text(w, "on") || same_text(w, "1") {
        Ok(true)
    } else if same_text(w, "no") || same_text(w, "false") || same_text(w, "off") || same_text(
        w,
        "0",
    ) {
        Ok(false)
    } else {
        Err("expected yes/no, got '".to_owned().concat(w).concat("'"))
    }
}

fn strip_quotes(raw: &[char]) -> (inner: &[char])
    ensures
        inner@ == unquoted(raw@),
{
    let n: usize = raw.len();
    if n >= 2 && ((raw[0] == '"' && raw[n - 1] == '"') || (raw[0] == '\'' && raw[n - 1] == '\'')) {
        vstd::slice::slice_subrange(raw, 1, n - 1)
    } else {
        raw
    }
}

fn has_suffix(s: &[char], tail: &[char]) -> (yes: bool)
    ensures
        yes == ends_with(s@, tail@),
{
    if s.len() < tail.len() {
        return false;
    }
    let from: usize = s.len() - tail.len();
    let mut i: usize = 0;
    while i < tail.len()
        invariant
            i <= tail.len(),
            from + tail.len() == s.len(),
            forall|j: int| 0 <= j < i ==> s@[from + j] == tail@[j],
        decreases tail.len() - i,
    {
        if s[from + i] != tail[i] {
            assert(s@.skip(from as int)[i as int] != tail@[i as int]);
            return false;
        }
        i += 1;
    }
    assert(s@.skip(from as int) =~= tail@);
    true
}

/// Splits a byte size, in lower case, into its number and its factor.
fn split_size(lower: &[char]) -> (r: (&[char], u64))
    ensures
        (r.0@, r.1) == size_parts(lower@),
        r.1 >= 1,
{
    let n: usize = lower.len();
    let gb: [char; 2] = ['g', 'b'];
    let mb: [char; 2] = ['m', 'b'];
    let kb: [char; 2] = ['k', 'b'];
    let g: [char; 1] = ['g'];
    let m: [char; 1] = ['m'];
    let k: [char; 1] = ['k'];
    let b: [char; 1] = ['b'];
    proof {
        assert(gb@ =~= seq!['g', 'b']);
        assert(mb@ =~= seq!['m', 'b']);
        assert(kb@ =~= seq!['k', 'b']);
        assert(g@ =~= seq!['g']);
        assert(m@ =~= seq!['m']);
        assert(k@ =~= seq!['k']);
        assert(b@ =~= seq!['b']);
    }
    let (cut, factor): (usize, u64) = if has_suffix(lower, &gb) {
        (2, 1_073_741_824)
    } else if has_suffix(lower, &mb) {
        (2, 1_048_576)
    } else if has_suffix(lower, &kb) {
        (2, 1_024)
    } else if has_suffix(lower, &g) {
        (1, 1_073_741_824)
    } else if has_suffix(lower, &m) {
        (1, 1_048_576)
    } else if has_suffix(lower, &k) {
        (1, 1_024)
    } else if has_suffix(lower, &b) {
        (1, 1)
    } else {
        (0, 1)
    };
    let digits = vstd::slice::slice_subrange(lower, 0, n - cut);
    assert(digits@ =~= lower@.take(n - cut));
    assert(lower@.take(n as int) =~= lower@);
    (digits, factor)
}

/// Parses a byte size: an integer, or an integer followed by one of `b`, `k`,
/// `kb`, `m`, `mb`, `g`, `gb` in any case, with no space between the number and
/// the suffix.
pub fn parse_bytes(raw: &[char], name: &str) -> (n: Result<u64, String>)
    ensures
        match n {
            Ok(v) => byte_size(raw@) == ByteSize::Bytes(v),
            Err(m) => match byte_size(raw@) {
                ByteSize::Bytes(_) => false,
                ByteSize::NotASize => m@ == "invalid "@ + name@ + ": '"@ + raw@
                    + "' is not a byte size"@,
                ByteSize::TooLarge => m@ == "invalid "@ + name@ + ": '"@ + raw@
                    + "' overflows u64"@,
            },
        },
{
    let lower: Vec<char> = to_lower(trim(raw));
    let (digits, factor): (&[char], u64) = split_size(lower.as_slice());
    let head: String = "invalid ".to_owned().concat(name).concat(": '");
    match parse_number(digits, u64::MAX) {
        Some(n) => match n.checked_mul(factor) {
            Some(bytes) => Ok(bytes),
            None => Err(quoted_message(head.as_str(), raw, "' overflows u64")),
        },
        None => Err(quoted_message(head.as_str(), raw, "' is not a byte size")),
    }
}

proof fn lemma_chosen_policy(p: EvictionPolicy, name: Seq<char>)
    requires
        p.wire_name() == name,
    ensures
        p == choose|q: EvictionPolicy| #[trigger] q.wire_name() == name,
{
    let q = choose|q: EvictionPolicy| #[trigger] q.wire_name() == name;
    crate::storage::eviction::law_policy_name_roundtrip(q, p);
}

/// Applies one directive.
fn apply_directive(cfg: &mut FileConfig, key: &[char], value: &[char]) -> (r: Result<(), String>)
    ensures
        match (r, directive(old(cfg)@, key@, value@)) {
            (Ok(_), Ok(next)) => final(cfg)@ == next,
            (Err(m), Err(message)) => m@ == message && final(cfg)@ == old(cfg)@,
            _ => false,
        },
{
    let name: String = text_of(to_lower(key).as_slice());
    let n = name.as_str();
    if same_text(n, "bind") {
        cfg.bind = Some(text_of(value));
    } else if same_text(n, "port") {
        match parse_u16(value) {
            Ok(v) => {
                cfg.port = Some(v);
            },
            Err(m) => {
                return Err(m);
            },
        }
    } else if same_text(n, "timeout") {
        match parse_u64(value, "invalid timeout: '") {
            Ok(v) => {
                cfg.timeout_secs = Some(v);
            },
            Err(m) => {
                return Err(m);
            },
        }
    } else if same_text(n, "maxclients") {
        match parse_usize(value, "invalid maxclients: '") {
            Ok(v) => {
                cfg.max_clients = Some(v);
            },
            Err(m) => {
                return Err(m);
            },
        }
    } else if same_text(n, "appendonly") {
        match parse_bool(value) {
            Ok(v) => {
                cfg.appendonly = Some(v);
            },
            Err(m) => {
                return Err(m);
            },
        }
    } else if same_text(n, "appendfilename") {
        cfg.appendfilename = Some(text_of(strip_quotes(value)));
    } else if same_text(n, "appendfsync") {
        let text: String = text_of(value);
        match FsyncPolicy::parse(text.as_str()) {
            Ok(p) => {
                cfg.appendfsync = Some(p);
            },
            Err(e) => {
                return Err("invalid appendfsync: ".to_owned().concat(e.to_string().as_str()));
            },
        }
    } else if same_text(n, "loglevel") {
        let level: String = text_of(to_lower(value).as_slice());
        let l = level.as_str();
        if same_text(l, "off") || same_text(l, "error") || same_text(l, "warn") || same_text(
            l,
            "info",
        ) || same_text(l, "debug") || same_text(l, "trace") {
            cfg.loglevel = Some(level);
        } else {
            return Err(
                quoted_message(
                    "invalid loglevel '",
                    value,
                    "' (expected off|error|warn|info|debug|trace)",
                ),
            );
        }
    } else if same_text(n, "maxmemory") {
        match parse_bytes(value, "maxmemory") {
            Ok(v) => {
                cfg.max_memory = Some(v);
            },
            Err(m) => {
                return Err(m);
            },
        }
    } else if same_text(n, "maxmemory-policy") {
        let policy: String = text_of(to_lower(value).as_slice());
        match EvictionPolicy::from_name(policy.as_str()) {
            Some(p) => {
                proof {
                    lemma_chosen_policy(p, lower_of(value@));
                }
                cfg.max_memory_policy = Some(p);
            },
            None => {
                return Err(
                    quoted_message(
                        "invalid maxmemory-policy '",
                        value,
                        "' (expected one of noeviction, allkeys-lru, volatile-lru, allkeys-random, volatile-random, volatile-ttl)",
                    ),
                );
            },
        }
    } else if same_text(n, "maxmemory-samples") {
        match parse_usize(value, "invalid maxmemory-samples: '") {
            Ok(v) => {
                cfg.max_memory_samples = Some(v);
            },
            Err(m) => {
                return Err(m);
            },
        }
    } else {
        return Err("unknown directive '".to_owned().concat(n).concat("'"));
    }
    Ok(())
}

/// Applies one line.
fn apply_line(cfg: &mut FileConfig, raw: &[char]) -> (r: Result<(), String>)
    ensures
        match (r, config_line(old(cfg)@, raw@)) {
            (Ok(_), Ok(next)) => final(cfg)@ == next,
            (Err(m), Err(message)) => m@ == message && final(cfg)@ == old(cfg)@,
            _ => false,
        },
{
    let line = trim(raw);
    if line.len() == 0 || line[0] == '#' {
        return Ok(());
    }
    let at: usize = find_word_end(line);
    let key = vstd::slice::slice_subrange(line, 0, at);
    assert(key@ =~= directive_name(line@));
    let rest = if at < line.len() {
        vstd::slice::slice_subrange(line, at + 1, line.len())
    } else {
        vstd::slice::slice_subrange(line, at, line.len())
    };
    proof {
        if at < line.len() {
            assert(rest@ =~= line@.skip(at as int + 1));
        } else {
            assert(rest@ =~= Seq::<char>::empty());
        }
    }
    let value = trim(rest);
    assert(value@ =~= directive_value(line@));
    if value.len() == 0 {
        return Err(quoted_message("directive '", key, "' requires a value"));
    }
    apply_directive(cfg, key, value)
}

fn parse_err(path: &str, line_no: usize, message: String) -> (e: FileConfigError)
    ensures
        e matches FileConfigError::Parse { path: p, line_no: n, message: m } && p@ == path@ && n
            == line_no && m@ == message@,
{
    FileConfigError::Parse { path: path.to_owned(), line_no, message }
}

impl FileConfig {
    /// Parses the text of a configuration file. `source` names the file in
    /// error messages.
    pub fn parse(text: &str, source: &str) -> (r: Result<FileConfig, FileConfigError>)
        ensures
            match (r, config_from(ConfigView::empty(), text@, 0, 1)) {
                (Ok(cfg), Ok(view)) => cfg@ == view,
                (
                    Err(FileConfigError::Parse { path, line_no, message }),
                    Err((n, m)),
                ) => path@ == source@ && line_no == n && message@ == m,
                _ => false,
            },
    {
        let chars: Vec<char> = chars_of(text);
        let mut cfg: FileConfig = FileConfig::default();
        let mut pos: usize = 0;
        let mut lines_done: usize = 0;
        let ghost whole = config_from(ConfigView::empty(), text@, 0, 1);
        while pos < chars.len()
            invariant
                chars@ == text@,
                pos <= chars.len(),
                lines_done <= pos,
                whole == config_from(ConfigView::empty(), text@, 0, 1),
                whole == config_from(cfg@, text@, pos as int, lines_done as nat + 1),
            decreases chars.len() - pos,
        {
            let end: usize = find_line_end(chars.as_slice(), pos);
            let line = vstd::slice::slice_subrange(chars.as_slice(), pos, end);
            if let Err(message) = apply_line(&mut cfg, line) {
                return Err(parse_err(source, lines_done + 1, message));
            }
            if end == chars.len() {
                return Ok(cfg);
            }
            pos = end + 1;
            lines_done += 1;
        }
        Ok(cfg)
    }
}

/// What a size suffix stands for: nothing and `b` for single bytes, `k` and `kb`
/// for 2^10 of them, `m` and `mb` for 2^20, `g` and `gb` for 2^30, in either case.
pub open spec fn unit_of(suffix: Seq<char>) -> Option<int> {
    let spelt_out = suffix.len() == 2 && (suffix[1] == 'b' || suffix[1] == 'B');
    if suffix.len() == 0 {
        Some(1)
    } else if suffix.len() == 1 && (suffix[0] == 'b' || suffix[0] == 'B') {
        Some(1)
    } else if suffix.len() == 1 || spelt_out {
        if suffix[0] == 'k' || suffix[0] == 'K' {
            Some(1024)
        } else if suffix[0] == 'm' || suffix[0] == 'M' {
            Some(1024int * 1024)
        } else if suffix[0] == 'g' || suffix[0] == 'G' {
            Some(1024int * 1024 * 1024)
        } else {
            None
        }
    } else {
        None
    }
}

pub proof fn lemma_number_text(n: nat)
    ensures
        number_text(n).len() > 0,
        forall|i: int| 0 <= i < number_text(n).len() ==> '0' <= #[trigger] number_text(n)[i] <= '9',
        encode_utf8(number_text(n)) == dec_nat(n),
{
    let text = number_text(n);
    let d = dec_nat(n);
    lemma_dec_nat(n);
    assert forall|i: int| 0 <= i < text.len() implies '0' <= #[trigger] text[i] <= '9' by {
        assert(is_digit(d[i]));
    }
    assert(is_ascii_chars(text));
    is_ascii_chars_encode_utf8(text);
    assert forall|i: int| 0 <= i < d.len() implies encode_utf8(text)[i] == d[i] by {
        assert(is_digit(d[i]));
        assert(text[i] as u8 == encode_utf8(text)[i]);
    }
    assert(encode_utf8(text) =~= d);
}

/// A size is its number times its unit: a suffix means the same in either case and
/// with or without its final `b`. It is refused where the product does not fit.
pub proof fn law_size_is_number_times_unit(n: nat, suffix: Seq<char>)
    requires
        unit_of(suffix) is Some,
        n <= u64::MAX,
    ensures
        byte_size(number_text(n) + suffix) == (if n * unit_of(suffix)->0 <= u64::MAX {
            ByteSize::Bytes((n * unit_of(suffix)->0) as u64)
        } else {
            ByteSize::TooLarge
        }),
{
    let digits = number_text(n);
    let raw = digits + suffix;
    lemma_number_text(n);
    lemma_dec_nat(n);
    assert(text_to_unsigned(dec_nat(n)) == Some(n)) by {
        assert(is_digit(dec_nat(n)[0]));
    }
    assert(!white_space(raw[0])) by {
        assert(raw[0] == digits[0]);
    }
    assert(!white_space(raw.last())) by {
        if suffix.len() == 0 {
            assert(raw.last() == digits[digits.len() - 1]);
        } else {
            assert(raw.last() == suffix.last());
        }
    }
    assert(trim_of(raw) == raw);
    let lower = lower_of(raw);
    assert forall|i: int| 0 <= i < digits.len() implies lower[i] == digits[i] by {
        assert(raw[i] == digits[i]);
    }
    assert(lower.len() == raw.len());
    let cut = lower.len() - suffix.len();
    assert(lower.take(cut) =~= digits);
    let tail = lower.skip(lower.len() - 1);
    assert(tail.len() == 1 && tail[0] == lower.last());
    if suffix.len() == 0 {
        assert('0' <= lower.last() <= '9');
        assert(lower =~= digits);
    }
    lemma_ends_in_two(lower, 'g', 'b');
    lemma_ends_in_two(lower, 'm', 'b');
    lemma_ends_in_two(lower, 'k', 'b');
    lemma_ends_in(lower, 'g');
    lemma_ends_in(lower, 'm');
    lemma_ends_in(lower, 'k');
    lemma_ends_in(lower, 'b');
    assert(size_parts(lower).0 =~= digits && size_parts(lower).1 == unit_of(suffix)->0);
}

/// What the last letter of a text is.
proof fn lemma_ends_in(s: Seq<char>, c: char)
    requires
        s.len() >= 1,
    ensures
        ends_with(s, seq![c]) <==> s.last() == c,
{
    let tail = s.skip(s.len() - 1);
    assert(tail[0] == s.last());
    if s.last() == c {
        assert(tail =~= seq![c]);
    } else {
        assert(seq![c][0] == c);
    }
}

/// What the last two letters of a text are.
proof fn lemma_ends_in_two(s: Seq<char>, c: char, d: char)
    ensures
        ends_with(s, seq![c, d]) <==> s.len() >= 2 && s[s.len() - 2] == c && s.last() == d,
{
    if s.len() >= 2 {
        let tail = s.skip(s.len() - 2);
        assert(tail[0] == s[s.len() - 2] && tail[1] == s.last());
        if s[s.len() - 2] == c && s.last() == d {
            assert(tail =~= seq![c, d]);
        } else {
            assert(seq![c, d][0] == c && seq![c, d][1] == d);
        }
    }
}

} // verus!
