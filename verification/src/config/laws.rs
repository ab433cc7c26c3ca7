//! What the lines of a configuration file and the options of the command line set.

use vstd::prelude::*;
use vstd::string::*;

use crate::config::cli::{cli_from, cli_meaning, filter_in_force, log_of, CliView};
use crate::config::file::{
    config_line, directive, law_size_is_number_times_unit, lemma_number_text, unit_of,
    word_end, ConfigView, FileConfigError,
};
use crate::decimal::law_signs_and_zeros;
use crate::persistence::config::FsyncPolicy;
use crate::storage::eviction::{law_policy_name_roundtrip, EvictionPolicy};
use crate::text::{lower_of, number_text, trim_of, white_space};

verus! {

/// Whether a text is there and neither begins nor ends with white space.
pub open spec fn tidy(s: Seq<char>) -> bool {
    s.len() > 0 && !white_space(s[0]) && !white_space(s.last())
}

/// Whether a text has white space nowhere.
pub open spec fn solid(s: Seq<char>) -> bool {
    forall|i: int| 0 <= i < s.len() ==> !white_space(#[trigger] s[i])
}

proof fn lemma_word_end(name: Seq<char>, rest: Seq<char>, pos: int)
    requires
        solid(name),
        0 <= pos <= name.len(),
        rest.len() > 0 ==> white_space(rest[0]),
    ensures
        word_end(name + rest, pos) == name.len(),
    decreases name.len() - pos,
{
    if pos < name.len() {
        assert((name + rest)[pos] == name[pos]);
        lemma_word_end(name, rest, pos + 1);
    } else if rest.len() > 0 {
        assert((name + rest)[pos] == rest[0]);
    }
}

/// A line holds a name, white space and a value; what it sets is what the name means
/// with that value. A name alone is refused.
pub proof fn law_line_is_name_and_value(
    cfg: ConfigView,
    name: Seq<char>,
    gap: char,
    value: Seq<char>,
)
    requires
        solid(name),
        name.len() > 0,
        name[0] != '#',
        white_space(gap),
        tidy(value),
    ensures
        config_line(cfg, name.push(gap) + value) == directive(cfg, name, value),
        config_line(cfg, name) is Err,
{
    let line = name.push(gap) + value;
    let rest = seq![gap] + value;
    assert(line =~= name + rest);
    assert(line[0] == name[0] && !white_space(name[0]));
    assert(line.last() == value.last());
    assert(trim_of(line) == line);
    lemma_word_end(name, rest, 0);
    assert(line.take(name.len() as int) =~= name);
    assert(line.skip(name.len() as int + 1) =~= value);
    assert(trim_of(value) == value);
    assert(!white_space(name.last()));
    assert(trim_of(name) == name);
    lemma_word_end(name, Seq::empty(), 0);
    assert(name + Seq::<char>::empty() =~= name);
}

/// No two directives have the same name.
proof fn lemma_directives_differ()
    ensures
        "bind"@ != "port"@,
        "bind"@ != "timeout"@,
        "bind"@ != "maxclients"@,
        "bind"@ != "appendonly"@,
        "bind"@ != "appendfilename"@,
        "bind"@ != "appendfsync"@,
        "bind"@ != "loglevel"@,
        "bind"@ != "maxmemory"@,
        "bind"@ != "maxmemory-policy"@,
        "bind"@ != "maxmemory-samples"@,
        "port"@ != "timeout"@,
        "port"@ != "maxclients"@,
        "port"@ != "appendonly"@,
        "port"@ != "appendfilename"@,
        "port"@ != "appendfsync"@,
        "port"@ != "loglevel"@,
        "port"@ != "maxmemory"@,
        "port"@ != "maxmemory-policy"@,
        "port"@ != "maxmemory-samples"@,
        "timeout"@ != "maxclients"@,
        "timeout"@ != "appendonly"@,
        "timeout"@ != "appendfilename"@,
        "timeout"@ != "appendfsync"@,
        "timeout"@ != "loglevel"@,
        "timeout"@ != "maxmemory"@,
        "timeout"@ != "maxmemory-policy"@,
        "timeout"@ != "maxmemory-samples"@,
        "maxclients"@ != "appendonly"@,
        "maxclients"@ != "appendfilename"@,
        "maxclients"@ != "appendfsync"@,
        "maxclients"@ != "loglevel"@,
        "maxclients"@ != "maxmemory"@,
        "maxclients"@ != "maxmemory-policy"@,
        "maxclients"@ != "maxmemory-samples"@,
        "appendonly"@ != "appendfilename"@,
        "appendonly"@ != "appendfsync"@,
        "appendonly"@ != "loglevel"@,
        "appendonly"@ != "maxmemory"@,
        "appendonly"@ != "maxmemory-policy"@,
        "appendonly"@ != "maxmemory-samples"@,
        "appendfilename"@ != "appendfsync"@,
        "appendfilename"@ != "loglevel"@,
        "appendfilename"@ != "maxmemory"@,
        "appendfilename"@ != "maxmemory-policy"@,
        "appendfilename"@ != "maxmemory-samples"@,
        "appendfsync"@ != "loglevel"@,
        "appendfsync"@ != "maxmemory"@,
        "appendfsync"@ != "maxmemory-policy"@,
        "appendfsync"@ != "maxmemory-samples"@,
        "loglevel"@ != "maxmemory"@,
        "loglevel"@ != "maxmemory-policy"@,
        "loglevel"@ != "maxmemory-samples"@,
        "maxmemory"@ != "maxmemory-policy"@,
        "maxmemory"@ != "maxmemory-samples"@,
        "maxmemory-policy"@ != "maxmemory-samples"@,
{
    reveal_strlit("bind");
    reveal_strlit("port");
    reveal_strlit("timeout");
    reveal_strlit("maxclients");
    reveal_strlit("appendonly");
    reveal_strlit("appendfilename");
    reveal_strlit("appendfsync");
    reveal_strlit("loglevel");
    reveal_strlit("maxmemory");
    reveal_strlit("maxmemory-policy");
    reveal_strlit("maxmemory-samples");
    assert("bind"@.len() == 4);
    assert("port"@.len() == 4);
    assert("timeout"@.len() == 7);
    assert("maxclients"@.len() == 10);
    assert("appendonly"@.len() == 10);
    assert("appendfilename"@.len() == 14);
    assert("appendfsync"@.len() == 11);
    assert("loglevel"@.len() == 8);
    assert("maxmemory"@.len() == 9);
    assert("maxmemory-policy"@.len() == 16);
    assert("maxmemory-samples"@.len() == 17);
    assert("bind"@[0] != "port"@[0]);
    assert("maxclients"@[0] != "appendonly"@[0]);
}

/// `port`, `timeout`, `maxclients` and `maxmemory-samples` take a number, in decimal and
/// within their range, and set nothing else.
pub proof fn law_number_directives(cfg: ConfigView, key: Seq<char>, n: nat)
    ensures
        lower_of(key) == "port"@ ==> if n <= 65535 {
            directive(cfg, key, number_text(n)) == Ok::<ConfigView, Seq<char>>(
                ConfigView { port: Some(n as u16), ..cfg },
            )
        } else {
            directive(cfg, key, number_text(n)) is Err
        },
        lower_of(key) == "timeout"@ ==> if n <= u64::MAX {
            directive(cfg, key, number_text(n)) == Ok::<ConfigView, Seq<char>>(
                ConfigView { timeout_secs: Some(n as u64), ..cfg },
            )
        } else {
            directive(cfg, key, number_text(n)) is Err
        },
        lower_of(key) == "maxclients"@ ==> if n <= usize::MAX {
            directive(cfg, key, number_text(n)) == Ok::<ConfigView, Seq<char>>(
                ConfigView { max_clients: Some(n as usize), ..cfg },
            )
        } else {
            directive(cfg, key, number_text(n)) is Err
        },
        lower_of(key) == "maxmemory-samples"@ ==> if n <= usize::MAX {
            directive(cfg, key, number_text(n)) == Ok::<ConfigView, Seq<char>>(
                ConfigView { max_memory_samples: Some(n as usize), ..cfg },
            )
        } else {
            directive(cfg, key, number_text(n)) is Err
        },
{
    lemma_directives_differ();
    lemma_number_text(n);
    law_signs_and_zeros(n);
}

/// `bind` takes its value as it is, and `appendfilename` without the quotes around it.
pub proof fn law_text_directives(cfg: ConfigView, key: Seq<char>, value: Seq<char>)
    requires
        value.len() > 0,
        value[0] != '"' && value[0] != '\'',
    ensures
        lower_of(key) == "bind"@ ==> directive(cfg, key, value) == Ok::<ConfigView, Seq<char>>(
            ConfigView { bind: Some(value), ..cfg },
        ),
        lower_of(key) == "appendfilename"@ ==> directive(cfg, key, value) == Ok::<
            ConfigView,
            Seq<char>,
        >(ConfigView { appendfilename: Some(value), ..cfg }),
        lower_of(key) == "appendfilename"@ ==> directive(cfg, key, seq!['"'] + value + seq!['"'])
            == Ok::<ConfigView, Seq<char>>(ConfigView { appendfilename: Some(value), ..cfg }),
        lower_of(key) == "appendfilename"@ ==> directive(
            cfg,
            key,
            seq!['\''] + value + seq!['\''],
        ) == Ok::<ConfigView, Seq<char>>(ConfigView { appendfilename: Some(value), ..cfg }),
{
    lemma_directives_differ();
    let double = seq!['"'] + value + seq!['"'];
    let single = seq!['\''] + value + seq!['\''];
    assert(double.subrange(1, double.len() - 1) =~= value);
    assert(single.subrange(1, single.len() - 1) =~= value);
}

/// Whether a text is this word, in any case of its ASCII letters.
pub open spec fn reads(value: Seq<char>, word: Seq<char>) -> bool {
    lower_of(value) == word
}

proof fn lemma_flags_differ()
    ensures
        "no"@ != "yes"@,
        "no"@ != "true"@,
        "no"@ != "on"@,
        "no"@ != "1"@,
        "false"@ != "yes"@,
        "false"@ != "true"@,
        "false"@ != "on"@,
        "false"@ != "1"@,
        "off"@ != "yes"@,
        "off"@ != "true"@,
        "off"@ != "on"@,
        "off"@ != "1"@,
        "0"@ != "yes"@,
        "0"@ != "true"@,
        "0"@ != "on"@,
        "0"@ != "1"@,
{
    reveal_strlit("yes");
    reveal_strlit("true");
    reveal_strlit("on");
    reveal_strlit("1");
    reveal_strlit("no");
    reveal_strlit("false");
    reveal_strlit("off");
    reveal_strlit("0");
    assert("yes"@.len() == 3);
    assert("true"@.len() == 4);
    assert("on"@.len() == 2);
    assert("1"@.len() == 1);
    assert("no"@.len() == 2);
    assert("false"@.len() == 5);
    assert("off"@.len() == 3);
    assert("0"@.len() == 1);
    assert("no"@[0] != "on"@[0]);
    assert("off"@[0] != "yes"@[0]);
    assert("0"@[0] != "1"@[0]);
}

/// `appendonly` is switched on by `yes`, `true`, `on` and `1`, off by `no`, `false`, `off`
/// and `0`, and takes no other word.
pub proof fn law_flag_directive(cfg: ConfigView, key: Seq<char>, value: Seq<char>)
    requires
        lower_of(key) == "appendonly"@,
    ensures
        ({
            let on = reads(value, "yes"@) || reads(value, "true"@) || reads(value, "on"@) || reads(value, "1"@);
            let off = reads(value, "no"@) || reads(value, "false"@) || reads(value, "off"@) || reads(value, "0"@);
            &&& on ==> directive(cfg, key, value) == Ok::<ConfigView, Seq<char>>(
                ConfigView { appendonly: Some(true), ..cfg },
            )
            &&& off ==> directive(cfg, key, value) == Ok::<ConfigView, Seq<char>>(
                ConfigView { appendonly: Some(false), ..cfg },
            )
            &&& !on && !off ==> directive(cfg, key, value) is Err
        }),
{
    lemma_directives_differ();
    lemma_flags_differ();
}

/// `appendfsync` takes `always`, `everysec` and `no`, with white space around them or not.
pub proof fn law_fsync_directive(cfg: ConfigView, key: Seq<char>, value: Seq<char>)
    requires
        lower_of(key) == "appendfsync"@,
    ensures
        ({
            let word = trim_of(value);
            let always = reads(word, "always"@);
            let every_second = reads(word, "everysec"@);
            let never = reads(word, "no"@);
            &&& always ==> directive(cfg, key, value) == Ok::<ConfigView, Seq<char>>(
                ConfigView { appendfsync: Some(FsyncPolicy::Always), ..cfg },
            )
            &&& every_second ==> directive(cfg, key, value) == Ok::<ConfigView, Seq<char>>(
                ConfigView { appendfsync: Some(FsyncPolicy::EverySec), ..cfg },
            )
            &&& never ==> directive(cfg, key, value) == Ok::<ConfigView, Seq<char>>(
                ConfigView { appendfsync: Some(FsyncPolicy::No), ..cfg },
            )
            &&& !always && !every_second && !never ==> directive(cfg, key, value) is Err
        }),
{
    lemma_directives_differ();
    reveal_strlit("always");
    reveal_strlit("everysec");
    reveal_strlit("no");
}

/// `loglevel` takes the six levels, in any case, and keeps them in lower case.
pub proof fn law_loglevel_directive(cfg: ConfigView, key: Seq<char>, value: Seq<char>)
    requires
        lower_of(key) == "loglevel"@,
    ensures
        ({
            let known = reads(value, "off"@) || reads(value, "error"@) || reads(value, "warn"@) || reads(value, "info"@) || reads(value, "debug"@) || reads(value, "trace"@);
            &&& known ==> directive(cfg, key, value) == Ok::<ConfigView, Seq<char>>(
                ConfigView { loglevel: Some(lower_of(value)), ..cfg },
            )
            &&& !known ==> directive(cfg, key, value) is Err
        }),
{
    lemma_directives_differ();
}

/// `maxmemory` takes a number and a unit, and sets the limit to their product.
pub proof fn law_memory_directive(cfg: ConfigView, key: Seq<char>, n: nat, suffix: Seq<char>)
    requires
        lower_of(key) == "maxmemory"@,
        unit_of(suffix) is Some,
        n <= u64::MAX,
    ensures
        ({
            let bytes = n * unit_of(suffix)->0;
            let r = directive(cfg, key, number_text(n) + suffix);
            &&& bytes <= u64::MAX ==> r == Ok::<ConfigView, Seq<char>>(
                ConfigView { max_memory: Some(bytes as u64), ..cfg },
            )
            &&& bytes > u64::MAX ==> r is Err
        }),
{
    lemma_directives_differ();
    law_size_is_number_times_unit(n, suffix);
}

/// `maxmemory-policy` takes the name of a policy, in any case, and no other word.
pub proof fn law_policy_directive(
    cfg: ConfigView,
    key: Seq<char>,
    value: Seq<char>,
    p: EvictionPolicy,
)
    requires
        lower_of(key) == "maxmemory-policy"@,
    ensures
        reads(value, p.wire_name()) ==> directive(cfg, key, value) == Ok::<ConfigView, Seq<char>>(
            ConfigView { max_memory_policy: Some(p), ..cfg },
        ),
        (forall|q: EvictionPolicy| !reads(value, #[trigger] q.wire_name())) ==> directive(
            cfg,
            key,
            value,
        ) is Err,
{
    lemma_directives_differ();
    if reads(value, p.wire_name()) {
        let found = choose|q: EvictionPolicy| #[trigger] q.wire_name() == lower_of(value);
        law_policy_name_roundtrip(p, found);
    }
}

proof fn lemma_options_differ()
    ensures
        "--addr"@ != "--aof-path"@,
        "--addr"@ != "--appendfsync"@,
        "--addr"@ != "-h"@,
        "--addr"@ != "--help"@,
        "--aof-path"@ != "--appendfsync"@,
        "--aof-path"@ != "-h"@,
        "--aof-path"@ != "--help"@,
        "--appendfsync"@ != "-h"@,
        "--appendfsync"@ != "--help"@,
        "-h"@ != "--help"@,
{
    reveal_strlit("--addr");
    reveal_strlit("--aof-path");
    reveal_strlit("--appendfsync");
    reveal_strlit("-h");
    reveal_strlit("--help");
    assert("--addr"@.len() == 6);
    assert("--aof-path"@.len() == 10);
    assert("--appendfsync"@.len() == 13);
    assert("-h"@.len() == 2);
    assert("--help"@.len() == 6);
    assert("--addr"@[2] != "--help"@[2]);
}

/// Without options the server listens on the local address and keeps no log. `--addr`
/// and `--aof-path` take the argument behind them, in either order, and are refused
/// without one; so is a word that is no option. `-h` and `--help` ask for help.
pub proof fn law_options(a: Seq<char>, path: Seq<char>)
    ensures
        cli_meaning(Seq::empty()) == Ok::<Option<CliView>, Seq<char>>(
            Some(CliView { addr: "127.0.0.1:6380"@, aof_path: None, appendfsync: None }),
        ),
        cli_meaning(seq!["--addr"@, a, "--aof-path"@, path]) == Ok::<Option<CliView>, Seq<char>>(
            Some(CliView { addr: a, aof_path: Some(path), appendfsync: None }),
        ),
        cli_meaning(seq!["--aof-path"@, path, "--addr"@, a]) == Ok::<Option<CliView>, Seq<char>>(
            Some(CliView { addr: a, aof_path: Some(path), appendfsync: None }),
        ),
        cli_meaning(seq!["--addr"@]) is Err,
        cli_meaning(seq!["--aof-path"@]) is Err,
        cli_meaning(seq!["--appendfsync"@]) is Err,
        cli_meaning(seq!["-h"@, a]) == Ok::<Option<CliView>, Seq<char>>(None),
        cli_meaning(seq!["--help"@, a]) == Ok::<Option<CliView>, Seq<char>>(None),
        a != "--addr"@ && a != "--aof-path"@ && a != "--appendfsync"@ && a != "-h"@ && a != "--help"@ ==> cli_meaning(seq![a, path]) is Err,
{
    lemma_options_differ();
    reveal_with_fuel(cli_from, 4);
}

/// `--appendfsync` takes the name of a policy, and only together with `--aof-path`.
pub proof fn law_fsync_option(path: Seq<char>, name: Seq<char>, p: FsyncPolicy)
    requires
        reads(trim_of(name), "always"@) ==> p == FsyncPolicy::Always,
        reads(trim_of(name), "everysec"@) ==> p == FsyncPolicy::EverySec,
        reads(trim_of(name), "no"@) ==> p == FsyncPolicy::No,
    ensures
        ({
            let known = reads(trim_of(name), "always"@) || reads(trim_of(name), "everysec"@)
                || reads(trim_of(name), "no"@);
            let both = cli_meaning(seq!["--aof-path"@, path, "--appendfsync"@, name]);
            &&& known ==> both == Ok::<Option<CliView>, Seq<char>>(
                Some(
                    CliView {
                        addr: "127.0.0.1:6380"@,
                        aof_path: Some(path),
                        appendfsync: Some(p),
                    },
                ),
            )
            &&& !known ==> both is Err
            &&& cli_meaning(seq!["--appendfsync"@, name]) is Err
        }),
{
    lemma_options_differ();
    reveal_with_fuel(cli_from, 4);
    reveal_strlit("always");
    reveal_strlit("everysec");
    reveal_strlit("no");
}

/// The log is kept at the path that was given and synced as was asked, once a second where
/// nothing was; without a path there is none.
pub proof fn law_log_options(a: Seq<char>, path: Seq<char>, p: FsyncPolicy)
    ensures
        log_of(CliView { addr: a, aof_path: Some(path), appendfsync: Some(p) }) == Some((path, p)),
        log_of(CliView { addr: a, aof_path: Some(path), appendfsync: None }) == Some(
            (path, FsyncPolicy::EverySec),
        ),
        log_of(CliView { addr: a, aof_path: None, appendfsync: None }) is None,
{
}

/// The project's own variable decides what is logged, then the general one, then the
/// configured level; with none of them it is `info`.
pub proof fn law_filter_order(
    project: String,
    general: Option<String>,
    variable: String,
    configured: Option<String>,
    level: String,
)
    ensures
        filter_in_force(Some(project), general, configured) == project@,
        filter_in_force(None, Some(variable), configured) == variable@,
        filter_in_force(None, None, Some(level)) == level@,
        filter_in_force(None, None, None) == "info"@,
{
}

/// An error of a configuration file names the file, and the line where there is one.
pub proof fn law_config_error_text(path: String, line_no: usize, text: String)
    ensures
        (FileConfigError::Parse { path, line_no, message: text }).message() == "config '"@ + path@
            + "' line "@ + number_text(line_no as nat) + ": "@ + text@,
        (FileConfigError::Io(text, path)).message() == "failed to read config '"@ + path@ + "': "@
            + text@,
{
}

} // verus!
