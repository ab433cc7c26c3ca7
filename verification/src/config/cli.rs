//! Command-line arguments of the server.

use vstd::prelude::*;
use vstd::string::*;

use crate::config::file::opt_text;
use crate::persistence::config::{AofConfig, FsyncPolicy};
use crate::text::{lower_of, same_text, trim_of};

verus! {

/// The address that the server listens on unless told otherwise.
pub const DEFAULT_ADDR: &'static str = "127.0.0.1:6380";

/// How the server is called.
pub const USAGE: &'static str = "usage: ferrum-kv [--addr HOST:PORT] [--aof-path PATH] [--appendfsync always|everysec|no]";

/// What a command line asks for.
#[derive(Debug)]
pub enum Invocation {
    Run(CliArgs),
    Help,
}

/// The parsed arguments.
#[derive(Debug)]
pub struct CliArgs {
    pub addr: String,
    pub aof_path: Option<String>,
    pub appendfsync: Option<FsyncPolicy>,
}

/// The mathematical content of [`CliArgs`].
#[verifier::ext_equal]
pub struct CliView {
    pub addr: Seq<char>,
    pub aof_path: Option<Seq<char>>,
    pub appendfsync: Option<FsyncPolicy>,
}

impl View for CliArgs {
    type V = CliView;

    open spec fn view(&self) -> CliView {
        CliView {
            addr: self.addr@,
            aof_path: opt_text(self.aof_path),
            appendfsync: self.appendfsync,
        }
    }
}

/// What a command line means: arguments, a request for help (`None`), or the
/// message of an error.
pub type CliMeaning = Result<Option<CliView>, Seq<char>>;

/// The arguments from index `i` on, read on top of `c`.
pub open spec fn cli_from(c: CliView, args: Seq<Seq<char>>, i: int) -> CliMeaning
    decreases args.len() - i,
{
    if i < 0 || i >= args.len() {
        if c.appendfsync is Some && c.aof_path is None {
            Err("--appendfsync requires --aof-path to enable AOF"@)
        } else {
            Ok(Some(c))
        }
    } else if args[i] == "--addr"@ {
        if i + 1 < args.len() {
            cli_from(CliView { addr: args[i + 1], ..c }, args, i + 2)
        } else {
            Err("--addr requires a value"@)
        }
    } else if args[i] == "--aof-path"@ {
        if i + 1 < args.len() {
            cli_from(CliView { aof_path: Some(args[i + 1]), ..c }, args, i + 2)
        } else {
            Err("--aof-path requires a value"@)
        }
    } else if args[i] == "--appendfsync"@ {
        if i + 1 < args.len() {
            match FsyncPolicy::of_text(args[i + 1]) {
                Some(p) => cli_from(CliView { appendfsync: Some(p), ..c }, args, i + 2),
                None => Err(
                    "invalid --appendfsync: "@ + ("invalid appendfsync value '"@ + lower_of(
                        trim_of(args[i + 1]),
                    ) + "', expected one of always|everysec|no"@),
                ),
            }
        } else {
            Err("--appendfsync requires a value"@)
        }
    } else if args[i] == "-h"@ || args[i] == "--help"@ {
        Ok(None)
    } else {
        Err("unrecognised argument: '"@ + args[i] + "'"@)
    }
}

/// What a command line means.
pub open spec fn cli_meaning(args: Seq<Seq<char>>) -> CliMeaning {
    cli_from(
        CliView { addr: "127.0.0.1:6380"@, aof_path: None, appendfsync: None },
        args,
        0,
    )
}

/// The texts of several strings.
pub open spec fn texts(args: Seq<String>) -> Seq<Seq<char>> {
    args.map_values(|a: String| a@)
}

impl CliArgs {
    /// Parses the arguments, without the program's name.
    pub fn parse(args: Vec<String>) -> (r: Result<Invocation, String>)
        ensures
            match (r, cli_meaning(texts(args@))) {
                (Ok(Invocation::Run(c)), Ok(Some(view))) => c@ == view,
                (Ok(Invocation::Help), Ok(None)) => true,
                (Err(m), Err(message)) => m@ == message,
                _ => false,
            },
    {
        let ghost all = texts(args@);
        let ghost meaning = cli_meaning(all);
        let mut c = CliArgs {
            addr: "127.0.0.1:6380".to_owned(),
            aof_path: None,
            appendfsync: None,
        };
        let mut i: usize = 0;
        while i < args.len()
            invariant
                i <= args.len(),
                all == texts(args@),
                meaning == cli_meaning(all),
                meaning == cli_from(c@, all, i as int),
            decreases args.len() - i,
        {
            let arg = args[i].as_str();
            assert(all[i as int] == arg@);
            assert(i + 1 < args.len() ==> all[i + 1] == args@[i + 1]@);
            if same_text(arg, "--addr") {
                if i + 1 >= args.len() {
                    return Err("--addr requires a value".to_owned());
                }
                c.addr = args[i + 1].clone();
                i += 2;
            } else if same_text(arg, "--aof-path") {
                if i + 1 >= args.len() {
                    return Err("--aof-path requires a value".to_owned());
                }
                c.aof_path = Some(args[i + 1].clone());
                i += 2;
            } else if same_text(arg, "--appendfsync") {
                if i + 1 >= args.len() {
                    return Err("--appendfsync requires a value".to_owned());
                }
                match FsyncPolicy::parse(args[i + 1].as_str()) {
                    Ok(p) => {
                        c.appendfsync = Some(p);
                    },
                    Err(e) => {
                        return Err(
                            "invalid --appendfsync: ".to_owned().concat(e.to_string().as_str()),
                        );
                    },
                }
                i += 2;
            } else if same_text(arg, "-h") || same_text(arg, "--help") {
                return Ok(Invocation::Help);
            } else {
                return Err("unrecognised argument: '".to_owned().concat(arg).concat("'"));
            }
        }
        if c.appendfsync.is_some() && c.aof_path.is_none() {
            return Err("--appendfsync requires --aof-path to enable AOF".to_owned());
        }
        Ok(Invocation::Run(c))
    }

    /// The configuration of the log, if persistence was asked for.
    pub fn aof_config(&self) -> (cfg: Option<AofConfig>)
        ensures
            log_of(self@) == (match cfg {
                Some(a) => Some((a.path@, a.fsync)),
                None => None,
            }),
            match cfg {
                Some(a) => self@.aof_path == Some(a.path@) && a.fsync == (match self.appendfsync {
                    Some(p) => p,
                    None => FsyncPolicy::EverySec,
                }),
                None => self@.aof_path is None,
            },
    {
        match &self.aof_path {
            Some(path) => Some(
                AofConfig::new(
                    path.clone(),
                    match self.appendfsync {
                        Some(p) => p,
                        None => FsyncPolicy::default(),
                    },
                ),
            ),
            None => None,
        }
    }
}

/// The path of the log and when it is synced, if there is to be one.
pub open spec fn log_of(c: CliView) -> Option<(Seq<char>, FsyncPolicy)> {
    match c.aof_path {
        Some(path) => Some(
            (
                path,
                match c.appendfsync {
                    Some(p) => p,
                    None => FsyncPolicy::EverySec,
                },
            ),
        ),
        None => None,
    }
}

/// The log filter in force: the project's own environment variable wins over
/// the general one, that over the configured level, and the default is `info`.
pub open spec fn filter_in_force(
    project: Option<String>,
    general: Option<String>,
    configured: Option<String>,
) -> Seq<char> {
    match (project, general, configured) {
        (Some(p), _, _) => p@,
        (None, Some(g), _) => g@,
        (None, None, Some(c)) => c@,
        (None, None, None) => "info"@,
    }
}

/// Chooses the log filter.
pub fn log_filter(
    project: Option<String>,
    general: Option<String>,
    configured: Option<String>,
) -> (filter: String)
    ensures
        filter@ == filter_in_force(project, general, configured),
{
    match (project, general, configured) {
        (Some(p), _, _) => p,
        (None, Some(g), _) => g,
        (None, None, Some(c)) => c,
        (None, None, None) => "info".to_owned(),
    }
}

} // verus!
