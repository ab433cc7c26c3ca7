//! Configuration of the append-only file.

use vstd::prelude::*;
use vstd::string::*;

use crate::text::{chars_of, lower_of, same_text, text_of, to_lower, trim, trim_of};

verus! {

/// How often log writes are flushed to disk.
#[derive(Debug, Clone, Copy, PartialEq, Eq, Structural)]
pub enum FsyncPolicy {
    /// After every write.
    Always,
    /// Once per second, in the background. The default.
    EverySec,
    /// Never explicitly; the operating system decides.
    No,
}

impl Default for FsyncPolicy {
    fn default() -> (policy: FsyncPolicy)
        ensures
            policy == FsyncPolicy::EverySec,
    {
        FsyncPolicy::EverySec
    }
}

impl FsyncPolicy {
    /// The policy that a text denotes: its name, in any ASCII case, with white
    /// space around it.
    pub open spec fn of_text(input: Seq<char>) -> Option<FsyncPolicy> {
        let name = lower_of(trim_of(input));
        if name == "always"@ {
            Some(FsyncPolicy::Always)
        } else if name == "everysec"@ {
            Some(FsyncPolicy::EverySec)
        } else if name == "no"@ {
            Some(FsyncPolicy::No)
        } else {
            None
        }
    }

    /// Parses a policy name.
    pub fn parse(input: &str) -> (policy: Result<FsyncPolicy, ParseFsyncPolicyError>)
        ensures
            match policy {
                Ok(p) => FsyncPolicy::of_text(input@) == Some(p),
                Err(e) => FsyncPolicy::of_text(input@) is None && e.0@ == lower_of(trim_of(input@)),
            },
    {
        let chars: Vec<char> = chars_of(input);
        let name: String = text_of(to_lower(trim(chars.as_slice())).as_slice());
        if same_text(name.as_str(), "always") {
            Ok(FsyncPolicy::Always)
        } else if same_text(name.as_str(), "everysec") {
            Ok(FsyncPolicy::EverySec)
        } else if same_text(name.as_str(), "no") {
            Ok(FsyncPolicy::No)
        } else {
            Err(ParseFsyncPolicyError(name))
        }
    }
}

/// The rejected text, trimmed and in lower case.
#[derive(Debug, PartialEq, Eq)]
pub struct ParseFsyncPolicyError(pub String);

impl ParseFsyncPolicyError {
    /// The text shown for this error.
    pub open spec fn message(&self) -> Seq<char> {
        "invalid appendfsync value '"@ + self.0@ + "', expected one of always|everysec|no"@
    }

    /// Renders the error.
    pub fn to_string(&self) -> (text: String)
        ensures
            text@ == self.message(),
    {
        "invalid appendfsync value '".to_owned().concat(self.0.as_str()).concat(
            "', expected one of always|everysec|no",
        )
    }
}

/// Where the log lives and how it is synced.
#[derive(Debug, Clone)]
pub struct AofConfig {
    /// Path of the log file.
    pub path: String,
    /// When the log is synced.
    pub fsync: FsyncPolicy,
}

impl AofConfig {
    /// A configuration with the given path and policy.
    pub fn new(path: String, fsync: FsyncPolicy) -> (cfg: AofConfig)
        ensures
            cfg.path@ == path@,
            cfg.fsync == fsync,
    {
        AofConfig { path, fsync }
    }

    /// Path of the log file.
    pub fn path(&self) -> (path: &str)
        ensures
            path@ == self.path@,
    {
        self.path.as_str()
    }
}

impl Default for AofConfig {
    fn default() -> (cfg: AofConfig)
        ensures
            cfg.path@ == "ferrum.aof"@,
            cfg.fsync == FsyncPolicy::EverySec,
    {
        AofConfig { path: "ferrum.aof".to_owned(), fsync: FsyncPolicy::EverySec }
    }
}

} // verus!
