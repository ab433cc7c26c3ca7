//! The error type shared by the whole crate.

use vstd::prelude::*;
use vstd::string::*;

use crate::text::{number_text, push_number};

verus! {

/// Infrastructure failures, protocol validation, storage limits and
/// persistence failures.
#[derive(Debug, Clone, PartialEq, Eq)]
pub enum FerrumError {
    /// An I/O failure, with its description.
    IoError(String),
    /// A lock was poisoned by a panicking thread.
    LockPoisoned(String),
    /// An internal invariant was violated.
    Internal(String),
    /// Empty or malformed client input.
    ParseError(String),
    /// An unknown command name.
    UnknownCommand(String),
    /// A known command with the wrong number of arguments.
    WrongArity { cmd: &'static str },
    /// A key exceeds the size limit.
    KeyTooLong { len: usize, max: usize },
    /// A value exceeds the size limit.
    ValueTooLarge { len: usize, max: usize },
    /// The memory limit was reached and nothing could be evicted.
    OutOfMemory,
    /// Writing, syncing or replaying the append-only file failed.
    PersistenceError(String),
    /// A log rewrite was asked for while no log is attached.
    AofNotEnabled,
}

/// The mathematical content of a [`FerrumError`].
#[verifier::ext_equal]
pub enum ErrorView {
    IoError(Seq<char>),
    LockPoisoned(Seq<char>),
    Internal(Seq<char>),
    ParseError(Seq<char>),
    UnknownCommand(Seq<char>),
    WrongArity(Seq<char>),
    KeyTooLong { len: usize, max: usize },
    ValueTooLarge { len: usize, max: usize },
    OutOfMemory,
    PersistenceError(Seq<char>),
    AofNotEnabled,
}

impl View for FerrumError {
    type V = ErrorView;

    open spec fn view(&self) -> ErrorView {
        match self {
            FerrumError::IoError(m) => ErrorView::IoError(m@),
            FerrumError::LockPoisoned(m) => ErrorView::LockPoisoned(m@),
            FerrumError::Internal(m) => ErrorView::Internal(m@),
            FerrumError::ParseError(m) => ErrorView::ParseError(m@),
            FerrumError::UnknownCommand(cmd) => ErrorView::UnknownCommand(cmd@),
            FerrumError::WrongArity { cmd } => ErrorView::WrongArity(cmd@),
            FerrumError::KeyTooLong { len, max } => ErrorView::KeyTooLong { len: *len, max: *max },
            FerrumError::ValueTooLarge { len, max } => ErrorView::ValueTooLarge {
                len: *len,
                max: *max,
            },
            FerrumError::OutOfMemory => ErrorView::OutOfMemory,
            FerrumError::PersistenceError(m) => ErrorView::PersistenceError(m@),
            FerrumError::AofNotEnabled => ErrorView::AofNotEnabled,
        }
    }
}

impl ErrorView {
    /// The text shown for this error.
    pub open spec fn message(self) -> Seq<char> {
        match self {
            ErrorView::IoError(m) => "io error: "@ + m,
            ErrorView::LockPoisoned(m) => "lock poisoned: "@ + m,
            ErrorView::Internal(m) => "internal error: "@ + m,
            ErrorView::ParseError(m) => m,
            ErrorView::UnknownCommand(cmd) => "unknown command: '"@ + cmd + "'"@,
            ErrorView::WrongArity(cmd) => "wrong number of arguments for '"@ + cmd + "' command"@,
            ErrorView::KeyTooLong { len, max } => "key too long ("@ + number_text(len as nat)
                + " bytes, max "@ + number_text(max as nat) + ")"@,
            ErrorView::ValueTooLarge { len, max } => "value too large ("@ + number_text(len as nat)
                + " bytes, max "@ + number_text(max as nat) + ")"@,
            ErrorView::OutOfMemory => "command not allowed when used memory > maxmemory"@,
            ErrorView::PersistenceError(m) => "persistence error: "@ + m,
            ErrorView::AofNotEnabled => "AOF is not enabled"@,
        }
    }
}

impl FerrumError {
    /// Renders the error.
    pub fn to_string(&self) -> (text: String)
        ensures
            text@ == self@.message(),
    {
        match self {
            FerrumError::IoError(m) => "io error: ".to_owned().concat(m.as_str()),
            FerrumError::LockPoisoned(m) => "lock poisoned: ".to_owned().concat(m.as_str()),
            FerrumError::Internal(m) => "internal error: ".to_owned().concat(m.as_str()),
            FerrumError::ParseError(m) => m.clone(),
            FerrumError::UnknownCommand(cmd) => "unknown command: '".to_owned().concat(
                cmd.as_str(),
            ).concat("'"),
            FerrumError::WrongArity { cmd } => "wrong number of arguments for '".to_owned().concat(
                cmd,
            ).concat("' command"),
            FerrumError::KeyTooLong { len, max } => size_message("key too long (", *len, *max),
            FerrumError::ValueTooLarge { len, max } => size_message(
                "value too large (",
                *len,
                *max,
            ),
            FerrumError::OutOfMemory => "command not allowed when used memory > maxmemory".to_owned(),
            FerrumError::PersistenceError(m) => "persistence error: ".to_owned().concat(m.as_str()),
            FerrumError::AofNotEnabled => "AOF is not enabled".to_owned(),
        }
    }
}

fn size_message(prefix: &str, len: usize, max: usize) -> (text: String)
    ensures
        text@ == prefix@ + number_text(len as nat) + " bytes, max "@ + number_text(max as nat)
            + ")"@,
{
    let mut text: String = prefix.to_owned();
    push_number(&mut text, len as u64);
    text.append(" bytes, max ");
    push_number(&mut text, max as u64);
    text.append(")");
    text
}

} // verus!
