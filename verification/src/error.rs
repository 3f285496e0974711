//! What can go wrong, and how far it reaches.
//!
//! A `ConfigError` or a `CompileError` ends a run before any file is scanned.
//! A `ScanError` concerns one file: that file is left out and the run goes on.

use vstd::prelude::*;
use vstd::string::StringExecFns;

verus! {

/// Why a run cannot start.
#[derive(Clone, Copy, Debug, PartialEq, Eq, Structural)]
pub enum ConfigError {
    /// Whole words cannot be matched with unicode support switched on.
    UnicodeWholeWords,
    /// No pattern was given.
    MissingPattern,
    /// The pattern is not ASCII and unicode support is switched off.
    NonAsciiPattern,
    /// No root path was given and standard input holds no data.
    MissingRoot,
}

/// Why a pattern was not compiled.
#[derive(Debug)]
pub enum CompileError {
    /// A literal pattern of length 0.
    Empty,
    /// The automaton builder refused the expression; its message.
    Rejected(String),
}

/// The automaton stopped before the scan of a text was through.
#[derive(Clone, Copy, Debug, PartialEq, Eq, Structural)]
pub struct ScanError {
    /// The end of the window in which the automaton gave up.
    pub window_end: usize,
}

impl ConfigError {
    /// What to tell the user.
    pub open spec fn spec_message(self) -> Seq<char> {
        match self {
            ConfigError::UnicodeWholeWords => {
                "you can not match whole words with unicode support enabled"@
            },
            ConfigError::MissingPattern => "no pattern was given"@,
            ConfigError::NonAsciiPattern => {
                "if you want to match over unicode, enable unicode support with `-u` flag"@
            },
            ConfigError::MissingRoot => "no directory was given and standard input holds no data"@,
        }
    }

    /// What to tell the user.
    pub fn message(&self) -> (text: &'static str)
        ensures
            text@ == self.spec_message(),
    {
        match self {
            ConfigError::UnicodeWholeWords => {
                "you can not match whole words with unicode support enabled"
            },
            ConfigError::MissingPattern => "no pattern was given",
            ConfigError::NonAsciiPattern => {
                "if you want to match over unicode, enable unicode support with `-u` flag"
            },
            ConfigError::MissingRoot => "no directory was given and standard input holds no data",
        }
    }
}

impl CompileError {
    /// What to tell the user.
    pub open spec fn spec_message(self) -> Seq<char> {
        match self {
            CompileError::Empty => "the pattern is empty"@,
            CompileError::Rejected(reason) => reason@,
        }
    }

    /// What to tell the user.
    pub fn message(&self) -> (text: String)
        ensures
            text@ == self.spec_message(),
    {
        match self {
            CompileError::Empty => String::from_str("the pattern is empty"),
            CompileError::Rejected(reason) => reason.clone(),
        }
    }
}

} // verus!
