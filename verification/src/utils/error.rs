//! The error that the manager's operations hand to their caller.

use vstd::prelude::*;
use vstd::string::*;

verus! {

/// What went wrong, in broad terms.
#[derive(Clone, Copy, Debug, PartialEq, Eq, Structural)]
pub enum EnzoErrorKind {
    FatalError,
    IOError,
    ConfigError,
    GitError,
    ParseError,
    TerminalError,
    PathDoesNotExist,
}

impl EnzoErrorKind {
    /// The words that stand for this kind in a report.
    pub open spec fn label_text(self) -> Seq<char> {
        match self {
            EnzoErrorKind::FatalError => "fatal error"@,
            EnzoErrorKind::IOError => "io error"@,
            EnzoErrorKind::ConfigError => "configuration error"@,
            EnzoErrorKind::GitError => "git error"@,
            EnzoErrorKind::ParseError => "parse error"@,
            EnzoErrorKind::TerminalError => "terminal error"@,
            EnzoErrorKind::PathDoesNotExist => "path error"@,
        }
    }

    /// The words that stand for this kind in a report.
    pub fn label(&self) -> (text: &'static str)
        ensures
            text@ == self.label_text(),
    {
        match self {
            EnzoErrorKind::FatalError => "fatal error",
            EnzoErrorKind::IOError => "io error",
            EnzoErrorKind::ConfigError => "configuration error",
            EnzoErrorKind::GitError => "git error",
            EnzoErrorKind::ParseError => "parse error",
            EnzoErrorKind::TerminalError => "terminal error",
            EnzoErrorKind::PathDoesNotExist => "path error",
        }
    }
}

/// An error: its kind and a message for the operator.
#[derive(Debug)]
pub struct EnzoError {
    kind: EnzoErrorKind,
    msg: String,
}

impl View for EnzoError {
    type V = (EnzoErrorKind, Seq<char>);

    closed spec fn view(&self) -> (EnzoErrorKind, Seq<char>) {
        (self.kind, self.msg@)
    }
}

impl EnzoError {
    /// An error of kind `kind` that says `msg`.
    pub fn new(msg: String, kind: EnzoErrorKind) -> (error: EnzoError)
        ensures
            error@ == (kind, msg@),
    {
        EnzoError { kind, msg }
    }

    /// A failure of the file system or of a child process, as `msg` tells it.
    pub fn io(msg: String) -> (error: EnzoError)
        ensures
            error@ == (EnzoErrorKind::IOError, msg@),
    {
        EnzoError { kind: EnzoErrorKind::IOError, msg }
    }

    /// A text that could not be parsed, as `msg` tells it.
    pub fn parse(msg: String) -> (error: EnzoError)
        ensures
            error@ == (EnzoErrorKind::ParseError, msg@),
    {
        EnzoError { kind: EnzoErrorKind::ParseError, msg }
    }

    /// A failure of the terminal.
    pub fn terminal(msg: String) -> (error: EnzoError)
        ensures
            error@ == (EnzoErrorKind::TerminalError, msg@),
    {
        EnzoError { kind: EnzoErrorKind::TerminalError, msg }
    }

    /// The kind of this error.
    pub fn kind(&self) -> (kind: EnzoErrorKind)
        ensures
            kind == self@.0,
    {
        self.kind
    }

    /// The message of this error.
    pub fn message(&self) -> (msg: &str)
        ensures
            msg@ == self@.1,
    {
        self.msg.as_str()
    }

    /// The report of this error: the kind's label, a colon and a space, the
    /// message.
    pub fn to_string(&self) -> (report: String)
        ensures
            report@ == self@.0.label_text() + ": "@ + self@.1,
    {
        let mut report = String::from_str(self.kind.label());
        report.append(": ");
        report.append(self.msg.as_str());
        report
    }
}

} // verus!
