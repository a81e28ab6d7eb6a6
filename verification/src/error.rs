use vstd::prelude::*;
use vstd::string::StringExecFns;

verus! {

/// What went wrong, as far as a caller needs to tell failures apart.
#[derive(Debug, Clone, Copy, PartialEq, Eq, Structural)]
pub enum ErrorKind {
    /// A command-line value was missing or malformed.
    Argument,
    /// The input path lacks a parent directory, a stem or an extension.
    Path,
    /// The file system refused an operation.
    Io,
    /// A value was well-formed but outside the range the splitter accepts.
    Validation,
}

/// A failure with its kind and a message for the user.
#[derive(Debug)]
pub struct Error {
    pub kind: ErrorKind,
    pub msg: String,
}

/// The text that precedes every message shown to the user.
pub open spec fn error_prefix() -> Seq<char> {
    seq!['e', 'r', 'r', 'o', 'r', ':', ' ']
}

/// The process exit status that belongs to a kind of failure.
pub open spec fn exit_code_of(kind: ErrorKind) -> i32 {
    match kind {
        ErrorKind::Argument | ErrorKind::Validation => 65,
        ErrorKind::Path | ErrorKind::Io => 1,
    }
}

impl Error {
    /// A run-time failure with the given message.
    pub fn new(msg: &str) -> (e: Self)
        ensures
            e.kind == ErrorKind::Io,
            e.msg@ == msg@,
    {
        Error { kind: ErrorKind::Io, msg: String::from_str(msg) }
    }

    /// A failure of the given kind with the given message.
    pub fn with_kind(kind: ErrorKind, msg: &str) -> (e: Self)
        ensures
            e.kind == kind,
            e.msg@ == msg@,
    {
        Error { kind, msg: String::from_str(msg) }
    }

    /// The single line shown to the user: the prefix, then the message.
    pub fn render(&self) -> (line: String)
        ensures
            line@ == error_prefix() + self.msg@,
    {
        proof {
            reveal_strlit("error: ");
            assert("error: "@ =~= error_prefix());
        }
        let mut line = String::from_str("error: ");
        line.append(self.msg.as_str());
        line
    }

    /// The exit status for this failure: 65 for a bad argument value, 1 for
    /// everything that goes wrong while running.
    pub fn exit_code(&self) -> (code: i32)
        ensures
            code == exit_code_of(self.kind),
            code != 0,
    {
        match self.kind {
            ErrorKind::Argument | ErrorKind::Validation => 65,
            ErrorKind::Path | ErrorKind::Io => 1,
        }
    }
}

} // verus!
