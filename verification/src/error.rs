//! The library's error type and its human-readable messages.

use vstd::prelude::*;

verus! {

/// What went wrong at the operating-system level when a file could not be
/// read or written: the kinds of I/O error that the standard library names,
/// one variant each, and `Other` for its own `Other` and for any kind it may
/// add later.
#[derive(Clone, Copy, Debug, PartialEq, Eq, Structural)]
pub enum IoErrorKind {
    NotFound,
    PermissionDenied,
    ConnectionRefused,
    ConnectionReset,
    HostUnreachable,
    NetworkUnreachable,
    ConnectionAborted,
    NotConnected,
    AddrInUse,
    AddrNotAvailable,
    NetworkDown,
    BrokenPipe,
    AlreadyExists,
    WouldBlock,
    NotADirectory,
    IsADirectory,
    DirectoryNotEmpty,
    ReadOnlyFilesystem,
    StaleNetworkFileHandle,
    InvalidInput,
    InvalidData,
    TimedOut,
    WriteZero,
    StorageFull,
    NotSeekable,
    FileTooLarge,
    ResourceBusy,
    ExecutableFileBusy,
    Deadlock,
    CrossesDevices,
    TooManyLinks,
    InvalidFilename,
    ArgumentListTooLong,
    Interrupted,
    Unsupported,
    UnexpectedEof,
    OutOfMemory,
    Other,
}

#[derive(Debug)]
pub enum KoseiError {
    ConfigNotFound(String),
    ConfigReadError(String),
    ConfigParseError(String),
    EnvironmentNotFound(String),
    FileReadError(String, IoErrorKind),
    FileWriteError(String, IoErrorKind),
    RegexParseError(String),
    RegexApplyError(String),
}

/// The explanation added to a read failure of the given kind.
pub open spec fn read_context(kind: IoErrorKind) -> Seq<char> {
    match kind {
        IoErrorKind::NotFound => "file does not exist"@,
        IoErrorKind::PermissionDenied => "permission denied reading"@,
        _ => "cannot read file"@,
    }
}

/// The explanation added to a write failure of the given kind.
pub open spec fn write_context(kind: IoErrorKind) -> Seq<char> {
    match kind {
        IoErrorKind::PermissionDenied => "permission denied writing"@,
        IoErrorKind::NotFound => "target directory does not exist"@,
        _ => "cannot write file"@,
    }
}

/// The text shown for a regex that could not be parsed, given its detail.
pub open spec fn regex_parse_error_text(detail: Seq<char>) -> Seq<char> {
    "Failed to parse regex: "@ + detail
}

impl KoseiError {
    /// The text that describes this error to a user.
    pub open spec fn text(self) -> Seq<char> {
        match self {
            KoseiError::ConfigNotFound(m) => "Config not found: "@ + m@,
            KoseiError::ConfigReadError(m) => "Failed to read config: "@ + m@,
            KoseiError::ConfigParseError(m) => "Failed to parse config: "@ + m@,
            KoseiError::EnvironmentNotFound(m) => "Environment name not found: "@ + m@,
            KoseiError::FileReadError(m, kind) => "Failed to read file: "@ + m@ + " ("@
                + read_context(kind) + ")"@,
            KoseiError::FileWriteError(m, kind) => "Failed to write file: "@ + m@ + " ("@
                + write_context(kind) + ")"@,
            KoseiError::RegexParseError(m) => regex_parse_error_text(m@),
            KoseiError::RegexApplyError(m) => "Failed to apply regex: "@ + m@,
        }
    }

    /// Renders the error for a user, as `text` describes it.
    pub fn to_string(&self) -> (s: String)
        ensures
            s@ == self.text(),
    {
        match self {
            KoseiError::ConfigNotFound(m) => prefixed("Config not found: ", m.as_str()),
            KoseiError::ConfigReadError(m) => prefixed("Failed to read config: ", m.as_str()),
            KoseiError::ConfigParseError(m) => prefixed("Failed to parse config: ", m.as_str()),
            KoseiError::EnvironmentNotFound(m) => prefixed(
                "Environment name not found: ",
                m.as_str(),
            ),
            KoseiError::FileReadError(m, kind) => {
                let context = match kind {
                    IoErrorKind::NotFound => "file does not exist",
                    IoErrorKind::PermissionDenied => "permission denied reading",
                    _ => "cannot read file",
                };
                let mut s = prefixed("Failed to read file: ", m.as_str());
                s.append(" (");
                s.append(context);
                s.append(")");
                s
            },
            KoseiError::FileWriteError(m, kind) => {
                let context = match kind {
                    IoErrorKind::PermissionDenied => "permission denied writing",
                    IoErrorKind::NotFound => "target directory does not exist",
                    _ => "cannot write file",
                };
                let mut s = prefixed("Failed to write file: ", m.as_str());
                s.append(" (");
                s.append(context);
                s.append(")");
                s
            },
            KoseiError::RegexParseError(m) => prefixed("Failed to parse regex: ", m.as_str()),
            KoseiError::RegexApplyError(m) => prefixed("Failed to apply regex: ", m.as_str()),
        }
    }
}

/// A fresh string holding `head` followed by `tail`.
pub fn prefixed(head: &str, tail: &str) -> (s: String)
    ensures
        s@ == head@ + tail@,
{
    let mut s = String::from_str(head);
    s.append(tail);
    s
}

} // verus!
