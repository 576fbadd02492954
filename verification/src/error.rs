//! I/O errors as plain values.

use vstd::prelude::*;

use crate::text::{copy_of, owned};

verus! {

/// The kinds of I/O error that the decisions of this library tell apart, and
/// every other kind by which one can be reported.
#[derive(Clone, Copy, Debug, PartialEq, Eq, Hash, Structural)]
pub enum ErrorKind {
    NotFound,
    PermissionDenied,
    ConnectionRefused,
    ConnectionReset,
    HostUnreachable,
    NetworkUnreachable,
    ConnectionAborted,
    NotConnected,
    AddrInUse,
    AddrNotAvailable,
    NetworkDown,
    BrokenPipe,
    AlreadyExists,
    WouldBlock,
    NotADirectory,
    IsADirectory,
    DirectoryNotEmpty,
    ReadOnlyFilesystem,
    StaleNetworkFileHandle,
    InvalidInput,
    InvalidData,
    TimedOut,
    WriteZero,
    StorageFull,
    NotSeekable,
    QuotaExceeded,
    FileTooLarge,
    ResourceBusy,
    ExecutableFileBusy,
    Deadlock,
    CrossesDevices,
    TooManyLinks,
    InvalidFilename,
    ArgumentListTooLong,
    Interrupted,
    Unsupported,
    UnexpectedEof,
    OutOfMemory,
    Other,
}

/// An I/O error: its kind, and its message as it is displayed.
#[derive(Debug)]
pub struct IoError {
    pub kind: ErrorKind,
    pub message: String,
}

/// What an I/O error says.
#[verifier::ext_equal]
pub struct ErrorView {
    pub kind: ErrorKind,
    pub message: Seq<char>,
}

impl View for IoError {
    type V = ErrorView;

    open spec fn view(&self) -> ErrorView {
        ErrorView { kind: self.kind, message: self.message@ }
    }
}

/// A result, with what its error says.
pub open spec fn outcome<T>(r: Result<T, IoError>) -> Result<T, ErrorView> {
    match r {
        Ok(v) => Ok(v),
        Err(e) => Err(e@),
    }
}

/// The broken-pipe error with that message.
pub open spec fn broken_pipe(message: Seq<char>) -> ErrorView {
    ErrorView { kind: ErrorKind::BrokenPipe, message }
}

impl IoError {
    /// Whether this is the error of that kind with that message.
    pub open spec fn is(&self, kind: ErrorKind, message: Seq<char>) -> bool {
        self.kind == kind && self.message@ == message
    }

    /// Whether two errors say the same.
    pub open spec fn same(&self, other: &IoError) -> bool {
        self.is(other.kind, other.message@)
    }

    pub fn new(kind: ErrorKind, message: &str) -> (r: IoError)
        ensures
            r.is(kind, message@),
    {
        IoError { kind, message: owned(message) }
    }

    /// A second copy of the error.
    pub fn duplicate(&self) -> (r: IoError)
        ensures
            r.same(self),
    {
        IoError { kind: self.kind, message: copy_of(&self.message) }
    }

    pub fn kind(&self) -> (r: ErrorKind)
        ensures
            r == self.kind,
    {
        self.kind
    }
}

/// Errors say the same exactly where their kinds and their messages agree, and
/// what a result says keeps its value or its error's kind and message.
pub proof fn lemma_errors_say_their_kind_and_message<T>(a: IoError, b: IoError, value: T)
    ensures
        a.same(&b) <==> a.kind == b.kind && a.message@ == b.message@,
        a.same(&b) <==> a@ == b@,
        a.is(b.kind, b.message@) <==> a.same(&b),
        outcome(Ok::<T, IoError>(value)) == Ok::<T, ErrorView>(value),
        outcome(Err::<T, IoError>(a)) matches Err(e) && e.kind == a.kind && e.message
            == a.message@,
        broken_pipe(a.message@).kind == ErrorKind::BrokenPipe,
        broken_pipe(a.message@).message == a.message@,
{
}

} // verus!
