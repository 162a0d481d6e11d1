//! The single error type of the library.
use vstd::prelude::*;

use crate::proto::ErrorCode;

verus! {

/// Why a file or socket operation failed, as far as the protocol tells the
/// reasons apart.
#[derive(Debug, Copy, Clone, PartialEq, Eq, Hash, Structural)]
pub enum IoFailure {
    NotFound,
    PermissionDenied,
    AlreadyExists,
    Other,
}

/// Everything that can go wrong in a transfer.
#[derive(Debug)]
pub enum Error {
    /// A file or socket operation failed.
    Io(IoFailure),
    /// Malformed packet, with the reason.
    Malformed(&'static str),
    /// Unknown opcode.
    UnknownOpcode(u16),
    /// Invalid UTF-8 in a string field.
    InvalidUtf8,
    /// A string field lacks its NUL terminator.
    MissingNul,
    /// The mode field names no known mode.
    InvalidMode(String),
    /// Invalid value for an option.
    InvalidOption { name: String, value: String },
    /// The peer reported an error.
    Peer { code: ErrorCode, msg: String },
    /// The transfer timed out after this many retries.
    Timeout(u32),
    /// Unexpected packet from the peer.
    UnexpectedPacket,
    /// Path traversal or invalid filename.
    InvalidPath(String),
    /// File too large for a TFTP transfer.
    FileTooLarge,
    /// The transfer was cancelled.
    Cancelled,
}

/// What an [`Error`] says, with its texts as character sequences.
pub enum ErrorView {
    Io(IoFailure),
    Malformed(Seq<char>),
    UnknownOpcode(u16),
    InvalidUtf8,
    MissingNul,
    InvalidMode(Seq<char>),
    InvalidOption { name: Seq<char>, value: Seq<char> },
    Peer { code: ErrorCode, msg: Seq<char> },
    Timeout(u32),
    UnexpectedPacket,
    InvalidPath(Seq<char>),
    FileTooLarge,
    Cancelled,
}

impl View for Error {
    type V = ErrorView;

    open spec fn view(&self) -> ErrorView {
        match *self {
            Error::Io(kind) => ErrorView::Io(kind),
            Error::Malformed(reason) => ErrorView::Malformed(reason@),
            Error::UnknownOpcode(v) => ErrorView::UnknownOpcode(v),
            Error::InvalidUtf8 => ErrorView::InvalidUtf8,
            Error::MissingNul => ErrorView::MissingNul,
            Error::InvalidMode(s) => ErrorView::InvalidMode(s@),
            Error::InvalidOption { name, value } => ErrorView::InvalidOption {
                name: name@,
                value: value@,
            },
            Error::Peer { code, msg } => ErrorView::Peer { code, msg: msg@ },
            Error::Timeout(n) => ErrorView::Timeout(n),
            Error::UnexpectedPacket => ErrorView::UnexpectedPacket,
            Error::InvalidPath(s) => ErrorView::InvalidPath(s@),
            Error::FileTooLarge => ErrorView::FileTooLarge,
            Error::Cancelled => ErrorView::Cancelled,
        }
    }
}

/// An error says what its fields hold.
pub proof fn errors_are_seen_whole(error: Error)
    ensures
        match error {
            Error::Io(kind) => error@ == ErrorView::Io(kind),
            Error::Malformed(reason) => error@ == ErrorView::Malformed(reason@),
            Error::UnknownOpcode(v) => error@ == ErrorView::UnknownOpcode(v),
            Error::InvalidUtf8 => error@ is InvalidUtf8,
            Error::MissingNul => error@ is MissingNul,
            Error::InvalidMode(s) => error@ == ErrorView::InvalidMode(s@),
            Error::InvalidOption { name, value } => error@ == (ErrorView::InvalidOption {
                name: name@,
                value: value@,
            }),
            Error::Peer { code, msg } => error@ == (ErrorView::Peer { code, msg: msg@ }),
            Error::Timeout(n) => error@ == ErrorView::Timeout(n),
            Error::UnexpectedPacket => error@ is UnexpectedPacket,
            Error::InvalidPath(s) => error@ == ErrorView::InvalidPath(s@),
            Error::FileTooLarge => error@ is FileTooLarge,
            Error::Cancelled => error@ is Cancelled,
        },
{
}

} // verus!
