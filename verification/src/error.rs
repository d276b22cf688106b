//! The kinds of failure that the library reports.

use vstd::prelude::*;

verus! {

/// The general I/O error code of the SQL engine.
pub const SQLITE_IOERR: i32 = 10;

/// The engine error code for a position that the remote store no longer holds: the general
/// I/O error code with the letters "POS" above it. The engine hands it to the client, who may
/// run the transaction again.
pub const LITEVFS_IOERR_POS_MISMATCH: i32 = 0x504F_530A;

/// Why an operation failed.
#[derive(Clone, Copy, Debug, PartialEq, Eq, Structural)]
pub enum ErrorKind {
    /// Something asked for does not exist.
    NotFound,
    /// Something to be created exists already.
    AlreadyExists,
    /// An argument is not one that the operation takes.
    InvalidInput,
    /// Bytes that were to be parsed are malformed.
    InvalidData,
    /// The database uses a feature that is not supported.
    Unsupported,
    /// The answer would take a remote read that the query's budget does not allow.
    WouldBlock,
    /// A write was attempted without a write lease.
    PermissionDenied,
    /// A read went past the end of what is stored.
    UnexpectedEof,
    /// The remote store no longer holds the position that was asked for.
    PosMismatch,
    /// Any other failure.
    Other,
}

impl ErrorKind {
    /// The engine error code that goes with the failure, where it has one of its own.
    pub fn engine_code(&self) -> (r: Option<i32>)
        ensures
            r == if *self == ErrorKind::PosMismatch {
                Some(LITEVFS_IOERR_POS_MISMATCH)
            } else {
                None
            },
            LITEVFS_IOERR_POS_MISMATCH == SQLITE_IOERR + 0x504F53 * 256,
    {
        match self {
            ErrorKind::PosMismatch => Some(LITEVFS_IOERR_POS_MISMATCH),
            _ => None,
        }
    }
}

} // verus!
