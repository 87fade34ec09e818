use vstd::prelude::*;

verus! {

/// The failure categories of the ledger core.
#[derive(Clone, Copy, Debug, PartialEq, Eq, Structural)]
pub enum ErrorKind {
    /// A range operation was asked for a window with `start >= end`.
    InvalidRange,
    /// A transaction's window intersects no stored state.
    NoMatchingState,
    /// A block was requested over an empty transaction batch.
    NoTransactions,
    /// A canonical byte encoding could not be decoded.
    AbiDecode,
    /// A Merkle inclusion proof failed its hash or ordering check.
    VerifyError,
    /// A predicate refused the proposed state transition.
    InvalidStateTransition,
    /// The storage backend failed.
    StorageError,
}

/// An error of the ledger core, carrying its kind.
#[derive(Clone, Copy, Debug, PartialEq, Eq, Structural)]
pub struct Error {
    kind: ErrorKind,
}

impl Error {
    pub closed spec fn spec_kind(&self) -> ErrorKind {
        self.kind
    }

    pub fn from_kind(kind: ErrorKind) -> (r: Error)
        ensures
            r.spec_kind() == kind,
    {
        Error { kind }
    }

    pub fn kind(&self) -> (r: ErrorKind)
        ensures
            r == self.spec_kind(),
    {
        self.kind
    }
}

} // verus!
