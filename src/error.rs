//! The errors of the index.
use vstd::prelude::*;

verus! {

/// The kinds of failure the index reports.
#[derive(Debug, Clone, Copy, PartialEq, Eq, Structural)]
pub enum ErrorKind {
    /// A vector's length differs from the index dimension.
    DimensionMismatch,
    /// An unknown or removed id.
    NotFound,
    /// An operation that the index's current state does not allow.
    InvalidState,
    /// A quantized operation the host cannot run.
    UnsupportedHardware,
    /// Persisted bytes that do not describe an index.
    CorruptFormat,
    /// A size or value that does not fit its representation.
    CapacityExceeded,
}

/// An error of the index, carrying its kind.
#[derive(Debug, Clone, Copy, PartialEq, Eq, Structural)]
pub struct Error {
    pub kind: ErrorKind,
}

impl Error {
    pub fn new(kind: ErrorKind) -> (r: Error)
        ensures
            r.kind == kind,
    {
        Error { kind }
    }

    pub fn kind(&self) -> (r: ErrorKind)
        ensures
            r == self.kind,
    {
        self.kind
    }

    /// A human-readable description of the failure.
    pub fn message(&self) -> &'static str {
        match self.kind {
            ErrorKind::DimensionMismatch => "vector length differs from the index dimension",
            ErrorKind::NotFound => "no live vector with this id",
            ErrorKind::InvalidState => "operation not allowed in the current index state",
            ErrorKind::UnsupportedHardware => "the host lacks the required vector instructions",
            ErrorKind::CorruptFormat => "persisted index data is malformed",
            ErrorKind::CapacityExceeded => "value does not fit its representation",
        }
    }
}

} // verus!
