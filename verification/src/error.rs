//! Error type shared by every interner in the crate.

use vstd::prelude::*;

verus! {

/// Error type used by fallible interner operations.
#[derive(Clone, Copy, Debug, PartialEq, Eq, Structural)]
pub struct Error {
    kind: ErrorKind,
}

impl Error {
    /// Create a new error with the given kind.
    pub fn new(kind: ErrorKind) -> (r: Self)
        ensures
            r.kind_spec() == kind,
    {
        Error { kind }
    }

    /// The kind of error this value represents.
    pub closed spec fn kind_spec(&self) -> ErrorKind {
        self.kind
    }

    /// Get the kind of error this object represents.
    pub fn kind(&self) -> (r: ErrorKind)
        ensures
            r == self.kind_spec(),
    {
        self.kind
    }

    /// A human-readable description of the error.
    pub fn description(&self) -> (r: &'static str)
        ensures
            self.kind_spec() == ErrorKind::PoolOverflow ==> r@ == "out of space for new symbols"@,
            self.kind_spec() == ErrorKind::NoSuchSymbol ==> r@ == "no such symbol found"@,
    {
        match self.kind {
            ErrorKind::PoolOverflow => "out of space for new symbols",
            ErrorKind::NoSuchSymbol => "no such symbol found",
        }
    }
}

/// Kinds of errors representable by the [`Error`] type.
#[derive(Clone, Copy, Debug, PartialEq, Eq, Structural)]
pub enum ErrorKind {
    /// The underlying type used to uniquely identify symbols cannot represent
    /// any more values.
    PoolOverflow,
    /// The given symbol does not exist in the pool that was asked to
    /// resolve it.
    NoSuchSymbol,
}

impl From<ErrorKind> for Error {
    fn from(kind: ErrorKind) -> (r: Self)
        ensures
            r.kind_spec() == kind,
    {
        Error { kind }
    }
}

impl vstd::std_specs::convert::FromSpecImpl<ErrorKind> for Error {
    open spec fn obeys_from_spec() -> bool {
        true
    }

    closed spec fn from_spec(kind: ErrorKind) -> Self {
        Error { kind }
    }
}

} // verus!
