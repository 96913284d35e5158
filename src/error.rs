//! Failures reported by record and index operations.
use vstd::prelude::*;

verus! {

#[derive(Clone, Copy, Debug, PartialEq, Eq, Structural)]
pub enum RecordError {
    /// An identity or an entry is absent.
    NotFound,
    /// An entry is present but does not have the expected shape.
    DecodeError,
    /// A record's entry is not of the type named for its deletion.
    ValidationError,
    /// An index edge could not be made or found for an address.
    IndexNotFound,
    /// A call into another partition failed.
    RemoteCallError,
    /// The time index could not be read or written.
    BadTimeIndexError,
    /// A record changed since its caller last read it.
    ConflictError,
}

/// A fallible byte result, seen as its contents.
pub open spec fn bytes_result(r: Result<Vec<u8>, RecordError>) -> Result<Seq<u8>, RecordError> {
    match r {
        Ok(v) => Ok(v@),
        Err(e) => Err(e),
    }
}

} // verus!
