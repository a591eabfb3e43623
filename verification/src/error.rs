//! Error types of the persistence protocol.

use vstd::prelude::*;

verus! {

/// Errors raised by the client protocol itself, as opposed to errors of the
/// transport or of the record mapping layer.
#[derive(Clone, Copy, Debug, PartialEq, Eq, Structural)]
pub enum DatastoreClientError {
    /// The record carries no identity placeholder where one is structurally
    /// required.
    KeyMissing,
    /// A delete was attempted on a record with no resolved identity, or a
    /// lookup returned nothing.
    NotFound,
    /// The store reported that the expected version did not match at commit
    /// time.
    DataConflict,
    /// A newly assigned identity was expected from the store but none was
    /// returned, or the response of a commit contained no results at all.
    KeyAssignmentFailed,
    /// The response of a delete contained no results at all.
    DeleteFailed,
    /// The store returned more results than the submitted mutations could
    /// produce.
    AmbiguousResult,
}

/// Errors raised when converting between a typed record and the generic
/// entity record.
#[derive(Clone, Copy, Debug, PartialEq, Eq, Structural)]
pub enum DatastoreParseError {
    /// A required value was absent from the entity's properties.
    NoSuchValue,
    /// A property value had a type other than the one the record expects.
    WrongValueType,
}

/// The error type surfaced to callers: a protocol error, a record mapping
/// error, or an error of the transport collaborator, wrapped so the three
/// kinds stay distinguishable.
#[derive(Clone, Debug)]
pub enum DatastorersError {
    DatastoreClientError(DatastoreClientError),
    ParseError(DatastoreParseError),
    TransportError(String),
}

impl DatastorersError {
    /// True iff this error wraps the given protocol error.
    pub open spec fn is_client_error(&self, e: DatastoreClientError) -> bool {
        match self {
            DatastorersError::DatastoreClientError(c) => *c == e,
            _ => false,
        }
    }

    /// True iff this error wraps the given record mapping error.
    pub open spec fn is_parse_error(&self, e: DatastoreParseError) -> bool {
        match self {
            DatastorersError::ParseError(p) => *p == e,
            _ => false,
        }
    }

    /// Which protocol error this error wraps, if any.
    pub fn client_error(&self) -> (r: Option<DatastoreClientError>)
        ensures
            match r {
                Some(c) => self.is_client_error(c),
                None => forall|e: DatastoreClientError| !self.is_client_error(e),
            },
    {
        match self {
            DatastorersError::DatastoreClientError(c) => Some(*c),
            _ => None,
        }
    }
}

} // verus!
