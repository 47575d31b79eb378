//! The error kinds every operation of this crate can report. Values carry
//! typed context; rendering them for a transport is left to the caller.

use vstd::prelude::*;

verus! {

use crate::user::Role;

/// A typed field value carried inside an error, so that no formatting
/// happens inside the core.
#[derive(Clone, Debug, PartialEq, Eq)]
pub enum FieldValue {
    Id(u128),
    Text(String),
    Role(Role),
}

/// Everything that can go wrong while handling a command or a query.
#[derive(Clone, Debug, PartialEq, Eq)]
pub enum Error {
    /// An identifier did not resolve; carries the entity type and the key.
    NotFound { typ: String, id: u128 },
    /// A uniqueness violation; carries the entity type, the field, and the
    /// normalized value that collided.
    AlreadyExists { typ: String, field: String, value: String },
    /// A field length or value outside its allowed bounds.
    NotInRange { field: String, begin: usize, end: usize },
    /// The operator lacks read-write permission on a target; names every
    /// offending field or identifier the caller could react to.
    NoWritePermission { operator_id: Option<u128>, typ: String, field_values: Vec<(String, FieldValue)> },
    /// A malformed command, query or sort input; carries the offending field.
    Validation { field: String },
    /// A stored row could not be read back into a typed entity.
    Deserialization { message: String },
    /// A failure of the underlying storage engine, passed through unchanged.
    Storage { message: String },
}

} // verus!
