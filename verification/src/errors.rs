//! The error taxonomy. Every fallible operation returns a typed result; no
//! failure is swallowed, and no operation is retried internally.

use vstd::prelude::*;

verus! {

/// A profile field failed validation. The variants are reported in the fixed
/// order in which the fields are checked: name, lastname, identity key, email.
#[derive(Clone, Copy, PartialEq, Eq, Structural, Debug)]
pub enum ValidationError {
    NameInvalid,
    LastnameInvalid,
    IdentityKeyInvalid,
    EmailInvalid,
}

/// Linking an account to an identity key failed.
#[derive(Clone, Copy, PartialEq, Eq, Structural, Debug)]
pub enum IdentityError {
    /// An account already linked to the identity key holds the same role.
    DuplicateRole,
    /// Two accounts are already linked to the identity key.
    IdentityExhausted,
}

/// A grant or revoke on the permission graph failed.
#[derive(Clone, Copy, PartialEq, Eq, Structural, Debug)]
pub enum PermissionError {
    /// The consent edge is already active.
    AlreadyGranted,
    /// The consent edge is not currently active.
    NotGranted,
}

/// An operation on the access-request queue failed.
#[derive(Clone, Copy, PartialEq, Eq, Structural, Debug)]
pub enum RequestError {
    /// The requester does not hold the Doctor role.
    NotAuthorized,
    /// A pending request for the same pair already exists.
    DuplicateRequest,
    /// No pending request exists for the pair.
    NoPendingRequest,
}

/// The union of all failure kinds, as surfaced by the service operations.
#[derive(Clone, Copy, PartialEq, Eq, Structural, Debug)]
pub enum Error {
    Validation(ValidationError),
    Identity(IdentityError),
    Permission(PermissionError),
    Request(RequestError),
}

} // verus!
