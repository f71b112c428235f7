//! Core value types: account identifiers, roles, user profiles, and the
//! notification events emitted by state-changing operations.

use vstd::prelude::*;

verus! {

/// An opaque fixed-size identifier for one registered actor.
///
/// Account identifiers are created externally and copied by value; they are
/// never reused and carry no structure the registry inspects.
#[derive(Clone, Copy, PartialEq, Eq, Structural, Debug, Hash)]
pub struct AccountId {
    pub id: u64,
}

impl AccountId {
    pub fn new(id: u64) -> (r: AccountId)
        ensures
            r.id == id,
    {
        AccountId { id }
    }
}

/// The role assigned to an account. Every account holds at most one role.
#[derive(Clone, Copy, PartialEq, Eq, Structural, Debug)]
pub enum Role {
    Patient,
    Doctor,
}

/// The profile attributes stored for one account: personal names, the
/// identity key (`dni`) binding the account to a physical subject, and a
/// contact email. Field validity rules live in the user directory.
#[derive(Debug)]
pub struct UserInfo {
    pub name: String,
    pub lastname: String,
    pub dni: String,
    pub email: String,
}

impl Clone for UserInfo {
    fn clone(&self) -> (r: Self)
        ensures
            r == *self,
    {
        UserInfo {
            name: self.name.clone(),
            lastname: self.lastname.clone(),
            dni: self.dni.clone(),
            email: self.email.clone(),
        }
    }
}

impl PartialEq for UserInfo {
    fn eq(&self, other: &Self) -> (r: bool) {
        self.name == other.name && self.lastname == other.lastname && self.dni == other.dni
            && self.email == other.email
    }
}

impl vstd::std_specs::cmp::PartialEqSpecImpl for UserInfo {
    open spec fn obeys_eq_spec() -> bool {
        true
    }

    open spec fn eq_spec(&self, other: &Self) -> bool {
        self.name@ == other.name@ && self.lastname@ == other.lastname@ && self.dni@ == other.dni@
            && self.email@ == other.email@
    }
}

/// Notification: a user profile was stored for `account`.
#[derive(Clone, Copy, PartialEq, Eq, Structural, Debug)]
pub struct UserAdded {
    pub account: AccountId,
}

/// Notification: `role` was recorded for `account`.
#[derive(Clone, Copy, PartialEq, Eq, Structural, Debug)]
pub struct RoleAssigned {
    pub account: AccountId,
    pub role: Role,
}

/// Notification: the consent edge from `granter` to `grantee` was set to
/// `state` (`true` on grant, `false` on revoke).
#[derive(Clone, Copy, PartialEq, Eq, Structural, Debug)]
pub struct PermissionGranted {
    pub granter: AccountId,
    pub grantee: AccountId,
    pub state: bool,
}

/// Notification: `requester` asked to view `target`'s data.
#[derive(Clone, Copy, PartialEq, Eq, Structural, Debug)]
pub struct AccessRequested {
    pub requester: AccountId,
    pub target: AccountId,
}

/// One entry of the service's event log. Events are advisory to external
/// collaborators and carry no invariant of their own.
#[derive(Clone, Copy, PartialEq, Eq, Structural, Debug)]
pub enum Event {
    UserAdded(UserAdded),
    RoleAssigned(RoleAssigned),
    PermissionGranted(PermissionGranted),
    AccessRequested(AccessRequested),
}

} // verus!
