//! The access-control service: the façade orchestrating the identity store,
//! user directory, role registry, permission graph, and request queue as
//! atomic operations.
//!
//! Every operation either completes all of its sub-writes or none: a failed
//! validation or identity link leaves no partial state behind. State-changing
//! operations append advisory notification events to the event log.

use vstd::prelude::*;
use crate::types::{
    AccountId,
    Role,
    UserInfo,
    Event,
    UserAdded,
    RoleAssigned,
    PermissionGranted,
    AccessRequested,
};
use crate::errors::{Error, PermissionError, RequestError};
use crate::directory::{UserDirectory, validate, spec_validate};
use crate::identity::IdentityStore;
use crate::roles::RoleRegistry;
use crate::permissions::PermissionGraph;
use crate::requests::RequestQueue;

verus! {

pub struct AccessControl {
    pub identities: IdentityStore,
    pub directory: UserDirectory,
    pub roles: RoleRegistry,
    pub permissions: PermissionGraph,
    pub requests: RequestQueue,
    pub events: Vec<Event>,
}

impl AccessControl {
    /// The accounts linked to identity key `k` with their roles, oldest
    /// first.
    pub open spec fn spec_linked(self, k: Seq<char>) -> Seq<(AccountId, Role)> {
        self.identities.spec_linked(k)
    }

    /// The accounts linked to identity key `k`, oldest first.
    pub open spec fn spec_accounts_for(self, k: Seq<char>) -> Seq<AccountId> {
        self.identities.spec_accounts_for(k)
    }

    /// The profile stored for `a`, if any.
    pub open spec fn spec_profile_of(self, a: AccountId) -> Option<UserInfo> {
        self.directory.spec_profile_of(a)
    }

    /// The role recorded for `a`, if any.
    pub open spec fn spec_role_of(self, a: AccountId) -> Option<Role> {
        self.roles.spec_role_of(a)
    }

    /// Whether the consent edge from `g` to `h` is currently active.
    pub open spec fn spec_has_permission(self, g: AccountId, h: AccountId) -> bool {
        self.permissions.spec_has_permission(g, h)
    }

    /// The active grantees of `g`, in grant order.
    pub open spec fn spec_grantees(self, g: AccountId) -> Seq<AccountId> {
        self.permissions.spec_grantees(g)
    }

    /// The requesters pending a decision by `subject`, oldest first.
    pub open spec fn spec_pending(self, subject: AccountId) -> Seq<AccountId> {
        self.requests.spec_pending(subject)
    }

    /// All five stores are well-formed.
    pub open spec fn wf(self) -> bool {
        &&& self.identities.wf()
        &&& self.directory.wf()
        &&& self.roles.wf()
        &&& self.permissions.wf()
        &&& self.requests.wf()
    }

    /// A fresh service: every store is empty and no event was emitted.
    pub fn default() -> (r: AccessControl)
        ensures
            r.wf(),
            forall|k: Seq<char>| r.spec_linked(k) == Seq::<(AccountId, Role)>::empty(),
            forall|a: AccountId| r.spec_profile_of(a) is None,
            forall|a: AccountId| r.spec_role_of(a) is None,
            forall|g: AccountId, h: AccountId| !r.spec_has_permission(g, h),
            forall|g: AccountId| r.spec_grantees(g) == Seq::<AccountId>::empty(),
            forall|s: AccountId| r.spec_pending(s) == Seq::<AccountId>::empty(),
            r.events@ == Seq::<Event>::empty(),
    {
        AccessControl {
            identities: IdentityStore::new(),
            directory: UserDirectory::new(),
            roles: RoleRegistry::new(),
            permissions: PermissionGraph::new(),
            requests: RequestQueue::new(),
            events: Vec::new(),
        }
    }

    /// The outcome of registering `user_info` under `role`: the first
    /// failing validation rule, then the identity-link outcome for the
    /// profile's identity key.
    pub open spec fn spec_add_user_result(self, user_info: UserInfo, role: Role) -> Result<
        (),
        Error,
    > {
        match spec_validate(user_info) {
            Err(e) => Err(Error::Validation(e)),
            Ok(()) => match self.identities.spec_link_result(user_info.dni@, role) {
                Err(e) => Err(Error::Identity(e)),
                Ok(()) => Ok(()),
            },
        }
    }

    /// Register a user: validate the profile, link `account_id` to the
    /// profile's identity key under `role`, and only if both succeed commit
    /// the role and the profile. On any failure no state changes.
    pub fn add_user(&mut self, account_id: AccountId, user_info: UserInfo, role: Role) -> (r:
        Result<(), Error>)
        requires
            old(self).wf(),
        ensures
            final(self).wf(),
            r == old(self).spec_add_user_result(user_info, role),
            r is Err ==> *final(self) == *old(self),
            r is Ok ==> {
                &&& final(self).spec_linked(user_info.dni@) == old(self).spec_linked(
                    user_info.dni@,
                ).push((account_id, role))
                &&& forall|k2: Seq<char>|
                    k2 != user_info.dni@ ==> final(self).spec_linked(k2) == old(self).spec_linked(
                        k2,
                    )
                &&& final(self).spec_profile_of(account_id) == Some(user_info)
                &&& forall|b: AccountId|
                    b != account_id ==> final(self).spec_profile_of(b) == old(
                        self,
                    ).spec_profile_of(b)
                &&& final(self).spec_role_of(account_id) == Some(role)
                &&& forall|b: AccountId|
                    b != account_id ==> final(self).spec_role_of(b) == old(self).spec_role_of(b)
                &&& final(self).permissions == old(self).permissions
                &&& final(self).requests == old(self).requests
                &&& final(self).events@ == old(self).events@.push(
                    Event::RoleAssigned((RoleAssigned { account: account_id, role })),
                ).push(Event::UserAdded((UserAdded { account: account_id })))
            },
    {
        match validate(&user_info) {
            Err(e) => {
                return Err(Error::Validation(e));
            },
            Ok(()) => {},
        }
        match self.identities.link(&user_info.dni, account_id, role) {
            Err(e) => {
                return Err(Error::Identity(e));
            },
            Ok(()) => {},
        }
        self.roles.set_role(account_id, role);
        self.directory.insert(account_id, user_info);
        self.events.push(Event::RoleAssigned(RoleAssigned { account: account_id, role }));
        self.events.push(Event::UserAdded(UserAdded { account: account_id }));
        Ok(())
    }

    /// Record `role` for `account_id` unconditionally, overwriting any
    /// prior role. This legacy path performs no identity linking and always
    /// succeeds.
    pub fn assign_role(&mut self, account_id: AccountId, role: Role) -> (r: Result<(), Error>)
        requires
            old(self).wf(),
        ensures
            final(self).wf(),
            r == Ok::<(), Error>(()),
            final(self).spec_role_of(account_id) == Some(role),
            forall|b: AccountId|
                b != account_id ==> final(self).spec_role_of(b) == old(self).spec_role_of(b),
            final(self).identities == old(self).identities,
            final(self).directory == old(self).directory,
            final(self).permissions == old(self).permissions,
            final(self).requests == old(self).requests,
            final(self).events@ == old(self).events@.push(
                Event::RoleAssigned((RoleAssigned { account: account_id, role })),
            ),
    {
        self.roles.set_role(account_id, role);
        self.events.push(Event::RoleAssigned(RoleAssigned { account: account_id, role }));
        Ok(())
    }

    /// The outcome of `requester` asking to view `subject`'s data: only a
    /// Doctor may ask, and only once while the pair is pending.
    pub open spec fn spec_request_result(self, requester: AccountId, subject: AccountId) -> Result<
        (),
        Error,
    > {
        if self.spec_role_of(requester) != Some(Role::Doctor) {
            Err(Error::Request(RequestError::NotAuthorized))
        } else if self.spec_pending(subject).contains(requester) {
            Err(Error::Request(RequestError::DuplicateRequest))
        } else {
            Ok(())
        }
    }

    /// Ask, as `requester`, to view `subject`'s data. Fails with
    /// `NotAuthorized` unless `requester` holds the Doctor role, and with
    /// `DuplicateRequest` when the pair is already pending; on failure
    /// nothing changes. On success the pair becomes pending.
    pub fn request_access(&mut self, requester: AccountId, subject: AccountId) -> (r: Result<
        (),
        Error,
    >)
        requires
            old(self).wf(),
        ensures
            final(self).wf(),
            r == old(self).spec_request_result(requester, subject),
            r is Err ==> *final(self) == *old(self),
            r is Ok ==> {
                &&& final(self).spec_pending(subject) == old(self).spec_pending(subject).push(
                    requester,
                )
                &&& forall|s2: AccountId|
                    s2 != subject ==> final(self).spec_pending(s2) == old(self).spec_pending(s2)
                &&& final(self).identities == old(self).identities
                &&& final(self).directory == old(self).directory
                &&& final(self).roles == old(self).roles
                &&& final(self).permissions == old(self).permissions
                &&& final(self).events@ == old(self).events@.push(
                    Event::AccessRequested((AccessRequested { requester, target: subject })),
                )
            },
    {
        match self.roles.role_of(requester) {
            Some(Role::Doctor) => {},
            _ => {
                return Err(Error::Request(RequestError::NotAuthorized));
            },
        }
        match self.requests.enqueue(subject, requester) {
            Err(e) => {
                return Err(Error::Request(e));
            },
            Ok(()) => {},
        }
        self.events.push(Event::AccessRequested(AccessRequested { requester, target: subject }));
        Ok(())
    }

    /// The outcome of deciding on a request: there must be a pending entry
    /// for the pair.
    pub open spec fn spec_decide_result(self, subject: AccountId, requester: AccountId) -> Result<
        (),
        Error,
    > {
        if !self.spec_pending(subject).contains(requester) {
            Err(Error::Request(RequestError::NoPendingRequest))
        } else {
            Ok(())
        }
    }

    /// Decide on `requester`'s pending request to view `subject`'s data.
    ///
    /// Fails with `NoPendingRequest`, changing nothing, when the pair is
    /// not pending. Otherwise the pending entry is consumed — either way —
    /// and on approval the consent edge from `subject` to `requester`
    /// becomes active; denial grants nothing. Both outcomes are terminal:
    /// the pair may start a new request cycle afterwards.
    pub fn decide(&mut self, subject: AccountId, requester: AccountId, approve: bool) -> (r:
        Result<(), Error>)
        requires
            old(self).wf(),
        ensures
            final(self).wf(),
            r == old(self).spec_decide_result(subject, requester),
            r is Err ==> *final(self) == *old(self),
            r is Ok ==> {
                &&& final(self).spec_pending(subject) == old(self).spec_pending(
                    subject,
                ).remove_value(requester)
                &&& final(self).spec_pending(subject).len() == old(self).spec_pending(
                    subject,
                ).len() - 1
                &&& !final(self).spec_pending(subject).contains(requester)
                &&& forall|s2: AccountId|
                    s2 != subject ==> final(self).spec_pending(s2) == old(self).spec_pending(s2)
                &&& final(self).identities == old(self).identities
                &&& final(self).directory == old(self).directory
                &&& final(self).roles == old(self).roles
            },
            r is Ok && approve ==> {
                &&& final(self).spec_has_permission(subject, requester)
                &&& forall|g2: AccountId, h2: AccountId|
                    final(self).spec_has_permission(g2, h2) == (old(self).spec_has_permission(
                        g2,
                        h2,
                    ) || (g2 == subject && h2 == requester))
                &&& forall|g2: AccountId|
                    g2 != subject ==> final(self).spec_grantees(g2) == old(self).spec_grantees(g2)
                &&& !old(self).spec_has_permission(subject, requester) ==> final(self)
                    .spec_grantees(subject) == old(self).spec_grantees(subject).push(requester)
                    && final(self).events@ == old(self).events@.push(
                    Event::PermissionGranted(
                        (PermissionGranted { granter: subject, grantee: requester, state: true }),
                    ),
                )
                &&& old(self).spec_has_permission(subject, requester) ==> final(self).permissions
                    == old(self).permissions && final(self).events@ == old(self).events@
            },
            r is Ok && !approve ==> final(self).permissions == old(self).permissions && final(self)
                .events@ == old(self).events@,
    {
        match self.requests.remove(subject, requester) {
            Err(e) => {
                return Err(Error::Request(e));
            },
            Ok(()) => {},
        }
        if approve {
            match self.permissions.grant(subject, requester) {
                Ok(()) => {
                    self.events.push(
                        Event::PermissionGranted(
                            PermissionGranted { granter: subject, grantee: requester, state: true },
                        ),
                    );
                },
                Err(PermissionError::AlreadyGranted) => {
                    // The consent edge is already active; consuming the
                    // pending entry is all there is left to do.
                },
                Err(PermissionError::NotGranted) => {
                    proof {
                        assert(false);
                    }
                },
            }
        }
        Ok(())
    }

    /// Activate the consent edge from `granter` to `grantee`. Fails with
    /// `AlreadyGranted`, changing nothing, when the edge is already active.
    pub fn grant_permission(&mut self, granter: AccountId, grantee: AccountId) -> (r: Result<
        (),
        Error,
    >)
        requires
            old(self).wf(),
        ensures
            final(self).wf(),
            old(self).spec_has_permission(granter, grantee) ==> r == Err::<(), Error>(
                Error::Permission(PermissionError::AlreadyGranted),
            ) && *final(self) == *old(self),
            !old(self).spec_has_permission(granter, grantee) ==> {
                &&& r == Ok::<(), Error>(())
                &&& final(self).spec_has_permission(granter, grantee)
                &&& forall|g2: AccountId, h2: AccountId|
                    final(self).spec_has_permission(g2, h2) == (old(self).spec_has_permission(
                        g2,
                        h2,
                    ) || (g2 == granter && h2 == grantee))
                &&& final(self).spec_grantees(granter) == old(self).spec_grantees(granter).push(
                    grantee,
                )
                &&& forall|g2: AccountId|
                    g2 != granter ==> final(self).spec_grantees(g2) == old(self).spec_grantees(g2)
                &&& final(self).identities == old(self).identities
                &&& final(self).directory == old(self).directory
                &&& final(self).roles == old(self).roles
                &&& final(self).requests == old(self).requests
                &&& final(self).events@ == old(self).events@.push(
                    Event::PermissionGranted(
                        (PermissionGranted { granter, grantee, state: true }),
                    ),
                )
            },
    {
        match self.permissions.grant(granter, grantee) {
            Err(e) => {
                return Err(Error::Permission(e));
            },
            Ok(()) => {},
        }
        self.events.push(
            Event::PermissionGranted(PermissionGranted { granter, grantee, state: true }),
        );
        Ok(())
    }

    /// Deactivate the consent edge from `granter` to `grantee`. Fails with
    /// `NotGranted`, changing nothing, when the edge is not active.
    pub fn revoke_permission(&mut self, granter: AccountId, grantee: AccountId) -> (r: Result<
        (),
        Error,
    >)
        requires
            old(self).wf(),
        ensures
            final(self).wf(),
            !old(self).spec_has_permission(granter, grantee) ==> r == Err::<(), Error>(
                Error::Permission(PermissionError::NotGranted),
            ) && *final(self) == *old(self),
            old(self).spec_has_permission(granter, grantee) ==> {
                &&& r == Ok::<(), Error>(())
                &&& !final(self).spec_has_permission(granter, grantee)
                &&& forall|g2: AccountId, h2: AccountId|
                    final(self).spec_has_permission(g2, h2) == (old(self).spec_has_permission(
                        g2,
                        h2,
                    ) && !(g2 == granter && h2 == grantee))
                &&& final(self).spec_grantees(granter) == old(self).spec_grantees(
                    granter,
                ).remove_value(grantee)
                &&& forall|g2: AccountId|
                    g2 != granter ==> final(self).spec_grantees(g2) == old(self).spec_grantees(g2)
                &&& final(self).identities == old(self).identities
                &&& final(self).directory == old(self).directory
                &&& final(self).roles == old(self).roles
                &&& final(self).requests == old(self).requests
                &&& final(self).events@ == old(self).events@.push(
                    Event::PermissionGranted(
                        (PermissionGranted { granter, grantee, state: false }),
                    ),
                )
            },
    {
        match self.permissions.revoke(granter, grantee) {
            Err(e) => {
                return Err(Error::Permission(e));
            },
            Ok(()) => {},
        }
        self.events.push(
            Event::PermissionGranted(PermissionGranted { granter, grantee, state: false }),
        );
        Ok(())
    }

    /// The accounts linked to identity key `dni`, oldest first.
    pub fn get_accounts(&self, dni: String) -> (r: Vec<AccountId>)
        ensures
            r@ == self.spec_accounts_for(dni@),
    {
        self.identities.accounts_for(&dni)
    }

    /// The profile stored for `account_id`.
    pub fn get_user_info(&self, account_id: AccountId) -> (r: Option<UserInfo>)
        ensures
            r == self.spec_profile_of(account_id),
    {
        self.directory.profile_of(account_id)
    }

    /// The requesters pending a decision by `subject`, oldest first.
    pub fn get_access_requests(&self, subject: AccountId) -> (r: Vec<AccountId>)
        ensures
            r@ == self.spec_pending(subject),
    {
        self.requests.pending_for(subject)
    }

    /// The active grantees of `granter`, in grant order.
    pub fn get_granted_permissions(&self, granter: AccountId) -> (r: Vec<AccountId>)
        ensures
            r@ == self.spec_grantees(granter),
    {
        self.permissions.grantees_of(granter)
    }

    /// Whether the consent edge from `granter` to `grantee` is active.
    pub fn has_permission(&self, granter: AccountId, grantee: AccountId) -> (r: bool)
        ensures
            r == self.spec_has_permission(granter, grantee),
    {
        self.permissions.has_permission(granter, grantee)
    }

    /// The role recorded for `account_id`.
    pub fn get_role(&self, account_id: AccountId) -> (r: Option<Role>)
        ensures
            r == self.spec_role_of(account_id),
    {
        self.roles.role_of(account_id)
    }

    /// Whether a profile is stored for `account_id`.
    pub fn user_exists(&self, account_id: AccountId) -> (r: bool)
        ensures
            r == (self.spec_profile_of(account_id) is Some),
    {
        self.directory.has_account(account_id)
    }
}

/// At most two accounts are ever linked to one identity key, and when two
/// are linked their roles differ.
pub proof fn lemma_identity_capacity(s: AccessControl, k: Seq<char>)
    requires
        s.wf(),
    ensures
        s.spec_accounts_for(k).len() <= 2,
        s.spec_linked(k).len() == 2 ==> s.spec_linked(k)[0].1 != s.spec_linked(k)[1].1,
{
    s.identities.lemma_capacity(k);
}

/// The grantee index of `g` holds exactly the accounts with an active
/// consent edge from `g`, with no duplicates — after any sequence of
/// operations, since every operation preserves well-formedness.
pub proof fn lemma_grantees_exact(s: AccessControl, g: AccountId)
    requires
        s.wf(),
    ensures
        forall|h: AccountId| s.spec_grantees(g).contains(h) <==> s.spec_has_permission(g, h),
        s.spec_grantees(g).no_duplicates(),
{
}

} // verus!
