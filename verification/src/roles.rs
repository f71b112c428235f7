//! The role registry: maps an account identifier to its role tag.
//!
//! Setting a role is an unconditional upsert — this store is intentionally
//! permissive, and it is the identity store, not the role registry, that
//! enforces the one-role-per-identity-key rule.

use vstd::prelude::*;
use crate::types::{AccountId, Role};
use crate::assoc::{
    assoc_find,
    assoc_keys_distinct,
    lemma_assoc_find_first,
    lemma_assoc_find_absent,
    lemma_assoc_find_push,
    lemma_assoc_find_update,
};

verus! {

pub struct RoleRegistry {
    pub entries: Vec<(AccountId, Role)>,
}

impl RoleRegistry {
    /// The role recorded for `a`, if any.
    pub open spec fn spec_role_of(self, a: AccountId) -> Option<Role> {
        assoc_find(self.entries@, a)
    }

    /// Each account has at most one entry.
    pub open spec fn wf(self) -> bool {
        assoc_keys_distinct(self.entries@)
    }

    /// An empty registry: no account has a role.
    pub fn new() -> (r: RoleRegistry)
        ensures
            r.wf(),
            forall|a: AccountId| r.spec_role_of(a) is None,
    {
        RoleRegistry { entries: Vec::new() }
    }

    /// The index of the entry for `a`, scanning from the front.
    fn find_index(&self, a: AccountId) -> (r: Option<usize>)
        ensures
            match r {
                Some(i) => 0 <= i < self.entries@.len() && self.entries@[i as int].0 == a
                    && forall|j: int| 0 <= j < i ==> self.entries@[j].0 != a,
                None => forall|j: int| 0 <= j < self.entries@.len() ==> self.entries@[j].0 != a,
            },
    {
        let mut i: usize = 0;
        while i < self.entries.len()
            invariant
                i <= self.entries@.len(),
                forall|j: int| 0 <= j < i ==> self.entries@[j].0 != a,
            decreases self.entries@.len() - i,
        {
            if self.entries[i].0 == a {
                return Some(i);
            }
            i += 1;
        }
        None
    }

    /// Record `role` for `a`, overwriting any prior role. Always succeeds.
    pub fn set_role(&mut self, a: AccountId, role: Role)
        requires
            old(self).wf(),
        ensures
            final(self).wf(),
            final(self).spec_role_of(a) == Some(role),
            forall|b: AccountId| b != a ==> final(self).spec_role_of(b) == old(
                self,
            ).spec_role_of(b),
    {
        match self.find_index(a) {
            Some(i) => {
                self.entries[i] = (a, role);
                proof {
                    assert forall|b: AccountId| final(self).spec_role_of(b) == (if b == a {
                        Some(role)
                    } else {
                        old(self).spec_role_of(b)
                    }) by {
                        lemma_assoc_find_update(old(self).entries@, i as int, role, b);
                    }
                    assert(assoc_keys_distinct(self.entries@));
                }
            },
            None => {
                self.entries.push((a, role));
                proof {
                    lemma_assoc_find_absent(old(self).entries@, a);
                    assert forall|b: AccountId| final(self).spec_role_of(b) == (if b == a {
                        Some(role)
                    } else {
                        old(self).spec_role_of(b)
                    }) by {
                        lemma_assoc_find_push(old(self).entries@, a, role, b);
                    }
                    assert(assoc_keys_distinct(self.entries@));
                }
            },
        }
    }

    /// The role recorded for `a`.
    pub fn role_of(&self, a: AccountId) -> (r: Option<Role>)
        ensures
            r == self.spec_role_of(a),
    {
        match self.find_index(a) {
            Some(i) => {
                proof {
                    lemma_assoc_find_first(self.entries@, a, i as int);
                }
                Some(self.entries[i].1)
            },
            None => {
                proof {
                    lemma_assoc_find_absent(self.entries@, a);
                }
                None
            },
        }
    }
}

} // verus!
