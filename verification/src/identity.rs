//! The identity store: maps an identity key to the accounts linked to it.
//!
//! At most two accounts may ever be linked to one identity key, and when two
//! are linked their roles differ. Each entry keeps its linked accounts in
//! insertion order together with the role each was linked under, which is
//! what lets the store enforce the one-account-per-role rule by itself.

use vstd::prelude::*;
use crate::types::{AccountId, Role};
use crate::errors::IdentityError;
use crate::assoc::{
    assoc_find,
    assoc_keys_distinct,
    lemma_assoc_find_first,
    lemma_assoc_find_absent,
    lemma_assoc_find_push,
    lemma_assoc_find_update,
};

verus! {

/// One identity key with the accounts linked to it, oldest first.
pub struct IdentityEntry {
    pub key: String,
    pub slots: Vec<(AccountId, Role)>,
}

/// The entries as an association sequence from key characters to slots.
pub open spec fn ident_view(s: Seq<IdentityEntry>) -> Seq<(Seq<char>, Seq<(AccountId, Role)>)> {
    s.map_values(|e: IdentityEntry| (e.key@, e.slots@))
}

pub struct IdentityStore {
    pub entries: Vec<IdentityEntry>,
}

impl IdentityStore {
    /// The accounts linked to `k` with their roles, in insertion order.
    pub open spec fn spec_linked(self, k: Seq<char>) -> Seq<(AccountId, Role)> {
        match assoc_find(ident_view(self.entries@), k) {
            Some(sl) => sl,
            None => Seq::empty(),
        }
    }

    /// The accounts linked to `k`, in insertion order.
    pub open spec fn spec_accounts_for(self, k: Seq<char>) -> Seq<AccountId> {
        self.spec_linked(k).map_values(|p: (AccountId, Role)| p.0)
    }

    /// Whether some account linked to `k` was linked under `role`.
    pub open spec fn spec_has_role(self, k: Seq<char>, role: Role) -> bool {
        exists|i: int| 0 <= i < self.spec_linked(k).len() && self.spec_linked(k)[i].1 == role
    }

    /// The outcome of linking one more account to `k` under `role`: a full
    /// key is exhausted, a role already taken is a duplicate, anything else
    /// succeeds.
    pub open spec fn spec_link_result(self, k: Seq<char>, role: Role) -> Result<
        (),
        IdentityError,
    > {
        if self.spec_linked(k).len() >= 2 {
            Err(IdentityError::IdentityExhausted)
        } else if self.spec_has_role(k, role) {
            Err(IdentityError::DuplicateRole)
        } else {
            Ok(())
        }
    }

    /// Entry keys are distinct, every entry holds one or two linked
    /// accounts, and two accounts linked to one key hold different roles.
    pub open spec fn wf(self) -> bool {
        assoc_keys_distinct(ident_view(self.entries@)) && (forall|i: int|
            0 <= i < self.entries@.len() ==> {
                &&& 1 <= (#[trigger] self.entries@[i]).slots@.len() <= 2
                &&& self.entries@[i].slots@.len() == 2 ==> self.entries@[i].slots@[0].1
                    != self.entries@[i].slots@[1].1
            })
    }

    /// An empty store: no account is linked to any key.
    pub fn new() -> (r: IdentityStore)
        ensures
            r.wf(),
            forall|k: Seq<char>| r.spec_linked(k) == Seq::<(AccountId, Role)>::empty(),
    {
        let r = IdentityStore { entries: Vec::new() };
        proof {
            assert(ident_view(r.entries@) =~= Seq::<(Seq<char>, Seq<(AccountId, Role)>)>::empty());
        }
        r
    }

    /// The index of the entry for `key`, scanning from the front.
    fn find_index(&self, key: &String) -> (r: Option<usize>)
        ensures
            match r {
                Some(i) => 0 <= i < self.entries@.len() && self.entries@[i as int].key@ == key@
                    && forall|j: int| 0 <= j < i ==> self.entries@[j].key@ != key@,
                None => forall|j: int| 0 <= j < self.entries@.len() ==> self.entries@[j].key@
                    != key@,
            },
    {
        let mut i: usize = 0;
        while i < self.entries.len()
            invariant
                i <= self.entries@.len(),
                forall|j: int| 0 <= j < i ==> self.entries@[j].key@ != key@,
            decreases self.entries@.len() - i,
        {
            if self.entries[i].key == *key {
                return Some(i);
            }
            i += 1;
        }
        None
    }

    /// Link `account` to `key` under `role`.
    ///
    /// Fails with `IdentityExhausted` when two accounts are already linked
    /// to `key`, and with `DuplicateRole` when an account already linked to
    /// `key` was linked under the same role. On success the account is
    /// appended to the key's slots; on failure nothing changes.
    pub fn link(&mut self, key: &String, account: AccountId, role: Role) -> (r: Result<
        (),
        IdentityError,
    >)
        requires
            old(self).wf(),
        ensures
            final(self).wf(),
            r == old(self).spec_link_result(key@, role),
            r is Ok ==> final(self).spec_linked(key@) == old(self).spec_linked(key@).push(
                (account, role),
            ) && (forall|k2: Seq<char>|
                k2 != key@ ==> final(self).spec_linked(k2) == old(self).spec_linked(k2)),
            r is Err ==> *final(self) == *old(self),
    {
        let ghost v = ident_view(self.entries@);
        match self.find_index(key) {
            Some(i) => {
                proof {
                    assert(v[i as int] == (self.entries@[i as int].key@,
                        self.entries@[i as int].slots@));
                    assert forall|j: int| 0 <= j < i implies (#[trigger] v[j]).0 != key@ by {
                        assert(v[j] == (self.entries@[j].key@, self.entries@[j].slots@));
                    }
                    lemma_assoc_find_first(v, key@, i as int);
                    assert(old(self).spec_linked(key@) == self.entries@[i as int].slots@);
                }
                if self.entries[i].slots.len() >= 2 {
                    return Err(IdentityError::IdentityExhausted);
                }
                let existing = self.entries[i].slots[0];
                if existing.1 == role {
                    proof {
                        assert(old(self).spec_has_role(key@, role));
                    }
                    return Err(IdentityError::DuplicateRole);
                }
                proof {
                    assert forall|j: int|
                        0 <= j < old(self).spec_linked(key@).len() implies old(self).spec_linked(
                        key@,
                    )[j].1 != role by {}
                }
                let ghost old_entries = self.entries@;
                let ghost old_slots = self.entries@[i as int].slots@;
                self.entries[i].slots.push((account, role));
                proof {
                    assert(self.entries@ =~= old_entries.update(
                        i as int,
                        self.entries@[i as int],
                    ));
                    assert(self.entries@[i as int].key@ == key@);
                    assert(self.entries@[i as int].slots@ == old_slots.push((account, role)));
                    assert(ident_view(self.entries@) =~= v.update(
                        i as int,
                        (key@, old_slots.push((account, role))),
                    ));
                    assert(v[i as int].0 == key@);
                    assert forall|k2: Seq<char>| final(self).spec_linked(k2) == (if k2 == key@ {
                        old_slots.push((account, role))
                    } else {
                        old(self).spec_linked(k2)
                    }) by {
                        lemma_assoc_find_update(v, i as int, old_slots.push((account, role)), k2);
                    }
                }
                Ok(())
            },
            None => {
                proof {
                    assert forall|j: int| 0 <= j < v.len() implies (#[trigger] v[j]).0 != key@ by {
                        assert(v[j] == (self.entries@[j].key@, self.entries@[j].slots@));
                    }
                    lemma_assoc_find_absent(v, key@);
                    assert(old(self).spec_linked(key@) =~= Seq::<(AccountId, Role)>::empty());
                }
                let mut slots: Vec<(AccountId, Role)> = Vec::new();
                slots.push((account, role));
                let ghost new_slots = slots@;
                self.entries.push(IdentityEntry { key: key.clone(), slots });
                proof {
                    assert(self.entries@[self.entries@.len() - 1].key@ == key@);
                    assert(ident_view(self.entries@) =~= v.push((key@, new_slots)));
                    assert forall|k2: Seq<char>| final(self).spec_linked(k2) == (if k2 == key@ {
                        new_slots
                    } else {
                        old(self).spec_linked(k2)
                    }) by {
                        lemma_assoc_find_push(v, key@, new_slots, k2);
                    }
                    assert(final(self).spec_linked(key@) =~= old(self).spec_linked(key@).push(
                        (account, role),
                    ));
                }
                Ok(())
            },
        }
    }

    /// The accounts linked to `key`, in insertion order.
    pub fn accounts_for(&self, key: &String) -> (r: Vec<AccountId>)
        ensures
            r@ == self.spec_accounts_for(key@),
    {
        let ghost v = ident_view(self.entries@);
        let mut out: Vec<AccountId> = Vec::new();
        match self.find_index(key) {
            Some(i) => {
                proof {
                    assert(v[i as int] == (self.entries@[i as int].key@,
                        self.entries@[i as int].slots@));
                    assert forall|j: int| 0 <= j < i implies (#[trigger] v[j]).0 != key@ by {
                        assert(v[j] == (self.entries@[j].key@, self.entries@[j].slots@));
                    }
                    lemma_assoc_find_first(v, key@, i as int);
                }
                let n = self.entries[i].slots.len();
                let mut j: usize = 0;
                while j < n
                    invariant
                        0 <= i < self.entries@.len(),
                        n == self.entries@[i as int].slots@.len(),
                        j <= n,
                        out@ =~= self.entries@[i as int].slots@.take(j as int).map_values(
                            |p: (AccountId, Role)| p.0,
                        ),
                    decreases n - j,
                {
                    out.push(self.entries[i].slots[j].0);
                    j += 1;
                    proof {
                        assert(self.entries@[i as int].slots@.take(j as int) =~= self.entries@[i
                            as int].slots@.take(j - 1).push(self.entries@[i as int].slots@[j - 1]));
                    }
                }
                proof {
                    assert(self.entries@[i as int].slots@.take(n as int) =~= self.entries@[i
                        as int].slots@);
                    assert(out@ =~= self.spec_accounts_for(key@));
                }
            },
            None => {
                proof {
                    assert forall|j: int| 0 <= j < v.len() implies (#[trigger] v[j]).0 != key@ by {
                        assert(v[j] == (self.entries@[j].key@, self.entries@[j].slots@));
                    }
                    lemma_assoc_find_absent(v, key@);
                    assert(out@ =~= self.spec_accounts_for(key@));
                }
            },
        }
        out
    }

    /// At most two accounts are ever linked to one identity key, and when
    /// two are linked their roles differ.
    pub proof fn lemma_capacity(self, k: Seq<char>)
        requires
            self.wf(),
        ensures
            self.spec_linked(k).len() <= 2,
            self.spec_linked(k).len() == 2 ==> self.spec_linked(k)[0].1 != self.spec_linked(k)[1].1,
            self.spec_accounts_for(k).len() <= 2,
    {
        let v = ident_view(self.entries@);
        if assoc_find(v, k) is Some {
            let i = crate::assoc::lemma_assoc_find_index(v, k);
            assert(v[i] == (self.entries@[i].key@, self.entries@[i].slots@));
        }
    }
}

} // verus!
