//! The user directory: maps an account identifier to its profile attributes,
//! validated on write.
//!
//! A profile is valid when its name and lastname are 1 to 12 characters
//! long, its identity key is exactly 8 characters, and its email is
//! non-empty, at most 20 characters, and contains an `'@'`. The fields are
//! checked in that fixed order, and the first failing rule determines the
//! reported error.

use vstd::prelude::*;
use crate::types::{AccountId, UserInfo};
use crate::errors::ValidationError;
use crate::assoc::{
    assoc_find,
    assoc_keys_distinct,
    lemma_assoc_find_first,
    lemma_assoc_find_absent,
    lemma_assoc_find_push,
    lemma_assoc_find_update,
    lemma_assoc_find_index,
};

verus! {

/// A valid personal name: 1 to 12 characters.
pub open spec fn name_valid(s: Seq<char>) -> bool {
    1 <= s.len() <= 12
}

/// A valid identity key: exactly 8 characters.
pub open spec fn identity_key_valid(s: Seq<char>) -> bool {
    s.len() == 8
}

/// A valid email: non-empty, at most 20 characters, and containing `'@'`.
pub open spec fn email_valid(s: Seq<char>) -> bool {
    1 <= s.len() <= 20 && (exists|i: int| 0 <= i < s.len() && s[i] == '@')
}

/// Whether every field of `p` is valid.
pub open spec fn profile_valid(p: UserInfo) -> bool {
    name_valid(p.name@) && name_valid(p.lastname@) && identity_key_valid(p.dni@) && email_valid(
        p.email@,
    )
}

/// The outcome of validating `p`: the first failing rule, in the fixed
/// order name, lastname, identity key, email, determines the error.
pub open spec fn spec_validate(p: UserInfo) -> Result<(), ValidationError> {
    if !name_valid(p.name@) {
        Err(ValidationError::NameInvalid)
    } else if !name_valid(p.lastname@) {
        Err(ValidationError::LastnameInvalid)
    } else if !identity_key_valid(p.dni@) {
        Err(ValidationError::IdentityKeyInvalid)
    } else if !email_valid(p.email@) {
        Err(ValidationError::EmailInvalid)
    } else {
        Ok(())
    }
}

/// Whether `s` contains the character `'@'`.
fn contains_at_sign(s: &str) -> (r: bool)
    ensures
        r == exists|i: int| 0 <= i < s@.len() && s@[i] == '@',
{
    let n = s.unicode_len();
    let mut i: usize = 0;
    while i < n
        invariant
            n == s@.len(),
            i <= n,
            forall|j: int| 0 <= j < i ==> s@[j] != '@',
        decreases n - i,
    {
        if s.get_char(i) == '@' {
            return true;
        }
        i += 1;
    }
    false
}

/// Check every field of `p` against the validation rules, reporting the
/// first failure in the fixed field order.
pub fn validate(p: &UserInfo) -> (r: Result<(), ValidationError>)
    ensures
        r == spec_validate(*p),
        r is Ok <==> profile_valid(*p),
{
    let name_len = p.name.as_str().unicode_len();
    if name_len == 0 || name_len > 12 {
        return Err(ValidationError::NameInvalid);
    }
    let lastname_len = p.lastname.as_str().unicode_len();
    if lastname_len == 0 || lastname_len > 12 {
        return Err(ValidationError::LastnameInvalid);
    }
    let dni_len = p.dni.as_str().unicode_len();
    if dni_len != 8 {
        return Err(ValidationError::IdentityKeyInvalid);
    }
    let email_len = p.email.as_str().unicode_len();
    if email_len == 0 || email_len > 20 || !contains_at_sign(p.email.as_str()) {
        return Err(ValidationError::EmailInvalid);
    }
    Ok(())
}

pub struct UserDirectory {
    pub entries: Vec<(AccountId, UserInfo)>,
}

impl UserDirectory {
    /// The profile stored for `a`, if any.
    pub open spec fn spec_profile_of(self, a: AccountId) -> Option<UserInfo> {
        assoc_find(self.entries@, a)
    }

    /// Whether a profile is stored for `a`.
    pub open spec fn spec_has_account(self, a: AccountId) -> bool {
        self.spec_profile_of(a) is Some
    }

    /// Each account has at most one entry, and every stored profile is valid.
    pub open spec fn wf(self) -> bool {
        assoc_keys_distinct(self.entries@) && (forall|i: int|
            0 <= i < self.entries@.len() ==> profile_valid(#[trigger] self.entries@[i].1))
    }

    /// An empty directory: no account has a profile.
    pub fn new() -> (r: UserDirectory)
        ensures
            r.wf(),
            forall|a: AccountId| r.spec_profile_of(a) is None,
    {
        UserDirectory { entries: Vec::new() }
    }

    /// The index of the entry for `a`, scanning from the front.
    fn find_index(&self, a: AccountId) -> (r: Option<usize>)
        ensures
            match r {
                Some(i) => 0 <= i < self.entries@.len() && self.entries@[i as int].0 == a
                    && forall|j: int| 0 <= j < i ==> self.entries@[j].0 != a,
                None => forall|j: int| 0 <= j < self.entries@.len() ==> self.entries@[j].0 != a,
            },
    {
        let mut i: usize = 0;
        while i < self.entries.len()
            invariant
                i <= self.entries@.len(),
                forall|j: int| 0 <= j < i ==> self.entries@[j].0 != a,
            decreases self.entries@.len() - i,
    {
            if self.entries[i].0 == a {
                return Some(i);
            }
            i += 1;
        }
        None
    }

    /// Store the already-validated profile `p` under `a`, replacing any
    /// prior profile for that account.
    pub fn insert(&mut self, a: AccountId, p: UserInfo)
        requires
            old(self).wf(),
            profile_valid(p),
        ensures
            final(self).wf(),
            final(self).spec_profile_of(a) == Some(p),
            forall|b: AccountId| b != a ==> final(self).spec_profile_of(b) == old(
                self,
            ).spec_profile_of(b),
    {
        match self.find_index(a) {
            Some(i) => {
                self.entries[i] = (a, p);
                proof {
                    assert forall|b: AccountId| final(self).spec_profile_of(b) == (if b == a {
                        Some(p)
                    } else {
                        old(self).spec_profile_of(b)
                    }) by {
                        lemma_assoc_find_update(old(self).entries@, i as int, p, b);
                    }
                    assert(assoc_keys_distinct(self.entries@));
                }
            },
            None => {
                self.entries.push((a, p));
                proof {
                    lemma_assoc_find_absent(old(self).entries@, a);
                    assert forall|b: AccountId| final(self).spec_profile_of(b) == (if b == a {
                        Some(p)
                    } else {
                        old(self).spec_profile_of(b)
                    }) by {
                        lemma_assoc_find_push(old(self).entries@, a, p, b);
                    }
                    assert(assoc_keys_distinct(self.entries@));
                }
            },
        }
    }

    /// Validate `p` and, only on success, store it under `a` (idempotently
    /// overwriting any prior profile). On failure nothing is written.
    pub fn register(&mut self, a: AccountId, p: UserInfo) -> (r: Result<(), ValidationError>)
        requires
            old(self).wf(),
        ensures
            final(self).wf(),
            r == spec_validate(p),
            r is Ok ==> final(self).spec_profile_of(a) == Some(p) && forall|b: AccountId|
                b != a ==> final(self).spec_profile_of(b) == old(self).spec_profile_of(b),
            r is Err ==> *final(self) == *old(self),
    {
        match validate(&p) {
            Ok(()) => {
                self.insert(a, p);
                Ok(())
            },
            Err(e) => Err(e),
        }
    }

    /// The profile stored for `a`.
    pub fn profile_of(&self, a: AccountId) -> (r: Option<UserInfo>)
        ensures
            r == self.spec_profile_of(a),
    {
        match self.find_index(a) {
            Some(i) => {
                proof {
                    lemma_assoc_find_first(self.entries@, a, i as int);
                }
                Some(self.entries[i].1.clone())
            },
            None => {
                proof {
                    lemma_assoc_find_absent(self.entries@, a);
                }
                None
            },
        }
    }

    /// Whether a profile is stored for `a`.
    pub fn has_account(&self, a: AccountId) -> (r: bool)
        ensures
            r == self.spec_has_account(a),
    {
        match self.find_index(a) {
            Some(i) => {
                proof {
                    lemma_assoc_find_first(self.entries@, a, i as int);
                }
                true
            },
            None => {
                proof {
                    lemma_assoc_find_absent(self.entries@, a);
                }
                false
            },
        }
    }

    /// Every profile a well-formed directory stores is valid.
    pub proof fn lemma_stored_profiles_valid(self, a: AccountId)
        requires
            self.wf(),
            self.spec_profile_of(a) is Some,
        ensures
            profile_valid(self.spec_profile_of(a).unwrap()),
    {
        let i = lemma_assoc_find_index(self.entries@, a);
    }
}

} // verus!
