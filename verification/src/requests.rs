//! The request queue: for each subject, the ordered list of requester
//! accounts awaiting a decision.
//!
//! For one (subject, requester) pair the life cycle is: no request, then
//! pending after an enqueue, then back to no request once the entry is
//! consumed by an approval or a denial. A pending pair cannot be enqueued a
//! second time, so each subject's queue is duplicate-free.

use vstd::prelude::*;
use crate::types::AccountId;
use crate::errors::RequestError;
use crate::assoc::{
    assoc_find,
    assoc_keys_distinct,
    lemma_assoc_find_first,
    lemma_assoc_find_absent,
    lemma_assoc_find_push,
    lemma_assoc_find_update,
};

verus! {

pub struct RequestQueue {
    pub entries: Vec<(AccountId, Vec<AccountId>)>,
}

impl RequestQueue {
    /// The requesters pending a decision by `subject`, oldest first.
    pub open spec fn spec_pending(self, subject: AccountId) -> Seq<AccountId> {
        match assoc_find(self.entries@, subject) {
            Some(l) => l@,
            None => Seq::empty(),
        }
    }

    /// Subjects are unique and each queue is duplicate-free.
    pub open spec fn wf(self) -> bool {
        assoc_keys_distinct(self.entries@) && (forall|s: AccountId|
            (#[trigger] self.spec_pending(s)).no_duplicates())
    }

    /// An empty queue: nothing is pending for any subject.
    pub fn new() -> (r: RequestQueue)
        ensures
            r.wf(),
            forall|s: AccountId| r.spec_pending(s) == Seq::<AccountId>::empty(),
    {
        RequestQueue { entries: Vec::new() }
    }

    /// The index of the entry for `subject`, scanning from the front.
    fn find_index(&self, subject: AccountId) -> (r: Option<usize>)
        ensures
            match r {
                Some(i) => 0 <= i < self.entries@.len() && self.entries@[i as int].0 == subject
                    && forall|j: int| 0 <= j < i ==> self.entries@[j].0 != subject,
                None => forall|j: int| 0 <= j < self.entries@.len() ==> self.entries@[j].0
                    != subject,
            },
    {
        let mut i: usize = 0;
        while i < self.entries.len()
            invariant
                i <= self.entries@.len(),
                forall|j: int| 0 <= j < i ==> self.entries@[j].0 != subject,
            decreases self.entries@.len() - i,
        {
            if self.entries[i].0 == subject {
                return Some(i);
            }
            i += 1;
        }
        None
    }

    /// The position of the first occurrence of `x` in `l`.
    fn find_pos(l: &Vec<AccountId>, x: AccountId) -> (r: Option<usize>)
        ensures
            match r {
                Some(i) => 0 <= i < l@.len() && l@[i as int] == x && forall|j: int|
                    0 <= j < i ==> l@[j] != x,
                None => !l@.contains(x),
            },
    {
        let mut i: usize = 0;
        while i < l.len()
            invariant
                i <= l@.len(),
                forall|j: int| 0 <= j < i ==> l@[j] != x,
            decreases l@.len() - i,
        {
            if l[i] == x {
                return Some(i);
            }
            i += 1;
        }
        None
    }

    /// The requesters pending a decision by `subject`, oldest first.
    pub fn pending_for(&self, subject: AccountId) -> (r: Vec<AccountId>)
        ensures
            r@ == self.spec_pending(subject),
    {
        let mut out: Vec<AccountId> = Vec::new();
        match self.find_index(subject) {
            Some(i) => {
                proof {
                    lemma_assoc_find_first(self.entries@, subject, i as int);
                }
                let n = self.entries[i].1.len();
                let mut j: usize = 0;
                while j < n
                    invariant
                        0 <= i < self.entries@.len(),
                        n == self.entries@[i as int].1@.len(),
                        j <= n,
                        out@ =~= self.entries@[i as int].1@.take(j as int),
                    decreases n - j,
                {
                    out.push(self.entries[i].1[j]);
                    j += 1;
                    proof {
                        assert(self.entries@[i as int].1@.take(j as int) =~= self.entries@[i
                            as int].1@.take(j - 1).push(self.entries@[i as int].1@[j - 1]));
                    }
                }
                proof {
                    assert(out@ =~= self.entries@[i as int].1@);
                }
            },
            None => {
                proof {
                    lemma_assoc_find_absent(self.entries@, subject);
                }
            },
        }
        out
    }

    /// Append `requester` to `subject`'s queue.
    ///
    /// Fails with `DuplicateRequest`, changing nothing, when the pair is
    /// already pending.
    pub fn enqueue(&mut self, subject: AccountId, requester: AccountId) -> (r: Result<
        (),
        RequestError,
    >)
        requires
            old(self).wf(),
        ensures
            final(self).wf(),
            old(self).spec_pending(subject).contains(requester) ==> r == Err::<(), RequestError>(
                RequestError::DuplicateRequest,
            ) && *final(self) == *old(self),
            !old(self).spec_pending(subject).contains(requester) ==> r == Ok::<(), RequestError>(
                (),
            ) && final(self).spec_pending(subject) == old(self).spec_pending(subject).push(
                requester,
            ) && (forall|s2: AccountId|
                s2 != subject ==> final(self).spec_pending(s2) == old(self).spec_pending(s2)),
    {
        match self.find_index(subject) {
            Some(i) => {
                proof {
                    lemma_assoc_find_first(self.entries@, subject, i as int);
                }
                match Self::find_pos(&self.entries[i].1, requester) {
                    Some(_) => Err(RequestError::DuplicateRequest),
                    None => {
                        let ghost entries0 = self.entries@;
                        let ghost oldlist = self.entries@[i as int].1@;
                        self.entries[i].1.push(requester);
                        proof {
                            let newlist = self.entries@[i as int].1;
                            assert(self.entries@ =~= entries0.update(
                                i as int,
                                (subject, newlist),
                            ));
                            assert forall|s2: AccountId|
                                assoc_find(self.entries@, s2) == (if s2 == subject {
                                    Some(newlist)
                                } else {
                                    assoc_find(entries0, s2)
                                }) by {
                                lemma_assoc_find_update(entries0, i as int, newlist, s2);
                            }
                            assert(old(self).spec_pending(subject) == oldlist);
                            lemma_nodup_push(oldlist, requester);
                            assert(final(self).spec_pending(subject) == oldlist.push(requester));
                            assert forall|x: int|
                                0 <= x < self.entries@.len() implies (#[trigger] self.entries@[x]).0
                                == entries0[x].0 by {}
                            assert(assoc_keys_distinct(self.entries@));
                            assert forall|s2: AccountId|
                                (#[trigger] final(self).spec_pending(s2)).no_duplicates() by {
                                if s2 != subject {
                                    assert(final(self).spec_pending(s2) == old(self).spec_pending(
                                        s2,
                                    ));
                                }
                            }
                        }
                        Ok(())
                    },
                }
            },
            None => {
                proof {
                    lemma_assoc_find_absent(self.entries@, subject);
                }
                let ghost entries0 = self.entries@;
                let mut l: Vec<AccountId> = Vec::new();
                l.push(requester);
                self.entries.push((subject, l));
                proof {
                    let newlist = self.entries@[self.entries@.len() - 1].1;
                    assert forall|s2: AccountId|
                        assoc_find(self.entries@, s2) == (if s2 == subject {
                            Some(newlist)
                        } else {
                            assoc_find(entries0, s2)
                        }) by {
                        lemma_assoc_find_push(entries0, subject, newlist, s2);
                    }
                    assert(final(self).spec_pending(subject) =~= old(self).spec_pending(
                        subject,
                    ).push(requester));
                    assert(old(self).spec_pending(subject) == Seq::<AccountId>::empty());
                    lemma_nodup_push(Seq::<AccountId>::empty(), requester);
                    assert forall|s2: AccountId|
                        (#[trigger] final(self).spec_pending(s2)).no_duplicates() by {
                        if s2 != subject {
                            assert(final(self).spec_pending(s2) == old(self).spec_pending(s2));
                        }
                    }
                }
                Ok(())
            },
        }
    }

    /// Remove `requester` from `subject`'s queue, consuming the pending
    /// entry.
    ///
    /// Fails with `NoPendingRequest`, changing nothing, when the pair is
    /// not pending.
    pub fn remove(&mut self, subject: AccountId, requester: AccountId) -> (r: Result<
        (),
        RequestError,
    >)
        requires
            old(self).wf(),
        ensures
            final(self).wf(),
            !old(self).spec_pending(subject).contains(requester) ==> r == Err::<(), RequestError>(
                RequestError::NoPendingRequest,
            ) && *final(self) == *old(self),
            old(self).spec_pending(subject).contains(requester) ==> r == Ok::<(), RequestError>(
                (),
            ) && final(self).spec_pending(subject) == old(self).spec_pending(
                subject,
            ).remove_value(requester) && final(self).spec_pending(subject).len() == old(
                self,
            ).spec_pending(subject).len() - 1 && !final(self).spec_pending(subject).contains(
                requester,
            ) && (forall|s2: AccountId|
                s2 != subject ==> final(self).spec_pending(s2) == old(self).spec_pending(s2)),
    {
        match self.find_index(subject) {
            Some(i) => {
                proof {
                    lemma_assoc_find_first(self.entries@, subject, i as int);
                }
                match Self::find_pos(&self.entries[i].1, requester) {
                    Some(pos) => {
                        let ghost entries0 = self.entries@;
                        let ghost oldlist = self.entries@[i as int].1@;
                        self.entries[i].1.remove(pos);
                        proof {
                            let newlist = self.entries@[i as int].1;
                            assert(self.entries@ =~= entries0.update(
                                i as int,
                                (subject, newlist),
                            ));
                            assert forall|s2: AccountId|
                                assoc_find(self.entries@, s2) == (if s2 == subject {
                                    Some(newlist)
                                } else {
                                    assoc_find(entries0, s2)
                                }) by {
                                lemma_assoc_find_update(entries0, i as int, newlist, s2);
                            }
                            assert(old(self).spec_pending(subject) == oldlist);
                            oldlist.index_of_first_ensures(requester);
                            assert(oldlist.index_of_first(requester) == Some(pos as int));
                            lemma_nodup_remove(oldlist, pos as int);
                            assert(final(self).spec_pending(subject) == oldlist.remove(
                                pos as int,
                            ));
                            assert forall|x: int|
                                0 <= x < self.entries@.len() implies (#[trigger] self.entries@[x]).0
                                == entries0[x].0 by {}
                            assert(assoc_keys_distinct(self.entries@));
                            assert forall|s2: AccountId|
                                (#[trigger] final(self).spec_pending(s2)).no_duplicates() by {
                                if s2 != subject {
                                    assert(final(self).spec_pending(s2) == old(self).spec_pending(
                                        s2,
                                    ));
                                }
                            }
                        }
                        Ok(())
                    },
                    None => Err(RequestError::NoPendingRequest),
                }
            },
            None => {
                proof {
                    lemma_assoc_find_absent(self.entries@, subject);
                }
                Err(RequestError::NoPendingRequest)
            },
        }
    }
}

/// Pushing a value that does not occur keeps a sequence duplicate-free.
proof fn lemma_nodup_push(l: Seq<AccountId>, x: AccountId)
    requires
        l.no_duplicates(),
        !l.contains(x),
    ensures
        l.push(x).no_duplicates(),
{
    let n = l.push(x);
    assert forall|i: int, j: int| 0 <= i < j < n.len() implies n[i] != n[j] by {
        if j < n.len() - 1 {
            assert(n[i] == l[i] && n[j] == l[j]);
        } else {
            assert(n[j] == x && n[i] == l[i]);
        }
    }
}

/// Removing one position keeps a sequence duplicate-free, and removes the
/// value entirely when it occurred only there.
proof fn lemma_nodup_remove(l: Seq<AccountId>, pos: int)
    requires
        l.no_duplicates(),
        0 <= pos < l.len(),
    ensures
        l.remove(pos).no_duplicates(),
        !l.remove(pos).contains(l[pos]),
{
    let n = l.remove(pos);
    l.remove_ensures(pos);
    assert forall|i: int, j: int| 0 <= i < j < n.len() implies n[i] != n[j] by {
        let oi: int = if i < pos {
            i
        } else {
            i + 1
        };
        let oj: int = if j < pos {
            j
        } else {
            j + 1
        };
        assert(n[i] == l[oi] && n[j] == l[oj]);
    }
    assert forall|i: int| 0 <= i < n.len() implies n[i] != l[pos] by {
        let oi: int = if i < pos {
            i
        } else {
            i + 1
        };
        assert(n[i] == l[oi]);
    }
}

} // verus!
