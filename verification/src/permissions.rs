//! The permission graph: a boolean consent edge per ordered (granter,
//! grantee) pair, plus a reverse index from each granter to its active
//! grantees.
//!
//! A revoked edge is flipped to false, not deleted: the pair keeps its
//! entry, and the reverse index is what carries the active set. The
//! governing invariant is that the index for a granter holds exactly the
//! grantees whose edge from that granter is currently true, with no
//! duplicates.

use vstd::prelude::*;
use crate::types::AccountId;
use crate::errors::PermissionError;
use crate::assoc::{
    assoc_find,
    assoc_keys_distinct,
    lemma_assoc_find_first,
    lemma_assoc_find_absent,
    lemma_assoc_find_push,
    lemma_assoc_find_update,
};

verus! {

pub struct PermissionGraph {
    pub edges: Vec<((AccountId, AccountId), bool)>,
    pub index: Vec<(AccountId, Vec<AccountId>)>,
}

impl PermissionGraph {
    /// The recorded state of the consent edge from `g` to `h`: absent,
    /// active, or revoked.
    pub open spec fn spec_edge(self, g: AccountId, h: AccountId) -> Option<bool> {
        assoc_find(self.edges@, (g, h))
    }

    /// Whether the consent edge from `g` to `h` is currently active.
    pub open spec fn spec_has_permission(self, g: AccountId, h: AccountId) -> bool {
        self.spec_edge(g, h) == Some(true)
    }

    /// The reverse index for `g`: its active grantees, in grant order.
    pub open spec fn spec_grantees(self, g: AccountId) -> Seq<AccountId> {
        match assoc_find(self.index@, g) {
            Some(l) => l@,
            None => Seq::empty(),
        }
    }

    /// Edge pairs and index granters are unique, and each index list is
    /// exactly the duplicate-free set of grantees with an active edge.
    pub open spec fn wf(self) -> bool {
        &&& assoc_keys_distinct(self.edges@)
        &&& assoc_keys_distinct(self.index@)
        &&& forall|g: AccountId| (#[trigger] self.spec_grantees(g)).no_duplicates()
        &&& forall|g: AccountId, h: AccountId| #[trigger]
            self.spec_grantees(g).contains(h) <==> self.spec_has_permission(g, h)
    }

    /// An empty graph: no edge is active and every index is empty.
    pub fn new() -> (r: PermissionGraph)
        ensures
            r.wf(),
            forall|g: AccountId, h: AccountId| !r.spec_has_permission(g, h),
            forall|g: AccountId| r.spec_grantees(g) == Seq::<AccountId>::empty(),
    {
        PermissionGraph { edges: Vec::new(), index: Vec::new() }
    }

    /// The index of the edge entry for `(g, h)`, scanning from the front.
    fn find_edge_index(&self, g: AccountId, h: AccountId) -> (r: Option<usize>)
        ensures
            match r {
                Some(i) => 0 <= i < self.edges@.len() && self.edges@[i as int].0 == (g, h)
                    && forall|j: int| 0 <= j < i ==> self.edges@[j].0 != (g, h),
                None => forall|j: int| 0 <= j < self.edges@.len() ==> self.edges@[j].0 != (g, h),
            },
    {
        let mut i: usize = 0;
        while i < self.edges.len()
            invariant
                i <= self.edges@.len(),
                forall|j: int| 0 <= j < i ==> self.edges@[j].0 != (g, h),
            decreases self.edges@.len() - i,
        {
            if self.edges[i].0.0 == g && self.edges[i].0.1 == h {
                proof {
                    assert(self.edges@[i as int].0 == (g, h));
                }
                return Some(i);
            }
            i += 1;
        }
        None
    }

    /// The index of the reverse-index entry for `g`, scanning from the front.
    fn find_granter_index(&self, g: AccountId) -> (r: Option<usize>)
        ensures
            match r {
                Some(i) => 0 <= i < self.index@.len() && self.index@[i as int].0 == g && forall|
                    j: int,
                |
                    0 <= j < i ==> self.index@[j].0 != g,
                None => forall|j: int| 0 <= j < self.index@.len() ==> self.index@[j].0 != g,
            },
    {
        let mut i: usize = 0;
        while i < self.index.len()
            invariant
                i <= self.index@.len(),
                forall|j: int| 0 <= j < i ==> self.index@[j].0 != g,
            decreases self.index@.len() - i,
        {
            if self.index[i].0 == g {
                return Some(i);
            }
            i += 1;
        }
        None
    }

    /// Whether the consent edge from `g` to `h` is currently active.
    pub fn has_permission(&self, g: AccountId, h: AccountId) -> (r: bool)
        ensures
            r == self.spec_has_permission(g, h),
    {
        match self.find_edge_index(g, h) {
            Some(i) => {
                proof {
                    lemma_assoc_find_first(self.edges@, (g, h), i as int);
                }
                self.edges[i].1
            },
            None => {
                proof {
                    lemma_assoc_find_absent(self.edges@, (g, h));
                }
                false
            },
        }
    }

    /// The active grantees of `g`, in grant order.
    pub fn grantees_of(&self, g: AccountId) -> (r: Vec<AccountId>)
        ensures
            r@ == self.spec_grantees(g),
    {
        let mut out: Vec<AccountId> = Vec::new();
        match self.find_granter_index(g) {
            Some(i) => {
                proof {
                    lemma_assoc_find_first(self.index@, g, i as int);
                }
                let n = self.index[i].1.len();
                let mut j: usize = 0;
                while j < n
                    invariant
                        0 <= i < self.index@.len(),
                        n == self.index@[i as int].1@.len(),
                        j <= n,
                        out@ =~= self.index@[i as int].1@.take(j as int),
                    decreases n - j,
                {
                    out.push(self.index[i].1[j]);
                    j += 1;
                    proof {
                        assert(self.index@[i as int].1@.take(j as int) =~= self.index@[i
                            as int].1@.take(j - 1).push(self.index@[i as int].1@[j - 1]));
                    }
                }
                proof {
                    assert(out@ =~= self.index@[i as int].1@);
                }
            },
            None => {
                proof {
                    lemma_assoc_find_absent(self.index@, g);
                }
            },
        }
        out
    }

    /// Activate the consent edge from `granter` to `grantee`.
    ///
    /// Fails with `AlreadyGranted` when the edge is already active. On
    /// success the edge becomes active and `grantee` is appended to
    /// `granter`'s index; no other pair changes.
    pub fn grant(&mut self, granter: AccountId, grantee: AccountId) -> (r: Result<
        (),
        PermissionError,
    >)
        requires
            old(self).wf(),
        ensures
            final(self).wf(),
            old(self).spec_has_permission(granter, grantee) ==> r == Err::<(), PermissionError>(
                PermissionError::AlreadyGranted,
            ) && *final(self) == *old(self),
            !old(self).spec_has_permission(granter, grantee) ==> r == Ok::<(), PermissionError>(()) && (forall|
                g2: AccountId,
                h2: AccountId,
            |
                final(self).spec_has_permission(g2, h2) == (old(self).spec_has_permission(g2, h2)
                    || (g2 == granter && h2 == grantee))) && final(self).spec_grantees(granter)
                == old(self).spec_grantees(granter).push(grantee) && (forall|g2: AccountId|
                g2 != granter ==> final(self).spec_grantees(g2) == old(self).spec_grantees(g2)),
    {
        let ghost edges0 = self.edges@;
        let ghost index0 = self.index@;
        match self.find_edge_index(granter, grantee) {
            Some(i) => {
                proof {
                    lemma_assoc_find_first(edges0, (granter, grantee), i as int);
                }
                if self.edges[i].1 {
                    return Err(PermissionError::AlreadyGranted);
                }
                self.edges[i] = ((granter, grantee), true);
                proof {
                    assert forall|g2: AccountId, h2: AccountId|
                        assoc_find(self.edges@, (g2, h2)) == (if (g2, h2) == (granter, grantee) {
                            Some(true)
                        } else {
                            assoc_find(edges0, (g2, h2))
                        }) by {
                        lemma_assoc_find_update(edges0, i as int, true, (g2, h2));
                    }
                }
            },
            None => {
                proof {
                    lemma_assoc_find_absent(edges0, (granter, grantee));
                }
                self.edges.push(((granter, grantee), true));
                proof {
                    assert forall|g2: AccountId, h2: AccountId|
                        assoc_find(self.edges@, (g2, h2)) == (if (g2, h2) == (granter, grantee) {
                            Some(true)
                        } else {
                            assoc_find(edges0, (g2, h2))
                        }) by {
                        lemma_assoc_find_push(edges0, (granter, grantee), true, (g2, h2));
                    }
                }
            },
        }
        // The edge was inactive, so by the index invariant `grantee` is not
        // yet in `granter`'s list; append it.
        proof {
            assert(self.index@ == index0);
            assert(!old(self).spec_grantees(granter).contains(grantee));
        }
        match self.find_granter_index(granter) {
            Some(j) => {
                proof {
                    lemma_assoc_find_first(index0, granter, j as int);
                }
                self.index[j].1.push(grantee);
                proof {
                    let newlist = self.index@[j as int].1;
                    assert(self.index@ =~= index0.update(j as int, (granter, newlist)));
                    assert forall|g2: AccountId|
                        assoc_find(self.index@, g2) == (if g2 == granter {
                            Some(newlist)
                        } else {
                            assoc_find(index0, g2)
                        }) by {
                        lemma_assoc_find_update(index0, j as int, newlist, g2);
                    }
                }
            },
            None => {
                proof {
                    lemma_assoc_find_absent(index0, granter);
                }
                let mut l: Vec<AccountId> = Vec::new();
                l.push(grantee);
                self.index.push((granter, l));
                proof {
                    let newlist = self.index@[self.index@.len() - 1].1;
                    assert forall|g2: AccountId|
                        assoc_find(self.index@, g2) == (if g2 == granter {
                            Some(newlist)
                        } else {
                            assoc_find(index0, g2)
                        }) by {
                        lemma_assoc_find_push(index0, granter, newlist, g2);
                    }
                    assert(final(self).spec_grantees(granter) =~= old(self).spec_grantees(
                        granter,
                    ).push(grantee));
                }
            },
        }
        proof {
            assert(final(self).spec_grantees(granter) =~= old(self).spec_grantees(granter).push(
                grantee,
            ));
            lemma_wf_after_grant(*old(self), *final(self), granter, grantee);
        }
        Ok(())
    }

    /// Deactivate the consent edge from `granter` to `grantee`.
    ///
    /// Fails with `NotGranted` when the edge is not currently active. On
    /// success the edge is flipped to false and `grantee` is removed from
    /// `granter`'s index; no other pair changes.
    pub fn revoke(&mut self, granter: AccountId, grantee: AccountId) -> (r: Result<
        (),
        PermissionError,
    >)
        requires
            old(self).wf(),
        ensures
            final(self).wf(),
            !old(self).spec_has_permission(granter, grantee) ==> r == Err::<(), PermissionError>(
                PermissionError::NotGranted,
            ) && *final(self) == *old(self),
            old(self).spec_has_permission(granter, grantee) ==> r == Ok::<(), PermissionError>(()) && (forall|
                g2: AccountId,
                h2: AccountId,
            |
                final(self).spec_has_permission(g2, h2) == (old(self).spec_has_permission(g2, h2)
                    && !(g2 == granter && h2 == grantee))) && final(self).spec_grantees(granter)
                == old(self).spec_grantees(granter).remove_value(grantee) && (forall|
                g2: AccountId,
            |
                g2 != granter ==> final(self).spec_grantees(g2) == old(self).spec_grantees(g2)),
    {
        let ghost edges0 = self.edges@;
        let ghost index0 = self.index@;
        let i = match self.find_edge_index(granter, grantee) {
            Some(i) => {
                proof {
                    lemma_assoc_find_first(edges0, (granter, grantee), i as int);
                }
                if !self.edges[i].1 {
                    return Err(PermissionError::NotGranted);
                }
                i
            },
            None => {
                proof {
                    lemma_assoc_find_absent(edges0, (granter, grantee));
                }
                return Err(PermissionError::NotGranted);
            },
        };
        self.edges[i] = ((granter, grantee), false);
        proof {
            assert forall|g2: AccountId, h2: AccountId|
                assoc_find(self.edges@, (g2, h2)) == (if (g2, h2) == (granter, grantee) {
                    Some(false)
                } else {
                    assoc_find(edges0, (g2, h2))
                }) by {
                lemma_assoc_find_update(edges0, i as int, false, (g2, h2));
            }
            // The edge was active, so the index invariant puts `grantee` in
            // `granter`'s list.
            assert(old(self).spec_grantees(granter).contains(grantee));
        }
        match self.find_granter_index(granter) {
            Some(j) => {
                proof {
                    lemma_assoc_find_first(index0, granter, j as int);
                }
                let pos = match find_account_pos(&self.index[j].1, grantee) {
                    Some(pos) => pos,
                    None => {
                        proof {
                            assert(false);
                        }
                        return Err(PermissionError::NotGranted);
                    },
                };
                let ghost oldlist = self.index@[j as int].1@;
                self.index[j].1.remove(pos);
                proof {
                    let newlist = self.index@[j as int].1;
                    assert(self.index@ =~= index0.update(j as int, (granter, newlist)));
                    assert forall|g2: AccountId|
                        assoc_find(self.index@, g2) == (if g2 == granter {
                            Some(newlist)
                        } else {
                            assoc_find(index0, g2)
                        }) by {
                        lemma_assoc_find_update(index0, j as int, newlist, g2);
                    }
                    oldlist.index_of_first_ensures(grantee);
                    assert(oldlist.index_of_first(grantee) == Some(pos as int));
                    assert(final(self).spec_grantees(granter) == old(self).spec_grantees(
                        granter,
                    ).remove_value(grantee));
                }
            },
            None => {
                proof {
                    lemma_assoc_find_absent(index0, granter);
                    assert(false);
                }
                return Err(PermissionError::NotGranted);
            },
        }
        proof {
            lemma_wf_after_revoke(*old(self), *final(self), granter, grantee);
        }
        Ok(())
    }
}

/// The position of the first occurrence of `x` in `l`.
fn find_account_pos(l: &Vec<AccountId>, x: AccountId) -> (r: Option<usize>)
    ensures
        match r {
            Some(i) => 0 <= i < l@.len() && l@[i as int] == x && forall|j: int|
                0 <= j < i ==> l@[j] != x,
            None => !l@.contains(x),
        },
{
    let mut i: usize = 0;
    while i < l.len()
        invariant
            i <= l@.len(),
            forall|j: int| 0 <= j < i ==> l@[j] != x,
        decreases l@.len() - i,
    {
        if l[i] == x {
            return Some(i);
        }
        i += 1;
    }
    None
}

/// Re-establishes the graph invariant after a grant: the new state has the
/// `(granter, grantee)` edge active, all other edges as before, and the
/// grantee appended to the granter's index.
proof fn lemma_wf_after_grant(
    pre: PermissionGraph,
    post: PermissionGraph,
    granter: AccountId,
    grantee: AccountId,
)
    requires
        pre.wf(),
        !pre.spec_has_permission(granter, grantee),
        assoc_keys_distinct(post.edges@),
        assoc_keys_distinct(post.index@),
        forall|g2: AccountId, h2: AccountId|
            post.spec_has_permission(g2, h2) == (pre.spec_has_permission(g2, h2) || (g2 == granter
                && h2 == grantee)),
        post.spec_grantees(granter) == pre.spec_grantees(granter).push(grantee),
        forall|g2: AccountId| g2 != granter ==> post.spec_grantees(g2) == pre.spec_grantees(g2),
    ensures
        post.wf(),
{
    let oldlist = pre.spec_grantees(granter);
    let newlist = post.spec_grantees(granter);
    assert(!oldlist.contains(grantee));
    assert forall|k: int| 0 <= k < oldlist.len() implies oldlist[k] != grantee by {
        assert(oldlist.contains(grantee) == pre.spec_has_permission(granter, grantee));
    }
    assert forall|g2: AccountId| (#[trigger] post.spec_grantees(g2)).no_duplicates() by {
        if g2 == granter {
            assert(oldlist.no_duplicates());
            assert forall|x: int, y: int|
                0 <= x < y < newlist.len() implies newlist[x] != newlist[y] by {
                if y < newlist.len() - 1 {
                    assert(newlist[x] == oldlist[x] && newlist[y] == oldlist[y]);
                } else {
                    assert(newlist[y] == grantee && newlist[x] == oldlist[x]);
                }
            }
        } else {
            assert(post.spec_grantees(g2) == pre.spec_grantees(g2));
        }
    }
    assert forall|g2: AccountId, h2: AccountId| #[trigger]
        post.spec_grantees(g2).contains(h2) <==> post.spec_has_permission(g2, h2) by {
        assert(pre.spec_grantees(g2).contains(h2) == pre.spec_has_permission(g2, h2));
        if g2 == granter {
            if h2 == grantee {
                assert(newlist[newlist.len() - 1] == grantee);
                assert(newlist.contains(grantee));
            } else {
                assert forall|k: int|
                    0 <= k < newlist.len() && newlist[k] == h2 implies oldlist.contains(h2) by {
                    assert(k < newlist.len() - 1 ==> newlist[k] == oldlist[k]);
                }
                assert forall|k: int|
                    0 <= k < oldlist.len() && oldlist[k] == h2 implies newlist.contains(h2) by {
                    assert(newlist[k] == oldlist[k]);
                }
                assert(newlist.contains(h2) == oldlist.contains(h2));
            }
        }
    }
}

/// Re-establishes the graph invariant after a revoke: the new state has the
/// `(granter, grantee)` edge inactive, all other edges as before, and the
/// grantee removed from the granter's index.
proof fn lemma_wf_after_revoke(
    pre: PermissionGraph,
    post: PermissionGraph,
    granter: AccountId,
    grantee: AccountId,
)
    requires
        pre.wf(),
        pre.spec_has_permission(granter, grantee),
        assoc_keys_distinct(post.edges@),
        assoc_keys_distinct(post.index@),
        forall|g2: AccountId, h2: AccountId|
            post.spec_has_permission(g2, h2) == (pre.spec_has_permission(g2, h2) && !(g2 == granter
                && h2 == grantee)),
        post.spec_grantees(granter) == pre.spec_grantees(granter).remove_value(grantee),
        forall|g2: AccountId| g2 != granter ==> post.spec_grantees(g2) == pre.spec_grantees(g2),
    ensures
        post.wf(),
{
    let oldlist = pre.spec_grantees(granter);
    let newlist = post.spec_grantees(granter);
    assert(oldlist.contains(grantee) == pre.spec_has_permission(granter, grantee));
    oldlist.index_of_first_ensures(grantee);
    let pos = oldlist.index_of_first(grantee).unwrap();
    assert(newlist == oldlist.remove(pos));
    oldlist.remove_ensures(pos);
    assert(oldlist.no_duplicates());
    assert forall|g2: AccountId| (#[trigger] post.spec_grantees(g2)).no_duplicates() by {
        if g2 == granter {
            assert forall|x: int, y: int|
                0 <= x < y < newlist.len() implies newlist[x] != newlist[y] by {
                let ox: int = if x < pos {
                    x
                } else {
                    x + 1
                };
                let oy: int = if y < pos {
                    y
                } else {
                    y + 1
                };
                assert(newlist[x] == oldlist[ox] && newlist[y] == oldlist[oy]);
            }
        } else {
            assert(post.spec_grantees(g2) == pre.spec_grantees(g2));
        }
    }
    assert forall|g2: AccountId, h2: AccountId| #[trigger]
        post.spec_grantees(g2).contains(h2) <==> post.spec_has_permission(g2, h2) by {
        assert(pre.spec_grantees(g2).contains(h2) == pre.spec_has_permission(g2, h2));
        if g2 == granter {
            if h2 == grantee {
                // `grantee` occurred exactly once, at `pos`; the remaining
                // entries all differ from it.
                assert forall|k: int| 0 <= k < newlist.len() implies newlist[k] != grantee by {
                    let ok: int = if k < pos {
                        k
                    } else {
                        k + 1
                    };
                    assert(newlist[k] == oldlist[ok]);
                    assert(oldlist[ok] != oldlist[pos]);
                }
                assert(!newlist.contains(grantee));
            } else {
                assert forall|k: int|
                    0 <= k < newlist.len() && newlist[k] == h2 implies oldlist.contains(h2) by {
                    let ok: int = if k < pos {
                        k
                    } else {
                        k + 1
                    };
                    assert(newlist[k] == oldlist[ok]);
                }
                if oldlist.contains(h2) {
                    let k = choose|k: int| 0 <= k < oldlist.len() && oldlist[k] == h2;
                    assert(k != pos);
                    if k < pos {
                        assert(newlist[k] == oldlist[k]);
                        assert(newlist.contains(h2));
                    } else {
                        assert(newlist[k - 1] == oldlist[k]);
                        assert(newlist.contains(h2));
                    }
                }
            }
        }
    }
}

} // verus!
