//! First-match lookup over association sequences.
//!
//! Every store in the registry keeps its state as a vector of key/value
//! entries. This module gives the lookup a mathematical meaning
//! ([`assoc_find`]) and proves how that meaning changes under the three
//! mutations the stores perform: scanning, appending a fresh entry, and
//! replacing the value of the first entry with a given key.

use vstd::prelude::*;

verus! {

/// The value of the first entry whose key is `k`, if any.
pub open spec fn assoc_find<K, V>(s: Seq<(K, V)>, k: K) -> Option<V>
    decreases s.len(),
{
    if s.len() == 0 {
        None
    } else if s[0].0 == k {
        Some(s[0].1)
    } else {
        assoc_find(s.drop_first(), k)
    }
}

/// Whether some entry carries key `k`.
pub open spec fn assoc_has_key<K, V>(s: Seq<(K, V)>, k: K) -> bool {
    exists|i: int| 0 <= i < s.len() && s[i].0 == k
}

/// The keys of the entries are pairwise distinct.
pub open spec fn assoc_keys_distinct<K, V>(s: Seq<(K, V)>) -> bool {
    forall|i: int, j: int| 0 <= i < j < s.len() ==> s[i].0 != s[j].0
}

/// A scan that stopped at index `i` on key `k`, having passed over the
/// entries before `i`, found the first match: the lookup returns that value.
pub proof fn lemma_assoc_find_first<K, V>(s: Seq<(K, V)>, k: K, i: int)
    requires
        0 <= i < s.len(),
        s[i].0 == k,
        forall|j: int| 0 <= j < i ==> s[j].0 != k,
    ensures
        assoc_find(s, k) == Some(s[i].1),
    decreases i,
{
    if i == 0 {
    } else {
        assert(s[0].0 != k);
        assert forall|j: int| 0 <= j < i - 1 implies s.drop_first()[j].0 != k by {
            assert(s.drop_first()[j] == s[j + 1]);
        }
        assert(s.drop_first()[i - 1] == s[i]);
        lemma_assoc_find_first(s.drop_first(), k, i - 1);
    }
}

/// A scan that passed over every entry without matching `k` proves the key
/// absent: the lookup returns nothing.
pub proof fn lemma_assoc_find_absent<K, V>(s: Seq<(K, V)>, k: K)
    requires
        forall|j: int| 0 <= j < s.len() ==> s[j].0 != k,
    ensures
        assoc_find(s, k) is None,
        !assoc_has_key(s, k),
    decreases s.len(),
{
    if s.len() == 0 {
    } else {
        assert forall|j: int| 0 <= j < s.len() - 1 implies s.drop_first()[j].0 != k by {
            assert(s.drop_first()[j] == s[j + 1]);
        }
        lemma_assoc_find_absent(s.drop_first(), k);
    }
}

/// A successful lookup names the value of some entry with key `k`.
pub proof fn lemma_assoc_find_index<K, V>(s: Seq<(K, V)>, k: K) -> (i: int)
    requires
        assoc_find(s, k) is Some,
    ensures
        0 <= i < s.len(),
        s[i].0 == k,
        s[i].1 == assoc_find(s, k).unwrap(),
    decreases s.len(),
{
    if s[0].0 == k {
        0
    } else {
        let j = lemma_assoc_find_index(s.drop_first(), k);
        assert(s.drop_first()[j] == s[j + 1]);
        j + 1
    }
}

/// Appending an entry under a key that is absent leaves every other lookup
/// unchanged and makes the new key map to the new value.
pub proof fn lemma_assoc_find_push<K, V>(s: Seq<(K, V)>, k: K, v: V, k2: K)
    requires
        !assoc_has_key(s, k),
    ensures
        k2 == k ==> assoc_find(s.push((k, v)), k2) == Some(v),
        k2 != k ==> assoc_find(s.push((k, v)), k2) == assoc_find(s, k2),
    decreases s.len(),
{
    let t = s.push((k, v));
    if s.len() == 0 {
        assert(t[0] == (k, v));
        assert(t.drop_first() =~= Seq::<(K, V)>::empty());
        assert(assoc_find(t.drop_first(), k2) is None);
        if k2 != k {
            assert(assoc_find(t, k2) == assoc_find(t.drop_first(), k2));
        }
    } else {
        assert(s[0].0 != k);
        assert(t[0] == s[0]);
        if s[0].0 == k2 {
        } else {
            assert(t.drop_first() =~= s.drop_first().push((k, v)));
            assert forall|i: int| 0 <= i < s.len() - 1 implies s.drop_first()[i].0 != k by {
                assert(s.drop_first()[i] == s[i + 1]);
            }
            lemma_assoc_find_absent(s.drop_first(), k);
            lemma_assoc_find_push(s.drop_first(), k, v, k2);
        }
    }
}

/// Replacing the value of the first entry with key `s[i].0` changes the
/// lookup for that key alone.
pub proof fn lemma_assoc_find_update<K, V>(s: Seq<(K, V)>, i: int, v: V, k2: K)
    requires
        0 <= i < s.len(),
        forall|j: int| 0 <= j < i ==> s[j].0 != s[i].0,
    ensures
        k2 == s[i].0 ==> assoc_find(s.update(i, (s[i].0, v)), k2) == Some(v),
        k2 != s[i].0 ==> assoc_find(s.update(i, (s[i].0, v)), k2) == assoc_find(s, k2),
    decreases s.len(),
{
    let k = s[i].0;
    let t = s.update(i, (k, v));
    if i == 0 {
        assert(t[0] == (k, v));
        if k2 == k {
        } else {
            assert(t.drop_first() =~= s.drop_first());
        }
    } else {
        assert(s[0].0 != k);
        assert(t[0] == s[0]);
        if s[0].0 == k2 {
        } else {
            assert(t.drop_first() =~= s.drop_first().update(i - 1, (k, v)));
            assert(s.drop_first()[i - 1] == s[i]);
            assert forall|j: int| 0 <= j < i - 1 implies (#[trigger] s.drop_first()[j]).0 != s[i].0 by {
                assert(s.drop_first()[j] == s[j + 1]);
            }
            lemma_assoc_find_update(s.drop_first(), i - 1, v, k2);
        }
    }
}

} // verus!
