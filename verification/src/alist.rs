//! Association lists with unique keys, and the finite mapping they denote.
//!
//! Both the store-side draft buffer and the in-memory storage harness keep
//! their entries in a vector of key/value pairs whose keys are pairwise
//! distinct; their contracts speak of the [`Map`] such a list denotes.

use vstd::prelude::*;

verus! {

/// The mapping an association list denotes; a later entry for a key shadows
/// an earlier one.
pub open spec fn alist_map<V: View>(s: Seq<(u32, V)>) -> Map<u32, V::V>
    decreases s.len(),
{
    if s.len() == 0 {
        Map::empty()
    } else {
        alist_map(s.drop_last()).insert(s.last().0, s.last().1@)
    }
}

/// Whether all entries carry pairwise distinct keys.
pub open spec fn keys_unique<V>(s: Seq<(u32, V)>) -> bool {
    forall|i: int, j: int| 0 <= i < j < s.len() ==> s[i].0 != s[j].0
}

/// A key occurs in the denoted mapping exactly when some entry carries it.
pub proof fn lemma_alist_contains<V: View>(s: Seq<(u32, V)>, k: u32)
    ensures
        alist_map(s).contains_key(k) <==> exists|i: int| 0 <= i < s.len() && s[i].0 == k,
    decreases s.len(),
{
    if s.len() > 0 {
        lemma_alist_contains(s.drop_last(), k);
        if s.last().0 == k {
            assert(s[s.len() - 1].0 == k);
        } else {
            if exists|i: int| 0 <= i < s.len() && s[i].0 == k {
                let i = choose|i: int| 0 <= i < s.len() && s[i].0 == k;
                assert(s.drop_last()[i] == s[i]);
            }
            if exists|i: int| 0 <= i < s.drop_last().len() && s.drop_last()[i].0 == k {
                let i = choose|i: int| 0 <= i < s.drop_last().len() && s.drop_last()[i].0 == k;
                assert(s[i] == s.drop_last()[i]);
            }
        }
    }
}

/// When no entry carries `k`, the denoted mapping has no entry for `k`.
pub proof fn lemma_alist_absent<V: View>(s: Seq<(u32, V)>, k: u32)
    requires
        forall|i: int| 0 <= i < s.len() ==> s[i].0 != k,
    ensures
        !alist_map(s).contains_key(k),
{
    lemma_alist_contains(s, k);
}

/// With unique keys, the entry at any index gives the denoted value.
pub proof fn lemma_alist_at<V: View>(s: Seq<(u32, V)>, i: int)
    requires
        keys_unique(s),
        0 <= i < s.len(),
    ensures
        alist_map(s).contains_key(s[i].0),
        alist_map(s)[s[i].0] == s[i].1@,
    decreases s.len(),
{
    if i < s.len() - 1 {
        assert(keys_unique(s.drop_last())) by {
            assert forall|a: int, b: int| 0 <= a < b < s.drop_last().len() implies s.drop_last()[a].0
                != s.drop_last()[b].0 by {
                assert(s.drop_last()[a] == s[a]);
                assert(s.drop_last()[b] == s[b]);
            }
        }
        lemma_alist_at(s.drop_last(), i);
        assert(s.drop_last()[i] == s[i]);
        assert(s.last().0 != s[i].0);
    }
}

/// Appending an entry denotes an insertion into the mapping.
pub proof fn lemma_alist_push<V: View>(s: Seq<(u32, V)>, k: u32, v: V)
    ensures
        alist_map(s.push((k, v))) == alist_map(s).insert(k, v@),
{
    assert(s.push((k, v)).drop_last() =~= s);
    assert(s.push((k, v)).last() == (k, v));
}

/// Removing the entry at an index removes exactly its key from the mapping.
pub proof fn lemma_alist_remove<V: View>(s: Seq<(u32, V)>, i: int)
    requires
        keys_unique(s),
        0 <= i < s.len(),
    ensures
        alist_map(s.remove(i)) == alist_map(s).remove(s[i].0),
    decreases s.len(),
{
    let k = s[i].0;
    if i == s.len() - 1 {
        assert(s.remove(i) =~= s.drop_last());
        assert forall|j: int| 0 <= j < s.drop_last().len() implies s.drop_last()[j].0 != k by {
            assert(s.drop_last()[j] == s[j]);
        }
        lemma_alist_absent(s.drop_last(), k);
        assert(alist_map(s).remove(k) =~= alist_map(s.drop_last()));
    } else {
        let t = s.remove(i);
        assert(keys_unique(s.drop_last())) by {
            assert forall|a: int, b: int| 0 <= a < b < s.drop_last().len() implies s.drop_last()[a].0
                != s.drop_last()[b].0 by {
                assert(s.drop_last()[a] == s[a]);
                assert(s.drop_last()[b] == s[b]);
            }
        }
        assert(t.drop_last() =~= s.drop_last().remove(i));
        assert(t.last() == s.last());
        lemma_alist_remove(s.drop_last(), i);
        assert(s.drop_last()[i] == s[i]);
        assert(alist_map(t) == alist_map(s.drop_last()).remove(k).insert(s.last().0, s.last().1@));
        assert(s.last().0 != k);
        assert(alist_map(s).remove(k) =~= alist_map(s.drop_last()).remove(k).insert(
            s.last().0,
            s.last().1@,
        ));
    }
}

/// Removal keeps the keys unique, and with unique keys it removes the only
/// entry that carried its key.
pub proof fn lemma_unique_remove<V>(s: Seq<(u32, V)>, i: int)
    requires
        keys_unique(s),
        0 <= i < s.len(),
    ensures
        keys_unique(s.remove(i)),
        forall|j: int| 0 <= j < s.remove(i).len() ==> s.remove(i)[j].0 != s[i].0,
{
    let t = s.remove(i);
    assert forall|a: int, b: int| 0 <= a < b < t.len() implies t[a].0 != t[b].0 by {
        assert(t[a] == if a < i {
            s[a]
        } else {
            s[a + 1]
        });
        assert(t[b] == if b < i {
            s[b]
        } else {
            s[b + 1]
        });
    }
    assert forall|j: int| 0 <= j < t.len() implies t[j].0 != s[i].0 by {
        assert(t[j] == if j < i {
            s[j]
        } else {
            s[j + 1]
        });
    }
}

/// Appending an entry whose key no other entry carries keeps the keys unique.
pub proof fn lemma_unique_push<V>(s: Seq<(u32, V)>, k: u32, v: V)
    requires
        keys_unique(s),
        forall|i: int| 0 <= i < s.len() ==> s[i].0 != k,
    ensures
        keys_unique(s.push((k, v))),
{
    let t = s.push((k, v));
    assert forall|a: int, b: int| 0 <= a < b < t.len() implies t[a].0 != t[b].0 by {
        if b < s.len() {
            assert(t[a] == s[a]);
            assert(t[b] == s[b]);
        } else {
            assert(t[a] == s[a]);
            assert(t[b] == (k, v));
        }
    }
}

/// Find the index of the entry carrying `key`, scanning from the front.
pub fn find_key<V>(s: &Vec<(u32, V)>, key: u32) -> (r: Option<usize>)
    ensures
        match r {
            Some(i) => i < s@.len() && s@[i as int].0 == key,
            None => forall|i: int| 0 <= i < s@.len() ==> s@[i].0 != key,
        },
{
    let mut i: usize = 0;
    while i < s.len()
        invariant
            i <= s@.len(),
            forall|j: int| 0 <= j < i ==> s@[j].0 != key,
        decreases s@.len() - i,
    {
        if s[i].0 == key {
            return Some(i);
        }
        i = i + 1;
    }
    None
}

} // verus!
