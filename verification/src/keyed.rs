//! First-match lookup in sequences of keyed entries.
//!
//! The routing state is a handful of small registries, each a sequence of
//! entries with a distinct string key.  This module gives the shared spec
//! machinery: the index of a key, presence, and the facts the registries'
//! proofs lean on.

use vstd::prelude::*;

verus! {

/// An entry with a string key.
pub trait Keyed: Sized {
    spec fn key(self) -> Seq<char>;
}

/// Index of the first entry with the given key, or -1.
pub open spec fn key_idx<T: Keyed>(s: Seq<T>, k: Seq<char>) -> int
    decreases s.len(),
{
    if s.len() == 0 {
        -1
    } else if s[0].key() == k {
        0
    } else {
        let r = key_idx(s.drop_first(), k);
        if r < 0 {
            -1
        } else {
            r + 1
        }
    }
}

pub open spec fn has_key<T: Keyed>(s: Seq<T>, k: Seq<char>) -> bool {
    key_idx(s, k) >= 0
}

/// All keys distinct.
pub open spec fn keys_unique<T: Keyed>(s: Seq<T>) -> bool {
    forall|i: int, j: int| 0 <= i < j < s.len() ==> (#[trigger] s[i]).key() != (#[trigger] s[j]).key()
}

pub proof fn lemma_key_idx_bounds<T: Keyed>(s: Seq<T>, k: Seq<char>)
    ensures
        -1 <= key_idx(s, k) < s.len(),
        key_idx(s, k) >= 0 ==> s[key_idx(s, k)].key() == k,
    decreases s.len(),
{
    if s.len() > 0 && s[0].key() != k {
        lemma_key_idx_bounds(s.drop_first(), k);
    }
}

/// The first match determines the index.
pub proof fn lemma_key_idx_at<T: Keyed>(s: Seq<T>, k: Seq<char>, i: int)
    requires
        0 <= i < s.len(),
        s[i].key() == k,
        forall|j: int| 0 <= j < i ==> (#[trigger] s[j]).key() != k,
    ensures
        key_idx(s, k) == i,
    decreases s.len(),
{
    if i > 0 {
        lemma_key_idx_at(s.drop_first(), k, i - 1);
    }
}

/// No entry before the index carries the key.
pub proof fn lemma_key_idx_first<T: Keyed>(s: Seq<T>, k: Seq<char>)
    ensures
        forall|m: int| 0 <= m < key_idx(s, k) ==> (#[trigger] s[m]).key() != k,
    decreases s.len(),
{
    if s.len() > 0 && s[0].key() != k {
        lemma_key_idx_bounds(s, k);
        lemma_key_idx_bounds(s.drop_first(), k);
        lemma_key_idx_first(s.drop_first(), k);
        assert forall|m: int| 0 <= m < key_idx(s, k) implies (#[trigger] s[m]).key() != k by {
            if m > 0 {
                assert(s.drop_first()[m - 1] == s[m]);
            }
        }
    }
}

/// An absent key is on no entry.
pub proof fn lemma_key_idx_none<T: Keyed>(s: Seq<T>, k: Seq<char>)
    requires
        !has_key(s, k),
    ensures
        forall|m: int| 0 <= m < s.len() ==> (#[trigger] s[m]).key() != k,
    decreases s.len(),
{
    if s.len() > 0 {
        assert(key_idx(s.drop_first(), k) < 0);
        lemma_key_idx_none(s.drop_first(), k);
        assert forall|m: int| 0 <= m < s.len() implies (#[trigger] s[m]).key() != k by {
            if m > 0 {
                assert(s.drop_first()[m - 1] == s[m]);
            }
        }
    }
}

pub proof fn lemma_key_idx_absent<T: Keyed>(s: Seq<T>, k: Seq<char>)
    requires
        forall|j: int| 0 <= j < s.len() ==> (#[trigger] s[j]).key() != k,
    ensures
        key_idx(s, k) == -1,
    decreases s.len(),
{
    if s.len() > 0 {
        lemma_key_idx_absent(s.drop_first(), k);
    }
}

/// The index looks only at the keys.
pub proof fn lemma_key_idx_update<T: Keyed>(s: Seq<T>, i: int, e: T, k: Seq<char>)
    requires
        0 <= i < s.len(),
        e.key() == s[i].key(),
    ensures
        key_idx(s.update(i, e), k) == key_idx(s, k),
    decreases s.len(),
{
    if s.len() > 0 {
        if i == 0 {
            if s[0].key() != k {
                assert(s.update(i, e).drop_first() =~= s.drop_first());
            }
        } else {
            if s[0].key() != k {
                assert(s.update(i, e).drop_first() =~= s.drop_first().update(i - 1, e));
                lemma_key_idx_update(s.drop_first(), i - 1, e, k);
            }
        }
    }
}

/// A key pushed onto a sequence that lacks it is found at the end.
pub proof fn lemma_key_idx_push<T: Keyed>(s: Seq<T>, e: T, k: Seq<char>)
    ensures
        key_idx(s, k) >= 0 ==> key_idx(s.push(e), k) == key_idx(s, k),
        key_idx(s, k) < 0 && e.key() == k ==> key_idx(s.push(e), k) == s.len(),
        key_idx(s, k) < 0 && e.key() != k ==> key_idx(s.push(e), k) < 0,
    decreases s.len(),
{
    let s2 = s.push(e);
    if s.len() == 0 {
        assert(s2[0] == e);
        assert(s2.drop_first() =~= Seq::<T>::empty());
        assert(key_idx(Seq::<T>::empty(), k) == -1);
        if e.key() == k {
            assert(key_idx(s2, k) == 0);
        } else {
            assert(key_idx(s2, k) == -1);
        }
    } else if s[0].key() != k {
        assert(s2[0] == s[0]);
        assert(s2.drop_first() =~= s.drop_first().push(e));
        lemma_key_idx_push(s.drop_first(), e, k);
        assert(key_idx(s, k) < 0 ==> key_idx(s.drop_first(), k) < 0);
    }
}

/// Pushing an entry with a fresh key keeps the keys distinct.
pub proof fn lemma_keys_unique_push<T: Keyed>(s: Seq<T>, e: T)
    requires
        keys_unique(s),
        !has_key(s, e.key()),
    ensures
        keys_unique(s.push(e)),
{
    let s2 = s.push(e);
    assert forall|a: int, b: int| 0 <= a < b < s2.len() implies s2[a].key() != s2[b].key() by {
        if b == s.len() {
            if s2[a].key() == e.key() {
                lemma_key_idx_at(s, e.key(), a);
            }
        }
    }
}

/// Replacing an entry without changing its key keeps the keys distinct.
pub proof fn lemma_keys_unique_update<T: Keyed>(s: Seq<T>, i: int, e: T)
    requires
        keys_unique(s),
        0 <= i < s.len(),
        e.key() == s[i].key(),
    ensures
        keys_unique(s.update(i, e)),
{
}

/// Dropping an entry keeps the keys distinct.
pub proof fn lemma_keys_unique_remove<T: Keyed>(s: Seq<T>, i: int)
    requires
        keys_unique(s),
        0 <= i < s.len(),
    ensures
        keys_unique(s.remove(i)),
{
    let s2 = s.remove(i);
    assert forall|a: int, b: int| 0 <= a < b < s2.len() implies s2[a].key() != s2[b].key() by {
        let a0 = if a < i {
            a
        } else {
            a + 1
        };
        let b0 = if b < i {
            b
        } else {
            b + 1
        };
        assert(s2[a] == s[a0] && s2[b] == s[b0]);
    }
}

/// A key's index in a concatenation: in the first part where it has it,
/// else shifted into the second.
pub proof fn lemma_key_idx_concat<T: Keyed>(a: Seq<T>, b: Seq<T>, k: Seq<char>)
    ensures
        key_idx(a + b, k) == if has_key(a, k) {
            key_idx(a, k)
        } else if has_key(b, k) {
            a.len() + key_idx(b, k)
        } else {
            -1
        },
    decreases a.len(),
{
    lemma_key_idx_bounds(a, k);
    lemma_key_idx_bounds(b, k);
    lemma_key_idx_bounds(a + b, k);
    if a.len() == 0 {
        assert(a + b =~= b);
    } else {
        assert((a + b)[0] == a[0]);
        if a[0].key() != k {
            assert((a + b).drop_first() =~= a.drop_first() + b);
            lemma_key_idx_concat(a.drop_first(), b, k);
        }
    }
}

/// A dropped first entry loses no other key.
pub proof fn lemma_has_key_drop<T: Keyed>(s: Seq<T>, k: Seq<char>)
    requires
        s.len() > 0,
        has_key(s.drop_first(), k),
    ensures
        has_key(s, k),
{
}

/// Removing one entry leaves every other key in place.
pub proof fn lemma_remove_other_key<T: Keyed>(s: Seq<T>, i: int, k2: Seq<char>)
    requires
        keys_unique(s),
        0 <= i < s.len(),
        s[i].key() != k2,
    ensures
        has_key(s.remove(i), k2) == has_key(s, k2),
        has_key(s, k2) ==> s.remove(i)[key_idx(s.remove(i), k2)] == s[key_idx(s, k2)],
{
    let s2 = s.remove(i);
    lemma_key_idx_bounds(s, k2);
    lemma_key_idx_first(s, k2);
    if has_key(s, k2) {
        let j = key_idx(s, k2);
        let j2 = if j < i {
            j
        } else {
            j - 1
        };
        assert(s2[j2] == s[j]);
        assert forall|x: int| 0 <= x < j2 implies (#[trigger] s2[x]).key() != k2 by {
            let x0 = if x < i {
                x
            } else {
                x + 1
            };
            assert(s2[x] == s[x0]);
        }
        lemma_key_idx_at(s2, k2, j2);
    } else {
        lemma_key_idx_none(s, k2);
        assert forall|x: int| 0 <= x < s2.len() implies (#[trigger] s2[x]).key() != k2 by {
            let x0 = if x < i {
                x
            } else {
                x + 1
            };
            assert(s2[x] == s[x0]);
        }
        lemma_key_idx_absent(s2, k2);
    }
}

/// After removing the entry of `k` from a sequence with distinct keys, `k`
/// is gone.
pub proof fn lemma_key_removed<T: Keyed>(s: Seq<T>, k: Seq<char>)
    requires
        keys_unique(s),
        has_key(s, k),
    ensures
        !has_key(s.remove(key_idx(s, k)), k),
{
    lemma_key_idx_bounds(s, k);
    let i = key_idx(s, k);
    let s2 = s.remove(i);
    assert forall|j: int| 0 <= j < s2.len() implies (#[trigger] s2[j]).key() != k by {
        let j0 = if j < i {
            j
        } else {
            j + 1
        };
        assert(s2[j] == s[j0]);
    }
    lemma_key_idx_absent(s2, k);
}

} // verus!
