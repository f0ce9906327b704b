//! A reference-counted set of string keys.
//!
//! A client may take out the same interest several times; each add raises
//! the key's count and each remove lowers it.  A key is present exactly
//! while its count is at least one, and the set reports the transitions into
//! and out of presence, which is what the notification machinery reacts to.
//!
//! The model of a set is the sequence of its (key, count) entries; the spec
//! functions `cs_inc` and `cs_dec` are the mathematical transitions that the
//! executable operations realise exactly.

use vstd::prelude::*;

verus! {

pub struct KeyCount {
    pub key: String,
    pub count: u32,
}

pub struct KeyCountV {
    pub key: Seq<char>,
    pub count: u32,
}

impl DeepView for KeyCount {
    type V = KeyCountV;

    open spec fn deep_view(&self) -> KeyCountV {
        KeyCountV { key: self.key@, count: self.count }
    }
}

/// Keys are distinct and every count is at least one.
pub open spec fn cs_wf(s: Seq<KeyCountV>) -> bool {
    &&& forall|i: int, j: int| 0 <= i < j < s.len() ==> #[trigger] s[i].key != #[trigger] s[j].key
    &&& forall|i: int| 0 <= i < s.len() ==> #[trigger] s[i].count >= 1
}

/// Index of the first entry with the given key, or -1.
pub open spec fn cs_idx(s: Seq<KeyCountV>, k: Seq<char>) -> int
    decreases s.len(),
{
    if s.len() == 0 {
        -1
    } else if s[0].key == k {
        0
    } else {
        let r = cs_idx(s.drop_first(), k);
        if r < 0 {
            -1
        } else {
            r + 1
        }
    }
}

pub open spec fn cs_contains(s: Seq<KeyCountV>, k: Seq<char>) -> bool {
    cs_idx(s, k) >= 0
}

/// The count held for a key; zero when absent.
pub open spec fn cs_count(s: Seq<KeyCountV>, k: Seq<char>) -> u32 {
    if cs_contains(s, k) {
        s[cs_idx(s, k)].count
    } else {
        0
    }
}

/// A count one step higher, stopping at the type's ceiling.
pub open spec fn sat_inc(c: u32) -> u32 {
    if c < u32::MAX {
        (c + 1) as u32
    } else {
        c
    }
}

/// The set after one add of `k`.
pub open spec fn cs_inc(s: Seq<KeyCountV>, k: Seq<char>) -> Seq<KeyCountV> {
    let i = cs_idx(s, k);
    if i < 0 {
        s.push(KeyCountV { key: k, count: 1 })
    } else {
        s.update(i, KeyCountV { key: k, count: sat_inc(s[i].count) })
    }
}

/// The set after one remove of `k`; with `all`, after removing `k` outright.
pub open spec fn cs_dec(s: Seq<KeyCountV>, k: Seq<char>, all: bool) -> Seq<KeyCountV> {
    let i = cs_idx(s, k);
    if i < 0 {
        s
    } else {
        let c = s[i].count;
        if all || c <= 1 {
            s.remove(i)
        } else {
            s.update(i, KeyCountV { key: k, count: (c - 1) as u32 })
        }
    }
}

// ---------------------------------------------------------------------------
// Facts about the index
// ---------------------------------------------------------------------------
pub proof fn lemma_cs_idx_bounds(s: Seq<KeyCountV>, k: Seq<char>)
    ensures
        -1 <= cs_idx(s, k) < s.len(),
        cs_idx(s, k) >= 0 ==> s[cs_idx(s, k)].key == k,
    decreases s.len(),
{
    if s.len() > 0 && s[0].key != k {
        lemma_cs_idx_bounds(s.drop_first(), k);
    }
}

/// The first match determines the index.
pub proof fn lemma_cs_idx_at(s: Seq<KeyCountV>, k: Seq<char>, i: int)
    requires
        0 <= i < s.len(),
        s[i].key == k,
        forall|j: int| 0 <= j < i ==> #[trigger] s[j].key != k,
    ensures
        cs_idx(s, k) == i,
    decreases s.len(),
{
    if i > 0 {
        lemma_cs_idx_at(s.drop_first(), k, i - 1);
    }
}

pub proof fn lemma_cs_idx_absent(s: Seq<KeyCountV>, k: Seq<char>)
    requires
        forall|j: int| 0 <= j < s.len() ==> #[trigger] s[j].key != k,
    ensures
        cs_idx(s, k) == -1,
    decreases s.len(),
{
    if s.len() > 0 {
        lemma_cs_idx_absent(s.drop_first(), k);
    }
}

/// The index looks only at the keys: updating an entry without changing its
/// key moves no index.
pub proof fn lemma_cs_idx_update(s: Seq<KeyCountV>, i: int, e: KeyCountV, k: Seq<char>)
    requires
        0 <= i < s.len(),
        e.key == s[i].key,
    ensures
        cs_idx(s.update(i, e), k) == cs_idx(s, k),
    decreases s.len(),
{
    if s.len() > 0 {
        if i == 0 {
            if s[0].key != k {
                assert(s.update(i, e).drop_first() =~= s.drop_first());
            }
        } else {
            if s[0].key != k {
                assert(s.update(i, e).drop_first() =~= s.drop_first().update(i - 1, e));
                lemma_cs_idx_update(s.drop_first(), i - 1, e, k);
            }
        }
    }
}

/// A key pushed onto a set that lacks it is found at the end.
pub proof fn lemma_cs_idx_push(s: Seq<KeyCountV>, e: KeyCountV, k: Seq<char>)
    ensures
        cs_idx(s, k) >= 0 ==> cs_idx(s.push(e), k) == cs_idx(s, k),
        cs_idx(s, k) < 0 && e.key == k ==> cs_idx(s.push(e), k) == s.len(),
        cs_idx(s, k) < 0 && e.key != k ==> cs_idx(s.push(e), k) < 0,
    decreases s.len(),
{
    let s2 = s.push(e);
    if s.len() == 0 {
        assert(s2[0] == e);
        assert(s2.drop_first() =~= Seq::<KeyCountV>::empty());
        assert(cs_idx(Seq::<KeyCountV>::empty(), k) == -1);
        if e.key == k {
            assert(cs_idx(s2, k) == 0);
        } else {
            assert(cs_idx(s2, k) == -1);
        }
    } else if s[0].key != k {
        assert(s2[0] == s[0]);
        assert(s2.drop_first() =~= s.drop_first().push(e));
        lemma_cs_idx_push(s.drop_first(), e, k);
        assert(cs_idx(s, k) < 0 ==> cs_idx(s.drop_first(), k) < 0);
    }
}

// ---------------------------------------------------------------------------
// The transitions preserve well-formedness
// ---------------------------------------------------------------------------
pub proof fn lemma_cs_inc_wf(s: Seq<KeyCountV>, k: Seq<char>)
    requires
        cs_wf(s),
    ensures
        cs_wf(cs_inc(s, k)),
{
    lemma_cs_idx_bounds(s, k);
    let i = cs_idx(s, k);
    if i < 0 {
        let s2 = s.push(KeyCountV { key: k, count: 1 });
        assert forall|a: int, b: int| 0 <= a < b < s2.len() implies s2[a].key != s2[b].key by {
            if b == s.len() {
                if s2[a].key == k {
                    lemma_cs_idx_at(s, k, a);
                }
            }
        }
    }
}

pub proof fn lemma_cs_dec_wf(s: Seq<KeyCountV>, k: Seq<char>, all: bool)
    requires
        cs_wf(s),
    ensures
        cs_wf(cs_dec(s, k, all)),
{
    lemma_cs_idx_bounds(s, k);
    let i = cs_idx(s, k);
    if i >= 0 {
        let c = s[i].count;
        if all || c <= 1 {
            let s2 = s.remove(i);
            assert forall|a: int, b: int| 0 <= a < b < s2.len() implies s2[a].key != s2[b].key by {
                let a0 = if a < i {
                    a
                } else {
                    a + 1
                };
                let b0 = if b < i {
                    b
                } else {
                    b + 1
                };
                assert(s2[a] == s[a0] && s2[b] == s[b0]);
            }
        }
    }
}

// ---------------------------------------------------------------------------
// Laws of the transitions
// ---------------------------------------------------------------------------
/// Removing a key that is not held changes nothing, however often it is
/// tried.
pub proof fn lemma_cs_dec_absent(s: Seq<KeyCountV>, k: Seq<char>, all: bool)
    requires
        !cs_contains(s, k),
    ensures
        cs_dec(s, k, all) == s,
{
}

/// One add then one remove of the same key restores the set exactly, as
/// long as the key's count has room to rise.
pub proof fn lemma_cs_inc_dec(s: Seq<KeyCountV>, k: Seq<char>)
    requires
        cs_wf(s),
        cs_count(s, k) < u32::MAX,
    ensures
        cs_dec(cs_inc(s, k), k, false) == s,
{
    lemma_cs_idx_bounds(s, k);
    let i = cs_idx(s, k);
    if i < 0 {
        let e = KeyCountV { key: k, count: 1 };
        let s2 = s.push(e);
        lemma_cs_idx_push(s, e, k);
        assert(cs_idx(s2, k) == s.len());
        assert(s2.remove(s.len() as int) =~= s);
    } else {
        let c = s[i].count;
        let e = KeyCountV { key: k, count: (c + 1) as u32 };
        let s2 = s.update(i, e);
        lemma_cs_idx_update(s, i, e, k);
        assert(cs_idx(s2, k) == i);
        assert(s2.update(i, KeyCountV { key: k, count: c }) =~= s);
        assert(s[i] == KeyCountV { key: k, count: c });
    }
}

/// `n` adds followed by `n` removes of one key restore the set exactly,
/// as long as the key's count stays below the type's ceiling.
pub proof fn lemma_cs_add_remove_n(s: Seq<KeyCountV>, k: Seq<char>, n: nat)
    requires
        cs_wf(s),
        cs_count(s, k) + n <= u32::MAX,
    ensures
        cs_dec_n(cs_inc_n(s, k, n), k, n) == s,
        cs_wf(cs_inc_n(s, k, n)),
        cs_count(cs_inc_n(s, k, n), k) == cs_count(s, k) + n,
    decreases n,
{
    if n > 0 {
        let prev = cs_inc_n(s, k, (n - 1) as nat);
        lemma_cs_add_remove_n(s, k, (n - 1) as nat);
        lemma_cs_inc_wf(prev, k);
        lemma_cs_inc_count(prev, k);
        lemma_cs_inc_dec(prev, k);
    }
}

/// The set after `n` adds of `k`.
pub open spec fn cs_inc_n(s: Seq<KeyCountV>, k: Seq<char>, n: nat) -> Seq<KeyCountV>
    decreases n,
{
    if n == 0 {
        s
    } else {
        cs_inc(cs_inc_n(s, k, (n - 1) as nat), k)
    }
}

/// The set after `n` removes of `k`.
pub open spec fn cs_dec_n(s: Seq<KeyCountV>, k: Seq<char>, n: nat) -> Seq<KeyCountV>
    decreases n,
{
    if n == 0 {
        s
    } else {
        cs_dec_n(cs_dec(s, k, false), k, (n - 1) as nat)
    }
}

/// A key is held exactly while its count is positive.
pub proof fn lemma_cs_contains_count(s: Seq<KeyCountV>, k: Seq<char>)
    requires
        cs_wf(s),
    ensures
        cs_contains(s, k) == (cs_count(s, k) >= 1),
{
    lemma_cs_idx_bounds(s, k);
}

/// One add moves the key's count one step up the saturating ladder.
pub proof fn lemma_cs_inc_count_sat(s: Seq<KeyCountV>, k: Seq<char>)
    ensures
        cs_count(cs_inc(s, k), k) == sat_inc(cs_count(s, k)),
{
    lemma_cs_idx_bounds(s, k);
    let i = cs_idx(s, k);
    if i < 0 {
        let e = KeyCountV { key: k, count: 1 };
        lemma_cs_idx_push(s, e, k);
    } else {
        let e = KeyCountV { key: k, count: sat_inc(s[i].count) };
        lemma_cs_idx_update(s, i, e, k);
    }
}

/// One add raises the key's count by one (below the ceiling).
pub proof fn lemma_cs_inc_count(s: Seq<KeyCountV>, k: Seq<char>)
    requires
        cs_count(s, k) < u32::MAX,
    ensures
        cs_count(cs_inc(s, k), k) == cs_count(s, k) + 1,
{
    lemma_cs_idx_bounds(s, k);
    let i = cs_idx(s, k);
    if i < 0 {
        let e = KeyCountV { key: k, count: 1 };
        lemma_cs_idx_push(s, e, k);
    } else {
        let e = KeyCountV { key: k, count: (s[i].count + 1) as u32 };
        lemma_cs_idx_update(s, i, e, k);
    }
}

/// A full removal takes the key out of the set.
pub proof fn lemma_cs_removed_full(s: Seq<KeyCountV>, k: Seq<char>)
    requires
        cs_wf(s),
        cs_contains(s, k),
    ensures
        !cs_contains(cs_dec(s, k, true), k),
{
    lemma_cs_removed(s, k, true);
}

// ---------------------------------------------------------------------------
// The executable set
// ---------------------------------------------------------------------------
pub struct CountedSet {
    pub entries: Vec<KeyCount>,
}

impl DeepView for CountedSet {
    type V = Seq<KeyCountV>;

    open spec fn deep_view(&self) -> Seq<KeyCountV> {
        self.entries.deep_view()
    }
}

impl CountedSet {
    pub open spec fn wf(&self) -> bool {
        cs_wf(self.deep_view())
    }

    pub fn new() -> (r: CountedSet)
        ensures
            r.deep_view() == Seq::<KeyCountV>::empty(),
            r.wf(),
    {
        let r = CountedSet { entries: Vec::new() };
        proof {
            assert(r.deep_view() =~= Seq::<KeyCountV>::empty());
        }
        r
    }

    /// Index of the key's entry, if it is held.
    fn find(&self, key: &String) -> (r: Option<usize>)
        ensures
            match r {
                Some(i) => i < self.deep_view().len() && cs_idx(self.deep_view(), key@) == i,
                None => !cs_contains(self.deep_view(), key@),
            },
    {
        let ghost s = self.deep_view();
        let n = self.entries.len();
        let mut i: usize = 0;
        while i < n
            invariant
                i <= n,
                n == s.len(),
                s == self.deep_view(),
                forall|j: int| 0 <= j < i ==> #[trigger] s[j].key != key@,
            decreases n - i,
        {
            if self.entries[i].key == *key {
                proof {
                    lemma_cs_idx_at(s, key@, i as int);
                }
                return Some(i);
            }
            i = i + 1;
        }
        proof {
            lemma_cs_idx_absent(s, key@);
        }
        None
    }

    pub fn contains(&self, key: &String) -> (r: bool)
        ensures
            r == cs_contains(self.deep_view(), key@),
    {
        self.find(key).is_some()
    }

    pub fn is_empty(&self) -> (r: bool)
        ensures
            r == (self.deep_view().len() == 0),
    {
        self.entries.len() == 0
    }

    /// The keys, in the order their first adds arrived.
    pub fn keys(&self) -> (r: Vec<String>)
        ensures
            r.deep_view() == self.deep_view().map_values(|e: KeyCountV| e.key),
    {
        let ghost s = self.deep_view();
        let n = self.entries.len();
        let mut r: Vec<String> = Vec::new();
        let mut i: usize = 0;
        while i < n
            invariant
                i <= n,
                n == s.len(),
                s == self.deep_view(),
                r.deep_view() =~= s.map_values(|e: KeyCountV| e.key).take(i as int),
            decreases n - i,
        {
            let ghost rdv0 = r.deep_view();
            r.push(self.entries[i].key.clone());
            proof {
                let ks = s.map_values(|e: KeyCountV| e.key);
                assert(ks[i as int] == s[i as int].key);
                assert(r.deep_view() =~= rdv0.push(s[i as int].key));
                assert(rdv0.push(s[i as int].key) =~= ks.take(i + 1));
            }
            i = i + 1;
        }
        proof {
            assert(s.map_values(|e: KeyCountV| e.key).take(n as int) =~= s.map_values(
                |e: KeyCountV| e.key,
            ));
        }
        r
    }

    /// One add of `key`; reports whether this was the transition from
    /// absent to held.
    pub fn increment(&mut self, key: &String) -> (first: bool)
        requires
            old(self).wf(),
        ensures
            final(self).deep_view() == cs_inc(old(self).deep_view(), key@),
            first == !cs_contains(old(self).deep_view(), key@),
            final(self).wf(),
    {
        proof {
            lemma_cs_idx_bounds(old(self).deep_view(), key@);
            lemma_cs_inc_wf(old(self).deep_view(), key@);
        }
        match self.find(key) {
            Some(i) => {
                let c = self.entries[i].count;
                let c2 = if c < u32::MAX {
                    c + 1
                } else {
                    c
                };
                let e = &mut self.entries[i];
                e.count = c2;
                proof {
                    assert(self.deep_view() =~= cs_inc(old(self).deep_view(), key@));
                }
                false
            },
            None => {
                self.entries.push(KeyCount { key: key.clone(), count: 1 });
                proof {
                    assert(self.deep_view() =~= cs_inc(old(self).deep_view(), key@));
                }
                true
            },
        }
    }

    /// One remove of `key`, or with `all` its outright removal; reports
    /// whether the key left the set.
    pub fn decrement(&mut self, key: &String, all: bool) -> (last: bool)
        requires
            old(self).wf(),
        ensures
            final(self).deep_view() == cs_dec(old(self).deep_view(), key@, all),
            last == (cs_contains(old(self).deep_view(), key@) && !cs_contains(
                final(self).deep_view(),
                key@,
            )),
            final(self).wf(),
    {
        proof {
            lemma_cs_idx_bounds(old(self).deep_view(), key@);
            lemma_cs_dec_wf(old(self).deep_view(), key@, all);
        }
        match self.find(key) {
            Some(i) => {
                let c = self.entries[i].count;
                if all || c <= 1 {
                    let _ = self.entries.remove(i);
                    proof {
                        let s0 = old(self).deep_view();
                        assert(self.deep_view() =~= cs_dec(s0, key@, all));
                        lemma_cs_removed(s0, key@, all);
                    }
                    true
                } else {
                    let e = &mut self.entries[i];
                    e.count = c - 1;
                    proof {
                        let s0 = old(self).deep_view();
                        assert(self.deep_view() =~= cs_dec(s0, key@, all));
                        lemma_cs_idx_update(
                            s0,
                            i as int,
                            KeyCountV { key: key@, count: (c - 1) as u32 },
                            key@,
                        );
                    }
                    false
                }
            },
            None => {
                false
            },
        }
    }
}

/// After a full removal the key is gone, provided each key occurred once.
proof fn lemma_cs_removed(s: Seq<KeyCountV>, k: Seq<char>, all: bool)
    requires
        cs_contains(s, k),
        all || s[cs_idx(s, k)].count <= 1,
        forall|i: int, j: int| 0 <= i < j < s.len() ==> #[trigger] s[i].key != #[trigger] s[j].key,
    ensures
        !cs_contains(cs_dec(s, k, all), k),
{
    lemma_cs_idx_bounds(s, k);
    let i = cs_idx(s, k);
    let s2 = s.remove(i);
    assert forall|j: int| 0 <= j < s2.len() implies #[trigger] s2[j].key != k by {
        let j0 = if j < i {
            j
        } else {
            j + 1
        };
        assert(s2[j] == s[j0]);
    }
    lemma_cs_idx_absent(s2, k);
}

} // verus!
