//! The notification index: pattern → listener → count.
//!
//! A client registers interest in subscription changes on topic names that
//! match a regular expression.  The index keeps one entry per pattern with
//! a reference-counted listener set, under the same count discipline as the
//! subscription index, and answers which listeners want to hear about a
//! given topic.

use vstd::prelude::*;

use crate::keyed::{
    has_key, key_idx, keys_unique, lemma_key_idx_absent, lemma_key_idx_at, lemma_key_idx_bounds,
    lemma_keys_unique_push, lemma_keys_unique_update, Keyed,
};
use crate::patterns::{pattern_matches, re_matches, re_valid};
use crate::refcount::{
    cs_contains, cs_count, cs_dec, cs_inc, cs_wf, lemma_cs_idx_bounds, CountedSet, KeyCountV,
};

verus! {

/// One pattern and its listeners.
pub struct PatternEntry {
    pub pattern: String,
    pub listeners: CountedSet,
}

pub struct PatternEntryV {
    pub pattern: Seq<char>,
    pub listeners: Seq<KeyCountV>,
}

impl DeepView for PatternEntry {
    type V = PatternEntryV;

    open spec fn deep_view(&self) -> PatternEntryV {
        PatternEntryV { pattern: self.pattern@, listeners: self.listeners.deep_view() }
    }
}

impl Keyed for PatternEntryV {
    open spec fn key(self) -> Seq<char> {
        self.pattern
    }
}

/// Every pattern once; every listener set well-formed and non-empty.
pub open spec fn nm_wf(s: Seq<PatternEntryV>) -> bool {
    &&& keys_unique(s)
    &&& forall|i: int| 0 <= i < s.len() ==> cs_wf((#[trigger] s[i]).listeners)
    &&& forall|i: int| 0 <= i < s.len() ==> (#[trigger] s[i]).listeners.len() >= 1
}

/// The listener set of a pattern; empty when the pattern is unknown.
pub open spec fn pattern_listeners(s: Seq<PatternEntryV>, pattern: Seq<char>) -> Seq<KeyCountV> {
    if has_key(s, pattern) {
        s[key_idx(s, pattern)].listeners
    } else {
        Seq::empty()
    }
}

pub open spec fn listener_count(s: Seq<PatternEntryV>, pattern: Seq<char>, client: Seq<char>) -> u32 {
    cs_count(pattern_listeners(s, pattern), client)
}

/// The index after one registration of `client` on `pattern`.
pub open spec fn nm_add(s: Seq<PatternEntryV>, pattern: Seq<char>, client: Seq<char>) -> Seq<
    PatternEntryV,
> {
    let i = key_idx(s, pattern);
    if i < 0 {
        s.push(PatternEntryV { pattern, listeners: cs_inc(Seq::empty(), client) })
    } else {
        s.update(i, PatternEntryV { pattern, listeners: cs_inc(s[i].listeners, client) })
    }
}

/// The index after one deregistration (or, with `all`, the client's full
/// removal) from `pattern`; a pattern left without listeners disappears.
pub open spec fn nm_remove(
    s: Seq<PatternEntryV>,
    pattern: Seq<char>,
    client: Seq<char>,
    all: bool,
) -> Seq<PatternEntryV> {
    let i = key_idx(s, pattern);
    if i < 0 {
        s
    } else {
        let ls2 = cs_dec(s[i].listeners, client, all);
        if ls2.len() == 0 {
            s.remove(i)
        } else {
            s.update(i, PatternEntryV { pattern, listeners: ls2 })
        }
    }
}

/// The index after a client's close: the client leaves every pattern.
pub open spec fn nm_close(s: Seq<PatternEntryV>, client: Seq<char>) -> Seq<PatternEntryV>
    decreases s.len(),
{
    if s.len() == 0 {
        s
    } else {
        let ls2 = cs_dec(s[0].listeners, client, true);
        let rest = nm_close(s.drop_first(), client);
        if ls2.len() == 0 {
            rest
        } else {
            seq![PatternEntryV { pattern: s[0].pattern, listeners: ls2 }] + rest
        }
    }
}

/// The listeners to tell about a change on `topic`: those of every pattern
/// that matches it, pattern by pattern in index order.
pub open spec fn matching_listeners(s: Seq<PatternEntryV>, topic: Seq<char>) -> Seq<Seq<char>>
    decreases s.len(),
{
    if s.len() == 0 {
        Seq::empty()
    } else {
        (if re_valid(s[0].pattern) && re_matches(s[0].pattern, topic) {
            s[0].listeners.map_values(|e: KeyCountV| e.key)
        } else {
            Seq::<Seq<char>>::empty()
        }) + matching_listeners(s.drop_first(), topic)
    }
}

proof fn lemma_nm_close_snoc(s: Seq<PatternEntryV>, e: PatternEntryV, client: Seq<char>)
    ensures
        nm_close(s.push(e), client) == nm_close(s, client) + ({
            let ls2 = cs_dec(e.listeners, client, true);
            if ls2.len() == 0 {
                Seq::<PatternEntryV>::empty()
            } else {
                seq![PatternEntryV { pattern: e.pattern, listeners: ls2 }]
            }
        }),
    decreases s.len(),
{
    let s2 = s.push(e);
    let tail = {
        let ls2 = cs_dec(e.listeners, client, true);
        if ls2.len() == 0 {
            Seq::<PatternEntryV>::empty()
        } else {
            seq![PatternEntryV { pattern: e.pattern, listeners: ls2 }]
        }
    };
    if s.len() == 0 {
        assert(s2[0] == e);
        assert(s2.drop_first() =~= Seq::<PatternEntryV>::empty());
        assert(nm_close(s2.drop_first(), client) =~= Seq::<PatternEntryV>::empty());
        assert(nm_close(s2, client) =~= nm_close(s, client) + tail);
    } else {
        assert(s2[0] == s[0]);
        assert(s2.drop_first() =~= s.drop_first().push(e));
        lemma_nm_close_snoc(s.drop_first(), e, client);
        assert(nm_close(s2, client) =~= nm_close(s, client) + tail);
    }
}

proof fn lemma_matching_listeners_snoc(s: Seq<PatternEntryV>, e: PatternEntryV, topic: Seq<char>)
    ensures
        matching_listeners(s.push(e), topic) == matching_listeners(s, topic) + (if re_valid(
            e.pattern,
        ) && re_matches(e.pattern, topic) {
            e.listeners.map_values(|x: KeyCountV| x.key)
        } else {
            Seq::<Seq<char>>::empty()
        }),
    decreases s.len(),
{
    let s2 = s.push(e);
    let tail = if re_valid(e.pattern) && re_matches(e.pattern, topic) {
        e.listeners.map_values(|x: KeyCountV| x.key)
    } else {
        Seq::<Seq<char>>::empty()
    };
    if s.len() == 0 {
        assert(s2[0] == e);
        assert(s2.drop_first() =~= Seq::<PatternEntryV>::empty());
        assert(matching_listeners(s2.drop_first(), topic) =~= Seq::<Seq<char>>::empty());
        assert(matching_listeners(s2, topic) =~= matching_listeners(s, topic) + tail);
    } else {
        assert(s2[0] == s[0]);
        assert(s2.drop_first() =~= s.drop_first().push(e));
        lemma_matching_listeners_snoc(s.drop_first(), e, topic);
        assert(matching_listeners(s2, topic) =~= matching_listeners(s, topic) + tail);
    }
}

pub struct NotificationManager {
    patterns: Vec<PatternEntry>,
}

impl DeepView for NotificationManager {
    type V = Seq<PatternEntryV>;

    closed spec fn deep_view(&self) -> Seq<PatternEntryV> {
        self.patterns.deep_view()
    }
}

impl NotificationManager {
    pub open spec fn wf(&self) -> bool {
        nm_wf(self.deep_view())
    }

    pub fn new() -> (r: NotificationManager)
        ensures
            r.deep_view() == Seq::<PatternEntryV>::empty(),
            r.wf(),
    {
        let r = NotificationManager { patterns: Vec::new() };
        proof {
            assert(r.deep_view() =~= Seq::<PatternEntryV>::empty());
        }
        r
    }

    fn find(&self, pattern: &String) -> (r: Option<usize>)
        ensures
            match r {
                Some(i) => i < self.deep_view().len() && key_idx(self.deep_view(), pattern@) == i,
                None => !has_key(self.deep_view(), pattern@),
            },
    {
        let ghost s = self.deep_view();
        let n = self.patterns.len();
        let mut i: usize = 0;
        while i < n
            invariant
                i <= n,
                n == s.len(),
                s == self.deep_view(),
                forall|j: int| 0 <= j < i ==> (#[trigger] s[j]).key() != pattern@,
            decreases n - i,
        {
            if self.patterns[i].pattern == *pattern {
                proof {
                    lemma_key_idx_at(s, pattern@, i as int);
                }
                return Some(i);
            }
            i = i + 1;
        }
        proof {
            lemma_key_idx_absent(s, pattern@);
        }
        None
    }

    /// One registration of `client` on `pattern`; reports whether it is
    /// the client's first on that pattern.
    pub fn add_listener(&mut self, client: &String, pattern: &String) -> (first: bool)
        requires
            old(self).wf(),
        ensures
            final(self).deep_view() == nm_add(old(self).deep_view(), pattern@, client@),
            first == (listener_count(old(self).deep_view(), pattern@, client@) == 0),
            final(self).wf(),
    {
        let ghost s = self.deep_view();
        proof {
            lemma_key_idx_bounds(s, pattern@);
        }
        match self.find(pattern) {
            Some(i) => {
                let mut e = self.patterns.remove(i);
                let first = e.listeners.increment(client);
                proof {
                    lemma_cs_idx_bounds(s[i as int].listeners, client@);
                }
                self.patterns.insert(i, e);
                proof {
                    let ev = PatternEntryV {
                        pattern: s[i as int].pattern,
                        listeners: cs_inc(s[i as int].listeners, client@),
                    };
                    assert(e.deep_view() == ev);
                    assert(self.deep_view() =~= s.update(i as int, ev));
                    assert(nm_add(s, pattern@, client@) =~= s.update(i as int, ev));
                    lemma_keys_unique_update(s, i as int, ev);
                    assert(nm_wf(self.deep_view())) by {
                        assert(forall|j: int|
                            0 <= j < s.len() ==> #[trigger] self.deep_view()[j] == if j
                                == i as int {
                                ev
                            } else {
                                s[j]
                            });
                    }
                }
                first
            },
            None => {
                let mut listeners = CountedSet::new();
                let _ = listeners.increment(client);
                let e = PatternEntry { pattern: pattern.clone(), listeners };
                self.patterns.push(e);
                proof {
                    let ev = PatternEntryV {
                        pattern: pattern@,
                        listeners: cs_inc(Seq::<KeyCountV>::empty(), client@),
                    };
                    assert(e.deep_view() == ev);
                    assert(self.deep_view() =~= s.push(ev));
                    lemma_keys_unique_push(s, ev);
                    assert(nm_wf(self.deep_view())) by {
                        assert(forall|j: int|
                            0 <= j < s.len() ==> #[trigger] self.deep_view()[j] == s[j]);
                        assert(self.deep_view()[s.len() as int] == ev);
                        assert(ev.listeners.len() == 1);
                        assert(cs_wf(ev.listeners)) by {
                            crate::refcount::lemma_cs_inc_wf(Seq::<KeyCountV>::empty(), client@);
                        }
                    }
                }
                true
            },
        }
    }

    /// One deregistration of `client` from `pattern`; reports whether the
    /// client's last registration on the pattern is gone.
    pub fn remove_listener(&mut self, client: &String, pattern: &String, all: bool) -> (last: bool)
        requires
            old(self).wf(),
        ensures
            final(self).deep_view() == nm_remove(old(self).deep_view(), pattern@, client@, all),
            last == (cs_contains(pattern_listeners(old(self).deep_view(), pattern@), client@)
                && !cs_contains(
                cs_dec(pattern_listeners(old(self).deep_view(), pattern@), client@, all),
                client@,
            )),
            final(self).wf(),
    {
        let ghost s = self.deep_view();
        proof {
            lemma_key_idx_bounds(s, pattern@);
        }
        match self.find(pattern) {
            Some(i) => {
                let mut e = self.patterns.remove(i);
                let last = e.listeners.decrement(client, all);
                let empty_now = e.listeners.is_empty();
                let ghost ls2 = cs_dec(s[i as int].listeners, client@, all);
                if empty_now {
                    proof {
                        assert(self.deep_view() =~= s.remove(i as int));
                        assert(nm_remove(s, pattern@, client@, all) =~= s.remove(i as int));
                        crate::keyed::lemma_keys_unique_remove(s, i as int);
                        assert(nm_wf(self.deep_view())) by {
                            assert(forall|j: int|
                                0 <= j < self.deep_view().len()
                                    ==> #[trigger] self.deep_view()[j] == if j < i as int {
                                    s[j]
                                } else {
                                    s[j + 1]
                                });
                        }
                    }
                } else {
                    self.patterns.insert(i, e);
                    proof {
                        let ev = PatternEntryV { pattern: s[i as int].pattern, listeners: ls2 };
                        assert(e.deep_view() == ev);
                        assert(self.deep_view() =~= s.update(i as int, ev));
                        assert(nm_remove(s, pattern@, client@, all) =~= s.update(i as int, ev));
                        lemma_keys_unique_update(s, i as int, ev);
                        assert(nm_wf(self.deep_view())) by {
                            assert(forall|j: int|
                                0 <= j < s.len() ==> #[trigger] self.deep_view()[j] == if j
                                    == i as int {
                                    ev
                                } else {
                                    s[j]
                                });
                        }
                    }
                }
                last
            },
            None => {
                proof {
                    assert(pattern_listeners(s, pattern@) =~= Seq::<KeyCountV>::empty());
                }
                false
            },
        }
    }

    /// The listeners to tell about a subscription change on `topic`.
    pub fn listeners_for_topic(&self, topic: &String) -> (r: Vec<String>)
        ensures
            r.deep_view() == matching_listeners(self.deep_view(), topic@),
    {
        let ghost s = self.deep_view();
        let n = self.patterns.len();
        let mut r: Vec<String> = Vec::new();
        let mut i: usize = 0;
        proof {
            assert(r.deep_view() =~= matching_listeners(s.take(0), topic@));
        }
        while i < n
            invariant
                i <= n,
                n == s.len(),
                s == self.deep_view(),
                r.deep_view() == matching_listeners(s.take(i as int), topic@),
            decreases n - i,
        {
            let ghost r0 = r.deep_view();
            if pattern_matches(&self.patterns[i].pattern, topic) {
                let mut ids = self.patterns[i].listeners.keys();
                let ghost ids0 = ids.deep_view();
                r.append(&mut ids);
                proof {
                    assert(r.deep_view() =~= r0 + ids0);
                }
            }
            proof {
                lemma_matching_listeners_snoc(s.take(i as int), s[i as int], topic@);
                assert(s.take(i as int).push(s[i as int]) =~= s.take(i + 1));
                if !(re_valid(s[i as int].pattern) && re_matches(s[i as int].pattern, topic@)) {
                    assert(r.deep_view() =~= r0 + Seq::<Seq<char>>::empty());
                }
                assert(r.deep_view() =~= matching_listeners(s.take(i + 1), topic@));
            }
            i = i + 1;
        }
        proof {
            assert(s.take(n as int) =~= s);
        }
        r
    }

    /// A client's close: it leaves every pattern; patterns left without
    /// listeners disappear.
    pub fn handle_close(&mut self, client: &String)
        requires
            old(self).wf(),
        ensures
            final(self).deep_view() == nm_close(old(self).deep_view(), client@),
            forall|p: Seq<char>|
                !cs_contains(pattern_listeners(#[trigger] final(self).deep_view(), p), client@),
            final(self).wf(),
    {
        let ghost s = self.deep_view();
        let ghost c = client@;
        let mut i: usize = 0;
        let ghost p: int = 0;
        proof {
            assert(nm_close(s.take(0), c) =~= Seq::<PatternEntryV>::empty());
            assert(self.deep_view() =~= nm_close(s.take(0), c) + s.skip(0));
        }
        while i < self.patterns.len()
            invariant
                nm_wf(s),
                0 <= p <= s.len(),
                i == nm_close(s.take(p), c).len(),
                self.deep_view() == nm_close(s.take(p), c) + s.skip(p),
                self.patterns.len() == i + (s.len() - p),
                c == client@,
            decreases s.len() - p,
        {
            let ghost a = nm_close(s.take(p), c);
            let ghost dv0 = self.deep_view();
            let mut e = self.patterns.remove(i);
            proof {
                assert((a + s.skip(p))[a.len() as int] == s[p]);
                assert(e.deep_view() == s[p]);
                assert(self.deep_view() =~= dv0.remove(i as int));
                assert(dv0.remove(i as int) =~= a + s.skip(p + 1));
            }
            let ghost dv1 = self.deep_view();
            let _ = e.listeners.decrement(client, true);
            let ghost ls2 = cs_dec(s[p].listeners, c, true);
            if !e.listeners.is_empty() {
                self.patterns.insert(i, e);
                proof {
                    let ev = PatternEntryV { pattern: s[p].pattern, listeners: ls2 };
                    assert(e.deep_view() == ev);
                    assert(self.deep_view() =~= dv1.insert(i as int, ev));
                    assert(dv1.insert(i as int, ev) =~= a + seq![ev] + s.skip(p + 1));
                }
                i = i + 1;
            }
            proof {
                lemma_nm_close_snoc(s.take(p), s[p], c);
                assert(s.take(p).push(s[p]) =~= s.take(p + 1));
                if ls2.len() == 0 {
                    assert(nm_close(s.take(p + 1), c) =~= a);
                    assert(self.deep_view() =~= nm_close(s.take(p + 1), c) + s.skip(p + 1));
                } else {
                    let ev = PatternEntryV { pattern: s[p].pattern, listeners: ls2 };
                    assert(nm_close(s.take(p + 1), c) =~= a + seq![ev]);
                    assert(a + seq![ev] + s.skip(p + 1) =~= nm_close(s.take(p + 1), c) + s.skip(
                        p + 1,
                    ));
                }
                p = p + 1;
            }
        }
        proof {
            assert(s.take(p) =~= s);
            assert(self.deep_view() =~= nm_close(s, c));
            lemma_nm_close_wf(s, c);
            lemma_nm_close_no_client(s, c);
        }
    }
}

/// After a close the client listens on nothing.
proof fn lemma_nm_close_no_client(s: Seq<PatternEntryV>, client: Seq<char>)
    requires
        nm_wf(s),
    ensures
        forall|p: Seq<char>| !cs_contains(pattern_listeners(#[trigger] nm_close(s, client), p), client),
    decreases s.len(),
{
    let out = nm_close(s, client);
    assert(cs_contains(Seq::<KeyCountV>::empty(), client) == false);
    if s.len() == 0 {
        assert forall|p: Seq<char>| !cs_contains(pattern_listeners(out, p), client) by {
            lemma_key_idx_bounds(out, p);
        }
    } else {
        let rest = nm_close(s.drop_first(), client);
        assert(nm_wf(s.drop_first())) by {
            assert(forall|i: int|
                0 <= i < s.drop_first().len() ==> #[trigger] s.drop_first()[i] == s[i + 1]);
        }
        lemma_nm_close_no_client(s.drop_first(), client);
        let ls2 = cs_dec(s[0].listeners, client, true);
        assert forall|p: Seq<char>| !cs_contains(pattern_listeners(out, p), client) by {
            if ls2.len() == 0 {
            } else {
                let e = PatternEntryV { pattern: s[0].pattern, listeners: ls2 };
                crate::keyed::lemma_key_idx_concat(seq![e], rest, p);
                if has_key(out, p) {
                    lemma_key_idx_bounds(out, p);
                    if has_key(seq![e], p) {
                        lemma_key_idx_bounds(seq![e], p);
                        assert(out[key_idx(out, p)] == e);
                        if cs_contains(ls2, client) {
                            lemma_cs_idx_bounds(s[0].listeners, client);
                            crate::refcount::lemma_cs_removed_full(s[0].listeners, client);
                        }
                    } else {
                        assert(out[key_idx(out, p)] == rest[key_idx(out, p) - 1]);
                        assert(pattern_listeners(out, p) == pattern_listeners(rest, p)) by {
                            lemma_key_idx_bounds(rest, p);
                        }
                    }
                }
            }
        }
    }
}

/// A close keeps the index well-formed.
proof fn lemma_nm_close_wf(s: Seq<PatternEntryV>, client: Seq<char>)
    requires
        nm_wf(s),
    ensures
        nm_wf(nm_close(s, client)),
        forall|k: Seq<char>| has_key(nm_close(s, client), k) ==> has_key(s, k),
    decreases s.len(),
{
    if s.len() > 0 {
        let rest = nm_close(s.drop_first(), client);
        assert(nm_wf(s.drop_first())) by {
            assert(forall|i: int|
                0 <= i < s.drop_first().len() ==> #[trigger] s.drop_first()[i] == s[i + 1]);
        }
        lemma_nm_close_wf(s.drop_first(), client);
        let ls2 = cs_dec(s[0].listeners, client, true);
        crate::refcount::lemma_cs_dec_wf(s[0].listeners, client, true);
        if ls2.len() == 0 {
            assert forall|k: Seq<char>| has_key(rest, k) implies has_key(s, k) by {
                crate::keyed::lemma_has_key_drop(s, k);
            }
        } else {
            let e = PatternEntryV { pattern: s[0].pattern, listeners: ls2 };
            let whole = seq![e] + rest;
            assert forall|k: Seq<char>| has_key(whole, k) implies has_key(s, k) by {
                crate::keyed::lemma_key_idx_concat(seq![e], rest, k);
                if has_key(seq![e], k) {
                    lemma_key_idx_bounds(seq![e], k);
                    assert(seq![e][key_idx(seq![e], k)] == e);
                    lemma_key_idx_bounds(s, k);
                    assert(s[0].key() == k);
                    lemma_key_idx_at(s, k, 0);
                } else {
                    crate::keyed::lemma_has_key_drop(s, k);
                }
            }
            assert(keys_unique(whole)) by {
                assert forall|a: int, b: int| 0 <= a < b < whole.len() implies whole[a].key()
                    != whole[b].key() by {
                    if a == 0 {
                        assert(whole[b] == rest[b - 1]);
                        if whole[b].key() == e.pattern {
                            lemma_key_idx_at(rest, e.pattern, b - 1);
                            assert(has_key(s.drop_first(), e.pattern));
                            lemma_key_idx_bounds(s.drop_first(), e.pattern);
                            let j = key_idx(s.drop_first(), e.pattern);
                            assert(s[j + 1].key() == s[0].key());
                        }
                    } else {
                        assert(whole[a] == rest[a - 1] && whole[b] == rest[b - 1]);
                    }
                }
            }
            assert(nm_wf(whole)) by {
                assert(forall|i: int|
                    0 <= i < whole.len() ==> #[trigger] whole[i] == if i == 0 {
                        e
                    } else {
                        rest[i - 1]
                    });
            }
        }
    }
}

} // verus!
