//! The publisher index and packet entitlement filtering.
//!
//! The index is bidirectional: which topics each client has published, and
//! which clients have published each topic.  The two sides are mutual
//! inverses — an invariant every operation preserves.  A publisher is
//! recorded on its first successful publish of a topic; when a client
//! closes, the topics that lose their last publisher are reported so that
//! subscribers can be told the topic is stale.

use vstd::prelude::*;

use crate::authorization::set_nonempty;
use crate::keyed::{
    has_key, key_idx, keys_unique, lemma_key_idx_absent, lemma_key_idx_at, lemma_key_idx_bounds,
    lemma_key_idx_push, lemma_key_idx_update, lemma_key_removed, lemma_keys_unique_push,
    lemma_keys_unique_remove, lemma_keys_unique_update, lemma_remove_other_key, Keyed,
};
use crate::messages::{DataPacket, DataPacketV};

verus! {

impl Keyed for Seq<char> {
    open spec fn key(self) -> Seq<char> {
        self
    }
}

/// A string key with the distinct strings recorded under it.
pub struct StringListEntry {
    pub key: String,
    pub values: Vec<String>,
}

pub struct StringListEntryV {
    pub key: Seq<char>,
    pub values: Seq<Seq<char>>,
}

impl DeepView for StringListEntry {
    type V = StringListEntryV;

    open spec fn deep_view(&self) -> StringListEntryV {
        StringListEntryV { key: self.key@, values: self.values.deep_view() }
    }
}

impl Keyed for StringListEntryV {
    open spec fn key(self) -> Seq<char> {
        self.key
    }
}

/// The values recorded under a key; empty when the key is unknown.
pub open spec fn values_of(s: Seq<StringListEntryV>, k: Seq<char>) -> Seq<Seq<char>> {
    if has_key(s, k) {
        s[key_idx(s, k)].values
    } else {
        Seq::empty()
    }
}

/// Keys distinct; every entry non-empty with distinct values.
pub open spec fn side_wf(s: Seq<StringListEntryV>) -> bool {
    &&& keys_unique(s)
    &&& forall|i: int| 0 <= i < s.len() ==> (#[trigger] s[i]).values.len() >= 1
    &&& forall|i: int| 0 <= i < s.len() ==> keys_unique((#[trigger] s[i]).values)
}

/// The two sides record exactly the same pairs.
pub open spec fn inverse(a: Seq<StringListEntryV>, b: Seq<StringListEntryV>) -> bool {
    forall|k: Seq<char>, v: Seq<char>|
        #![trigger values_of(a, k).contains(v)]
        #![trigger values_of(b, v).contains(k)]
        values_of(a, k).contains(v) <==> values_of(b, v).contains(k)
}

/// One side after recording `v` under `k`; recording a present pair
/// changes nothing.
pub open spec fn ps_add(s: Seq<StringListEntryV>, k: Seq<char>, v: Seq<char>) -> Seq<
    StringListEntryV,
> {
    let i = key_idx(s, k);
    if i < 0 {
        s.push(StringListEntryV { key: k, values: seq![v] })
    } else if s[i].values.contains(v) {
        s
    } else {
        s.update(i, StringListEntryV { key: k, values: s[i].values.push(v) })
    }
}

/// One side after dropping `v` from under `k`; an entry left empty
/// disappears.
pub open spec fn ps_remove_val(s: Seq<StringListEntryV>, k: Seq<char>, v: Seq<char>) -> Seq<
    StringListEntryV,
> {
    let i = key_idx(s, k);
    if i < 0 {
        s
    } else {
        let vs2 = remove_value(s[i].values, v);
        if vs2.len() == 0 {
            s.remove(i)
        } else {
            s.update(i, StringListEntryV { key: k, values: vs2 })
        }
    }
}

/// One side after dropping the whole entry of `k`.
pub open spec fn ps_remove_key(s: Seq<StringListEntryV>, k: Seq<char>) -> Seq<StringListEntryV> {
    let i = key_idx(s, k);
    if i < 0 {
        s
    } else {
        s.remove(i)
    }
}

/// A value list with the first occurrence of `v` taken out.
pub open spec fn remove_value(vs: Seq<Seq<char>>, v: Seq<char>) -> Seq<Seq<char>> {
    let i = key_idx(vs, v);
    if i < 0 {
        vs
    } else {
        vs.remove(i)
    }
}

/// The publishers-by-topic side after a closing client leaves each of the
/// given topics, in order.
pub open spec fn pbt_close(
    b: Seq<StringListEntryV>,
    topics: Seq<Seq<char>>,
    c: Seq<char>,
) -> Seq<StringListEntryV>
    decreases topics.len(),
{
    if topics.len() == 0 {
        b
    } else {
        pbt_close(ps_remove_val(b, topics[0], c), topics.drop_first(), c)
    }
}

/// Of the topics a closing client published, those it was the last
/// publisher of, in order.
pub open spec fn stale_topics(
    topics: Seq<Seq<char>>,
    b: Seq<StringListEntryV>,
    c: Seq<char>,
) -> Seq<Seq<char>>
    decreases topics.len(),
{
    if topics.len() == 0 {
        Seq::empty()
    } else {
        (if remove_value(values_of(b, topics[0]), c).len() == 0 {
            seq![topics[0]]
        } else {
            Seq::<Seq<char>>::empty()
        }) + stale_topics(topics.drop_first(), b, c)
    }
}

// ---------------------------------------------------------------------------
// Facts about the operations
// ---------------------------------------------------------------------------
/// What each key's values are after an add.
proof fn lemma_ps_add_values(s: Seq<StringListEntryV>, k: Seq<char>, v: Seq<char>, k2: Seq<char>)
    ensures
        values_of(ps_add(s, k, v), k2) == if k2 == k {
            if values_of(s, k).contains(v) {
                values_of(s, k)
            } else {
                values_of(s, k).push(v)
            }
        } else {
            values_of(s, k2)
        },
{
    lemma_key_idx_bounds(s, k);
    lemma_key_idx_bounds(s, k2);
    let i = key_idx(s, k);
    if i < 0 {
        let e = StringListEntryV { key: k, values: seq![v] };
        lemma_key_idx_push(s, e, k2);
        if k2 == k {
            assert(values_of(s, k) =~= Seq::<Seq<char>>::empty());
            assert(values_of(s, k).push(v) =~= seq![v]);
        }
    } else {
        if !s[i].values.contains(v) {
            let e = StringListEntryV { key: k, values: s[i].values.push(v) };
            lemma_key_idx_update(s, i, e, k2);
            lemma_key_idx_bounds(ps_add(s, k, v), k2);
        }
    }
}

/// What each key's values are after a value removal.
proof fn lemma_ps_remove_val_values(
    s: Seq<StringListEntryV>,
    k: Seq<char>,
    v: Seq<char>,
    k2: Seq<char>,
)
    requires
        keys_unique(s),
    ensures
        values_of(ps_remove_val(s, k, v), k2) == if k2 == k {
            remove_value(values_of(s, k), v)
        } else {
            values_of(s, k2)
        },
{
    lemma_key_idx_bounds(s, k);
    lemma_key_idx_bounds(s, k2);
    let i = key_idx(s, k);
    if i >= 0 {
        let vs2 = remove_value(s[i].values, v);
        if vs2.len() == 0 {
            lemma_keys_unique_remove(s, i);
            if k2 == k {
                lemma_key_removed(s, k);
                assert(values_of(s.remove(i), k) =~= Seq::<Seq<char>>::empty());
            } else {
                lemma_remove_other_key(s, i, k2);
            }
        } else {
            let e = StringListEntryV { key: k, values: vs2 };
            lemma_key_idx_update(s, i, e, k2);
            lemma_key_idx_bounds(ps_remove_val(s, k, v), k2);
        }
    }
}

/// What each key's values are after a key removal.
proof fn lemma_ps_remove_key_values(s: Seq<StringListEntryV>, k: Seq<char>, k2: Seq<char>)
    requires
        keys_unique(s),
    ensures
        values_of(ps_remove_key(s, k), k2) == if k2 == k {
            Seq::<Seq<char>>::empty()
        } else {
            values_of(s, k2)
        },
{
    lemma_key_idx_bounds(s, k);
    let i = key_idx(s, k);
    if i >= 0 {
        lemma_keys_unique_remove(s, i);
        if k2 == k {
            lemma_key_removed(s, k);
        } else {
            lemma_remove_other_key(s, i, k2);
        }
    }
}

/// Membership in a value list after removing one value: the removed value
/// leaves (the list held it once), every other value stays.
proof fn lemma_remove_value_contains(vs: Seq<Seq<char>>, v: Seq<char>, x: Seq<char>)
    requires
        keys_unique(vs),
    ensures
        remove_value(vs, v).contains(x) == (vs.contains(x) && x != v),
{
    lemma_key_idx_bounds(vs, v);
    lemma_vs_contains_iff_has_key(vs, v);
    lemma_vs_contains_iff_has_key(vs, x);
    let i = key_idx(vs, v);
    if i >= 0 {
        let vs2 = vs.remove(i);
        lemma_keys_unique_remove(vs, i);
        lemma_vs_contains_iff_has_key(vs2, x);
        if x == v {
            lemma_key_removed(vs, v);
        } else {
            if vs.contains(x) {
                let j = choose|j: int| 0 <= j < vs.len() && vs[j] == x;
                let j2 = if j < i {
                    j
                } else {
                    j - 1
                };
                assert(vs2[j2] == vs[j]);
                assert(vs2.contains(x));
            } else {
                if vs2.contains(x) {
                    let j = choose|j: int| 0 <= j < vs2.len() && vs2[j] == x;
                    let j0 = if j < i {
                        j
                    } else {
                        j + 1
                    };
                    assert(vs[j0] == vs2[j]);
                }
            }
        }
    }
}

/// For plain string lists, `contains` and key presence agree.
proof fn lemma_vs_contains_iff_has_key(vs: Seq<Seq<char>>, v: Seq<char>)
    ensures
        vs.contains(v) == has_key(vs, v),
{
    lemma_key_idx_bounds(vs, v);
    if vs.contains(v) {
        let j = choose|j: int| 0 <= j < vs.len() && vs[j] == v;
        lemma_key_idx_at_or_before(vs, v, j);
    }
    if has_key(vs, v) {
        assert(vs[key_idx(vs, v)] == v);
    }
}

proof fn lemma_key_idx_at_or_before(vs: Seq<Seq<char>>, v: Seq<char>, x: int)
    requires
        0 <= x < vs.len(),
        vs[x] == v,
    ensures
        has_key(vs, v),
    decreases vs.len(),
{
    if vs[0] == v {
    } else {
        lemma_key_idx_at_or_before(vs.drop_first(), v, x - 1);
        lemma_key_idx_bounds(vs.drop_first(), v);
    }
}

// ---------------------------------------------------------------------------
// Packet filtering
// ---------------------------------------------------------------------------
/// A packet may go to a reader iff the reader's entitlement set is
/// non-empty and holds every entitlement the packet names.
pub open spec fn packet_allowed(p: DataPacketV, ent: Set<i32>) -> bool {
    &&& set_nonempty(ent)
    &&& forall|j: int| 0 <= j < p.entitlements.len() ==> ent.contains(#[trigger] p.entitlements[j])
}

/// The packets the filter passes, in order.
pub open spec fn allowed_packets(packets: Seq<DataPacketV>, ent: Set<i32>) -> Seq<DataPacketV>
    decreases packets.len(),
{
    if packets.len() == 0 {
        Seq::empty()
    } else {
        (if packet_allowed(packets[0], ent) {
            seq![packets[0]]
        } else {
            Seq::<DataPacketV>::empty()
        }) + allowed_packets(packets.drop_first(), ent)
    }
}

proof fn lemma_allowed_packets_snoc(packets: Seq<DataPacketV>, p: DataPacketV, ent: Set<i32>)
    ensures
        allowed_packets(packets.push(p), ent) == allowed_packets(packets, ent) + (
        if packet_allowed(p, ent) {
            seq![p]
        } else {
            Seq::<DataPacketV>::empty()
        }),
    decreases packets.len(),
{
    let s2 = packets.push(p);
    let tail = if packet_allowed(p, ent) {
        seq![p]
    } else {
        Seq::<DataPacketV>::empty()
    };
    if packets.len() == 0 {
        assert(s2[0] == p);
        assert(s2.drop_first() =~= Seq::<DataPacketV>::empty());
        assert(allowed_packets(s2.drop_first(), ent) =~= Seq::<DataPacketV>::empty());
        assert(allowed_packets(s2, ent) =~= allowed_packets(packets, ent) + tail);
    } else {
        assert(s2[0] == packets[0]);
        assert(s2.drop_first() =~= packets.drop_first().push(p));
        lemma_allowed_packets_snoc(packets.drop_first(), p, ent);
        assert(allowed_packets(s2, ent) =~= allowed_packets(packets, ent) + tail);
    }
}

/// The delivery rule of a publish: with an unentitled publisher the
/// packets go unfiltered; otherwise they are filtered against the
/// intersection of publisher and reader entitlements.
pub open spec fn delivered_packets(
    packets: Seq<DataPacketV>,
    pub_ent: Set<i32>,
    sub_ent: Set<i32>,
) -> Seq<DataPacketV> {
    if !set_nonempty(pub_ent) {
        packets
    } else {
        allowed_packets(packets, pub_ent.intersect(sub_ent))
    }
}

impl DataPacket {
    /// Whether this packet may go to a reader with the given entitlements.
    pub fn is_authorized(&self, entitlements: &Vec<i32>) -> (r: bool)
        ensures
            r == packet_allowed(self.deep_view(), entitlements@.to_set()),
    {
        if entitlements.len() == 0 {
            proof {
                assert forall|x: i32| !entitlements@.to_set().contains(x) by {}
            }
            return false;
        }
        proof {
            assert(entitlements@.to_set().contains(entitlements@[0]));
        }
        let n = self.entitlements.len();
        let mut j: usize = 0;
        while j < n
            invariant
                j <= n,
                n == self.entitlements.len(),
                forall|x: int|
                    0 <= x < j ==> entitlements@.to_set().contains(
                        #[trigger] self.entitlements@[x],
                    ),
            decreases n - j,
        {
            if !contains_i32(entitlements, self.entitlements[j]) {
                proof {
                    assert(self.deep_view().entitlements[j as int] == self.entitlements@[j as int]);
                }
                return false;
            }
            j = j + 1;
        }
        true
    }
}

/// Whether a list of entitlements holds a given one.
fn contains_i32(vs: &Vec<i32>, x: i32) -> (r: bool)
    ensures
        r == vs@.to_set().contains(x),
{
    let n = vs.len();
    let mut i: usize = 0;
    while i < n
        invariant
            i <= n,
            n == vs.len(),
            forall|j: int| 0 <= j < i ==> vs@[j] != x,
        decreases n - i,
    {
        if vs[i] == x {
            proof {
                assert(vs@.contains(x));
            }
            return true;
        }
        i = i + 1;
    }
    proof {
        assert(!vs@.contains(x));
    }
    false
}

/// The elements two entitlement lists share.
pub fn intersect_entitlements(a: &Vec<i32>, b: &Vec<i32>) -> (r: Vec<i32>)
    ensures
        r@.to_set() == a@.to_set().intersect(b@.to_set()),
{
    let n = a.len();
    let mut r: Vec<i32> = Vec::new();
    let mut i: usize = 0;
    while i < n
        invariant
            i <= n,
            n == a.len(),
            r@.to_set() =~= a@.take(i as int).to_set().intersect(b@.to_set()),
        decreases n - i,
    {
        let ghost r0 = r@;
        if contains_i32(b, a[i]) && !contains_i32(&r, a[i]) {
            r.push(a[i]);
        }
        proof {
            assert(a@.take(i + 1) =~= a@.take(i as int).push(a@[i as int]));
            lemma_take_push_to_set(a@, i as int);
            if contains_i32_spec(b@, a@[i as int]) {
                if r0.to_set().contains(a@[i as int]) {
                    assert(r@.to_set() =~= a@.take(i + 1).to_set().intersect(b@.to_set()));
                } else {
                    assert(r@ =~= r0.push(a@[i as int]));
                    lemma_push_to_set(r0, a@[i as int]);
                    assert(r@.to_set() =~= a@.take(i + 1).to_set().intersect(b@.to_set()));
                }
            } else {
                assert(r@.to_set() =~= a@.take(i + 1).to_set().intersect(b@.to_set()));
            }
        }
        i = i + 1;
    }
    proof {
        assert(a@.take(n as int) =~= a@);
    }
    r
}

/// Spec twin of the membership test.
pub open spec fn contains_i32_spec(vs: Seq<i32>, x: i32) -> bool {
    vs.to_set().contains(x)
}

/// Membership in the filtered packets: a packet passes exactly when it was
/// offered and the rule lets it through.
pub proof fn lemma_allowed_contains(s: Seq<DataPacketV>, ent: Set<i32>, p: DataPacketV)
    ensures
        allowed_packets(s, ent).contains(p) == (s.contains(p) && packet_allowed(p, ent)),
    decreases s.len(),
{
    if s.len() == 0 {
    } else {
        lemma_allowed_contains(s.drop_first(), ent, p);
        let head = if packet_allowed(s[0], ent) {
            seq![s[0]]
        } else {
            Seq::<DataPacketV>::empty()
        };
        let whole = head + allowed_packets(s.drop_first(), ent);
        if whole.contains(p) {
            let i = choose|i: int| 0 <= i < whole.len() && whole[i] == p;
            if i < head.len() {
                assert(p == s[0]);
                assert(s.contains(p)) by {
                    assert(s[0] == p);
                }
            } else {
                assert(allowed_packets(s.drop_first(), ent)[i - head.len()] == p);
                assert(allowed_packets(s.drop_first(), ent).contains(p));
                let j = choose|j: int|
                    0 <= j < s.drop_first().len() && s.drop_first()[j] == p;
                assert(s[j + 1] == p);
            }
        }
        if s.contains(p) && packet_allowed(p, ent) {
            let i = choose|i: int| 0 <= i < s.len() && s[i] == p;
            if i == 0 {
                assert(whole[0] == p);
            } else {
                assert(s.drop_first()[i - 1] == p);
                assert(s.drop_first().contains(p));
                let j = choose|j: int|
                    0 <= j < allowed_packets(s.drop_first(), ent).len() && allowed_packets(
                        s.drop_first(),
                        ent,
                    )[j] == p;
                assert(whole[head.len() + j] == p);
            }
        }
    }
}

/// A packet delivered to one reader would go to any reader whose
/// entitlements include the first reader's, all else equal.
pub proof fn lemma_entitlement_monotonic(
    packets: Seq<DataPacketV>,
    pub_ent: Set<i32>,
    sub_ent1: Set<i32>,
    sub_ent2: Set<i32>,
    p: DataPacketV,
)
    requires
        sub_ent1.subset_of(sub_ent2),
        delivered_packets(packets, pub_ent, sub_ent1).contains(p),
    ensures
        delivered_packets(packets, pub_ent, sub_ent2).contains(p),
{
    if set_nonempty(pub_ent) {
        let e1 = pub_ent.intersect(sub_ent1);
        let e2 = pub_ent.intersect(sub_ent2);
        lemma_allowed_contains(packets, e1, p);
        lemma_allowed_contains(packets, e2, p);
        assert forall|x: i32| e1.contains(x) implies e2.contains(x) by {}
        let w = choose|x: i32| e1.contains(x);
        assert(e2.contains(w));
    }
}

// ---------------------------------------------------------------------------
// The inverse invariant under the operations
// ---------------------------------------------------------------------------
proof fn lemma_push_contains(vs: Seq<Seq<char>>, v: Seq<char>, x: Seq<char>)
    ensures
        vs.push(v).contains(x) == (vs.contains(x) || x == v),
{
    if vs.push(v).contains(x) {
        let i = choose|i: int| 0 <= i < vs.push(v).len() && vs.push(v)[i] == x;
        if i < vs.len() {
            assert(vs[i] == x);
        }
    }
    if vs.contains(x) {
        let i = choose|i: int| 0 <= i < vs.len() && vs[i] == x;
        assert(vs.push(v)[i] == x);
    }
    if x == v {
        assert(vs.push(v)[vs.len() as int] == x);
    }
}

proof fn lemma_ps_add_wf(s: Seq<StringListEntryV>, k: Seq<char>, v: Seq<char>)
    requires
        side_wf(s),
    ensures
        side_wf(ps_add(s, k, v)),
{
    lemma_key_idx_bounds(s, k);
    let i = key_idx(s, k);
    if i < 0 {
        let e = StringListEntryV { key: k, values: seq![v] };
        lemma_keys_unique_push(s, e);
        let s2 = s.push(e);
        assert(forall|j: int|
            0 <= j < s2.len() ==> #[trigger] s2[j] == if j < s.len() {
                s[j]
            } else {
                e
            });
        assert(keys_unique(e.values)) by {
            assert(e.values.len() == 1);
        }
    } else if !s[i].values.contains(v) {
        lemma_vs_contains_iff_has_key(s[i].values, v);
        lemma_keys_unique_push(s[i].values, v);
        let e = StringListEntryV { key: k, values: s[i].values.push(v) };
        lemma_keys_unique_update(s, i, e);
        let s2 = s.update(i, e);
        assert(forall|j: int|
            0 <= j < s2.len() ==> #[trigger] s2[j] == if j == i {
                e
            } else {
                s[j]
            });
    }
}

/// Recording the pair (`k`, `v`) on both sides keeps them inverse.
proof fn lemma_ps_add_inverse(
    a: Seq<StringListEntryV>,
    b: Seq<StringListEntryV>,
    k: Seq<char>,
    v: Seq<char>,
)
    requires
        side_wf(a),
        side_wf(b),
        inverse(a, b),
    ensures
        side_wf(ps_add(a, k, v)),
        side_wf(ps_add(b, v, k)),
        inverse(ps_add(a, k, v), ps_add(b, v, k)),
{
    lemma_ps_add_wf(a, k, v);
    lemma_ps_add_wf(b, v, k);
    let a2 = ps_add(a, k, v);
    let b2 = ps_add(b, v, k);
    assert forall|k2: Seq<char>, v2: Seq<char>|
        values_of(a2, k2).contains(v2) == values_of(b2, v2).contains(k2) by {
        lemma_ps_add_values(a, k, v, k2);
        lemma_ps_add_values(b, v, k, v2);
        lemma_push_contains(values_of(a, k), v, v2);
        lemma_push_contains(values_of(b, v), k, k2);
        assert(values_of(a, k2).contains(v2) == values_of(b, v2).contains(k2));
        assert(values_of(a, k).contains(v) == values_of(b, v).contains(k));
    }
}

/// One remove step of the closing fold.
proof fn lemma_pbt_close_snoc(
    b: Seq<StringListEntryV>,
    ts: Seq<Seq<char>>,
    t: Seq<char>,
    c: Seq<char>,
)
    ensures
        pbt_close(b, ts.push(t), c) == ps_remove_val(pbt_close(b, ts, c), t, c),
    decreases ts.len(),
{
    let s2 = ts.push(t);
    if ts.len() == 0 {
        assert(s2[0] == t);
        assert(s2.drop_first() =~= Seq::<Seq<char>>::empty());
        assert(pbt_close(ps_remove_val(b, t, c), s2.drop_first(), c) == ps_remove_val(b, t, c));
    } else {
        assert(s2[0] == ts[0]);
        assert(s2.drop_first() =~= ts.drop_first().push(t));
        lemma_pbt_close_snoc(ps_remove_val(b, ts[0], c), ts.drop_first(), t, c);
    }
}

proof fn lemma_stale_topics_snoc(
    ts: Seq<Seq<char>>,
    t: Seq<char>,
    b: Seq<StringListEntryV>,
    c: Seq<char>,
)
    ensures
        stale_topics(ts.push(t), b, c) == stale_topics(ts, b, c) + (if remove_value(
            values_of(b, t),
            c,
        ).len() == 0 {
            seq![t]
        } else {
            Seq::<Seq<char>>::empty()
        }),
    decreases ts.len(),
{
    let s2 = ts.push(t);
    let tail = if remove_value(values_of(b, t), c).len() == 0 {
        seq![t]
    } else {
        Seq::<Seq<char>>::empty()
    };
    if ts.len() == 0 {
        assert(s2[0] == t);
        assert(s2.drop_first() =~= Seq::<Seq<char>>::empty());
        assert(stale_topics(s2.drop_first(), b, c) =~= Seq::<Seq<char>>::empty());
        assert(stale_topics(s2, b, c) =~= stale_topics(ts, b, c) + tail);
    } else {
        assert(s2[0] == ts[0]);
        assert(s2.drop_first() =~= ts.drop_first().push(t));
        lemma_stale_topics_snoc(ts.drop_first(), t, b, c);
        assert(stale_topics(s2, b, c) =~= stale_topics(ts, b, c) + tail);
    }
}

proof fn lemma_ps_remove_val_wf(s: Seq<StringListEntryV>, k: Seq<char>, v: Seq<char>)
    requires
        side_wf(s),
    ensures
        side_wf(ps_remove_val(s, k, v)),
{
    lemma_key_idx_bounds(s, k);
    let i = key_idx(s, k);
    if i >= 0 {
        let vs2 = remove_value(s[i].values, v);
        lemma_key_idx_bounds(s[i].values, v);
        if vs2.len() == 0 {
            lemma_keys_unique_remove(s, i);
            let s2 = s.remove(i);
            assert(forall|j: int|
                0 <= j < s2.len() ==> #[trigger] s2[j] == if j < i {
                    s[j]
                } else {
                    s[j + 1]
                });
        } else {
            let e = StringListEntryV { key: k, values: vs2 };
            lemma_keys_unique_update(s, i, e);
            if key_idx(s[i].values, v) >= 0 {
                lemma_keys_unique_remove(s[i].values, key_idx(s[i].values, v));
            }
            let s2 = s.update(i, e);
            assert(forall|j: int|
                0 <= j < s2.len() ==> #[trigger] s2[j] == if j == i {
                    e
                } else {
                    s[j]
                });
        }
    }
}

/// What each topic's publishers are after the closing fold, against the
/// original side.
proof fn lemma_pbt_close_values(b: Seq<StringListEntryV>, ts: Seq<Seq<char>>, c: Seq<char>)
    requires
        side_wf(b),
        keys_unique(ts),
    ensures
        side_wf(pbt_close(b, ts, c)),
        forall|t: Seq<char>|
            values_of(#[trigger] pbt_close(b, ts, c), t) == if ts.contains(t) {
                remove_value(values_of(b, t), c)
            } else {
                values_of(b, t)
            },
    decreases ts.len(),
{
    if ts.len() == 0 {
        assert(forall|t: Seq<char>| !ts.contains(t));
    } else {
        let t0 = ts[0];
        let b1 = ps_remove_val(b, t0, c);
        lemma_ps_remove_val_wf(b, t0, c);
        assert(keys_unique(ts.drop_first())) by {
            assert(forall|j: int|
                0 <= j < ts.drop_first().len() ==> #[trigger] ts.drop_first()[j] == ts[j + 1]);
        }
        lemma_pbt_close_values(b1, ts.drop_first(), c);
        assert forall|t: Seq<char>|
            values_of(#[trigger] pbt_close(b, ts, c), t) == if ts.contains(t) {
                remove_value(values_of(b, t), c)
            } else {
                values_of(b, t)
            } by {
            lemma_ps_remove_val_values(b, t0, c, t);
            if t == t0 {
                if ts.drop_first().contains(t) {
                    let j = choose|j: int|
                        0 <= j < ts.drop_first().len() && ts.drop_first()[j] == t;
                    assert(ts[j + 1] == t && ts[0] == t);
                }
                assert(!ts.drop_first().contains(t));
                assert(ts.contains(t)) by {
                    assert(ts[0] == t);
                }
            } else {
                if ts.contains(t) {
                    let j = choose|j: int| 0 <= j < ts.len() && ts[j] == t;
                    assert(ts.drop_first()[j - 1] == t);
                } else {
                    if ts.drop_first().contains(t) {
                        let j = choose|j: int|
                            0 <= j < ts.drop_first().len() && ts.drop_first()[j] == t;
                        assert(ts[j + 1] == t);
                    }
                }
            }
        }
    }
}

/// A close keeps the two sides inverse: the closing client's pairs are
/// gone from both, and no other pair moves.
proof fn lemma_close_inverse(a: Seq<StringListEntryV>, b: Seq<StringListEntryV>, c: Seq<char>)
    requires
        side_wf(a),
        side_wf(b),
        inverse(a, b),
    ensures
        side_wf(ps_remove_key(a, c)),
        side_wf(pbt_close(b, values_of(a, c), c)),
        inverse(ps_remove_key(a, c), pbt_close(b, values_of(a, c), c)),
    decreases a.len(),
{
    let ts = values_of(a, c);
    lemma_key_idx_bounds(a, c);
    assert(keys_unique(ts)) by {
        if has_key(a, c) {
        } else {
            assert(ts =~= Seq::<Seq<char>>::empty());
        }
    }
    lemma_pbt_close_values(b, ts, c);
    let a2 = ps_remove_key(a, c);
    let b2 = pbt_close(b, ts, c);
    assert(side_wf(a2)) by {
        if has_key(a, c) {
            lemma_keys_unique_remove(a, key_idx(a, c));
            assert(forall|j: int|
                0 <= j < a2.len() ==> #[trigger] a2[j] == if j < key_idx(a, c) {
                    a[j]
                } else {
                    a[j + 1]
                });
        }
    }
    assert forall|k2: Seq<char>, v2: Seq<char>|
        values_of(a2, k2).contains(v2) == values_of(b2, v2).contains(k2) by {
        lemma_ps_remove_key_values(a, c, k2);
        assert(values_of(a, k2).contains(v2) == values_of(b, v2).contains(k2));
        assert(values_of(a, c).contains(v2) == values_of(b, v2).contains(c));
        if ts.contains(v2) {
            assert(keys_unique(values_of(b, v2))) by {
                lemma_key_idx_bounds(b, v2);
                if !has_key(b, v2) {
                    assert(values_of(b, v2) =~= Seq::<Seq<char>>::empty());
                }
            }
            lemma_remove_value_contains(values_of(b, v2), c, k2);
        }
        lemma_vs_contains_iff_has_key(ts, v2);
    }
}

// ---------------------------------------------------------------------------
// The executable index
// ---------------------------------------------------------------------------
fn find_entry(entries: &Vec<StringListEntry>, key: &String) -> (r: Option<usize>)
    ensures
        match r {
            Some(i) => i < entries.deep_view().len() && key_idx(entries.deep_view(), key@) == i,
            None => !has_key(entries.deep_view(), key@),
        },
{
    let ghost s = entries.deep_view();
    let n = entries.len();
    let mut i: usize = 0;
    while i < n
        invariant
            i <= n,
            n == s.len(),
            s == entries.deep_view(),
            forall|j: int| 0 <= j < i ==> (#[trigger] s[j]).key() != key@,
        decreases n - i,
    {
        if entries[i].key == *key {
            proof {
                lemma_key_idx_at(s, key@, i as int);
            }
            return Some(i);
        }
        i = i + 1;
    }
    proof {
        lemma_key_idx_absent(s, key@);
    }
    None
}

fn contains_string(vs: &Vec<String>, v: &String) -> (r: bool)
    ensures
        r == vs.deep_view().contains(v@),
{
    let ghost s = vs.deep_view();
    let n = vs.len();
    let mut i: usize = 0;
    while i < n
        invariant
            i <= n,
            n == s.len(),
            s == vs.deep_view(),
            forall|j: int| 0 <= j < i ==> s[j] != v@,
        decreases n - i,
    {
        if vs[i] == *v {
            proof {
                assert(s[i as int] == v@);
            }
            return true;
        }
        i = i + 1;
    }
    proof {
        if s.contains(v@) {
            let j = choose|j: int| 0 <= j < s.len() && s[j] == v@;
        }
    }
    false
}

/// Drops the first occurrence of `v`, if any.
fn remove_value_exec(vs: &mut Vec<String>, v: &String)
    ensures
        final(vs).deep_view() == remove_value(old(vs).deep_view(), v@),
{
    let ghost s = vs.deep_view();
    let n = vs.len();
    let mut i: usize = 0;
    while i < n
        invariant
            i <= n,
            n == s.len(),
            s == vs.deep_view(),
            s == old(vs).deep_view(),
            forall|j: int| 0 <= j < i ==> (#[trigger] s[j]).key() != v@,
        decreases n - i,
    {
        if vs[i] == *v {
            proof {
                lemma_key_idx_at(s, v@, i as int);
            }
            let _ = vs.remove(i);
            proof {
                assert(vs.deep_view() =~= s.remove(i as int));
            }
            return ;
        }
        i = i + 1;
    }
    proof {
        lemma_key_idx_absent(s, v@);
    }
}

/// Records `value` under `key`, once.
fn add_one(entries: &mut Vec<StringListEntry>, key: &String, value: &String)
    ensures
        final(entries).deep_view() == ps_add(old(entries).deep_view(), key@, value@),
{
    let ghost s = entries.deep_view();
    proof {
        lemma_key_idx_bounds(s, key@);
    }
    match find_entry(entries, key) {
        None => {
            let mut values: Vec<String> = Vec::new();
            values.push(value.clone());
            let e = StringListEntry { key: key.clone(), values };
            proof {
                assert(e.deep_view().values =~= seq![value@]);
            }
            entries.push(e);
            proof {
                assert(entries.deep_view() =~= ps_add(s, key@, value@));
            }
        },
        Some(i) => {
            if contains_string(&entries[i].values, value) {
                proof {
                    assert(entries.deep_view() =~= ps_add(s, key@, value@));
                }
            } else {
                let mut e = entries.remove(i);
                proof {
                    assert(e.deep_view() == s[i as int]);
                }
                e.values.push(value.clone());
                entries.insert(i, e);
                proof {
                    let ev = StringListEntryV {
                        key: s[i as int].key,
                        values: s[i as int].values.push(value@),
                    };
                    assert(e.deep_view().values =~= ev.values);
                    assert(e.deep_view() == ev);
                    assert(entries.deep_view() =~= s.update(i as int, ev));
                    assert(ps_add(s, key@, value@) =~= s.update(i as int, ev));
                }
            }
        },
    }
}

/// The publisher index: which topics each client publishes and which
/// clients publish each topic, kept mutually inverse.
pub struct PublisherManager {
    topics_by_publisher: Vec<StringListEntry>,
    publishers_by_topic: Vec<StringListEntry>,
}

impl PublisherManager {
    /// The topics-by-publisher side.
    pub closed spec fn tbp(&self) -> Seq<StringListEntryV> {
        self.topics_by_publisher.deep_view()
    }

    /// The publishers-by-topic side.
    pub closed spec fn pbt(&self) -> Seq<StringListEntryV> {
        self.publishers_by_topic.deep_view()
    }

    /// Both sides well-formed and mutually inverse.
    pub open spec fn wf(&self) -> bool {
        &&& side_wf(self.tbp())
        &&& side_wf(self.pbt())
        &&& inverse(self.tbp(), self.pbt())
    }

    pub fn new() -> (r: PublisherManager)
        ensures
            r.tbp() == Seq::<StringListEntryV>::empty(),
            r.pbt() == Seq::<StringListEntryV>::empty(),
            r.wf(),
    {
        let r = PublisherManager {
            topics_by_publisher: Vec::new(),
            publishers_by_topic: Vec::new(),
        };
        proof {
            assert(r.tbp() =~= Seq::<StringListEntryV>::empty());
            assert(r.pbt() =~= Seq::<StringListEntryV>::empty());
            assert forall|k: Seq<char>, v: Seq<char>|
                values_of(r.tbp(), k).contains(v) == values_of(r.pbt(), v).contains(k) by {
                lemma_key_idx_bounds(r.tbp(), k);
                lemma_key_idx_bounds(r.pbt(), v);
            }
        }
        r
    }

    /// The packets of a publish that a reader with the given entitlements
    /// may receive, in order.
    pub fn get_authorized_data(&self, data_packets: Vec<DataPacket>, entitlements: &Vec<i32>) -> (r:
        Vec<DataPacket>)
        ensures
            r.deep_view() == allowed_packets(data_packets.deep_view(), entitlements@.to_set()),
    {
        let ghost ps = data_packets.deep_view();
        let ghost ent = entitlements@.to_set();
        let n = data_packets.len();
        let mut packets = data_packets;
        let mut r: Vec<DataPacket> = Vec::new();
        let mut i: usize = 0;
        proof {
            assert(r.deep_view() =~= allowed_packets(ps.take(0), ent));
        }
        while i < n
            invariant
                i <= n,
                n == ps.len(),
                packets.len() == n - i,
                packets.deep_view() == ps.skip(i as int),
                r.deep_view() == allowed_packets(ps.take(i as int), ent),
                ent == entitlements@.to_set(),
            decreases n - i,
        {
            let ghost r0 = r.deep_view();
            let ghost pk0 = packets.deep_view();
            let p = packets.remove(0);
            proof {
                assert(p.deep_view() == pk0[0]);
                assert(pk0[0] == ps.skip(i as int)[0]);
            }
            proof {
                assert(p.deep_view() == ps[i as int]);
                assert(packets.deep_view() =~= pk0.remove(0));
                assert(pk0.remove(0) =~= ps.skip(i + 1));
            }
            if p.is_authorized(entitlements) {
                r.push(p);
                proof {
                    assert(r.deep_view() =~= r0 + seq![ps[i as int]]);
                }
            }
            proof {
                lemma_allowed_packets_snoc(ps.take(i as int), ps[i as int], ent);
                assert(ps.take(i as int).push(ps[i as int]) =~= ps.take(i + 1));
                if !packet_allowed(ps[i as int], ent) {
                    assert(r.deep_view() =~= r0 + Seq::<DataPacketV>::empty());
                }
                assert(r.deep_view() =~= allowed_packets(ps.take(i + 1), ent));
            }
            i = i + 1;
        }
        proof {
            assert(ps.take(n as int) =~= ps);
        }
        r
    }

    /// Records a client as a publisher of a topic.
    pub fn add_as_topic_publisher(&mut self, publisher_id: &String, topic: &String)
        requires
            old(self).wf(),
        ensures
            final(self).tbp() == ps_add(old(self).tbp(), publisher_id@, topic@),
            final(self).pbt() == ps_add(old(self).pbt(), topic@, publisher_id@),
            final(self).wf(),
    {
        proof {
            lemma_ps_add_inverse(self.tbp(), self.pbt(), publisher_id@, topic@);
        }
        add_one(&mut self.topics_by_publisher, publisher_id, topic);
        add_one(&mut self.publishers_by_topic, topic, publisher_id);
    }

    /// A client's close: its publisher records leave both sides; the
    /// topics that lost their last publisher are returned, in order.
    pub fn handle_close(&mut self, closed_client_id: &String) -> (stale: Vec<String>)
        requires
            old(self).wf(),
        ensures
            final(self).tbp() == ps_remove_key(old(self).tbp(), closed_client_id@),
            final(self).pbt() == pbt_close(
                old(self).pbt(),
                values_of(old(self).tbp(), closed_client_id@),
                closed_client_id@,
            ),
            stale.deep_view() == stale_topics(
                values_of(old(self).tbp(), closed_client_id@),
                old(self).pbt(),
                closed_client_id@,
            ),
            final(self).wf(),
    {
        let ghost a = self.tbp();
        let ghost b = self.pbt();
        let ghost c = closed_client_id@;
        proof {
            lemma_key_idx_bounds(a, c);
            lemma_close_inverse(a, b, c);
        }
        match find_entry(&self.topics_by_publisher, closed_client_id) {
            None => {
                let stale: Vec<String> = Vec::new();
                proof {
                    assert(values_of(a, c) =~= Seq::<Seq<char>>::empty());
                    assert(stale.deep_view() =~= stale_topics(values_of(a, c), b, c));
                }
                stale
            },
            Some(i) => {
                let entry = self.topics_by_publisher.remove(i);
                proof {
                    assert(entry.deep_view() == a[i as int]);
                    assert(self.tbp() =~= ps_remove_key(a, c));
                }
                let topics = entry.values;
                let ghost tv = topics.deep_view();
                proof {
                    assert(tv == values_of(a, c));
                    assert(keys_unique(tv));
                }
                let mut stale: Vec<String> = Vec::new();
                let n = topics.len();
                let mut j: usize = 0;
                proof {
                    assert(pbt_close(b, tv.take(0), c) =~= b);
                    assert(stale.deep_view() =~= stale_topics(tv.take(0), b, c));
                }
                while j < n
                    invariant
                        j <= n,
                        n == tv.len(),
                        tv == topics.deep_view(),
                        side_wf(b),
                        keys_unique(tv),
                        c == closed_client_id@,
                        self.pbt() == pbt_close(b, tv.take(j as int), c),
                        stale.deep_view() == stale_topics(tv.take(j as int), b, c),
                        self.tbp() == ps_remove_key(a, c),
                        tv == values_of(a, c),
                        a == old(self).tbp(),
                        b == old(self).pbt(),
                    decreases n - j,
                {
                    let ghost cur = self.pbt();
                    let t = &topics[j];
                    let ghost stale0 = stale.deep_view();
                    proof {
                        lemma_pbt_close_values(b, tv.take(j as int), c);
                        assert(!tv.take(j as int).contains(tv[j as int])) by {
                            if tv.take(j as int).contains(tv[j as int]) {
                                let x = choose|x: int|
                                    0 <= x < j && tv.take(j as int)[x] == tv[j as int];
                                assert(tv[x] == tv[j as int]);
                            }
                        }
                        assert(values_of(cur, t@) == values_of(b, t@));
                        lemma_key_idx_bounds(cur, t@);
                    }
                    match find_entry(&self.publishers_by_topic, t) {
                        None => {
                            proof {
                                assert(values_of(cur, t@) =~= Seq::<Seq<char>>::empty());
                                assert(remove_value(values_of(b, t@), c) =~= Seq::<
                                    Seq<char>,
                                >::empty());
                                assert(ps_remove_val(cur, t@, c) == cur);
                            }
                            stale.push(t.clone());
                            proof {
                                assert(stale.deep_view() =~= stale0 + seq![tv[j as int]]);
                            }
                        },
                        Some(pi) => {
                            let mut e = self.publishers_by_topic.remove(pi);
                            proof {
                                assert(e.deep_view() == cur[pi as int]);
                            }
                            let ghost mid = self.pbt();
                            remove_value_exec(&mut e.values, closed_client_id);
                            if e.values.len() == 0 {
                                proof {
                                    assert(self.pbt() =~= cur.remove(pi as int));
                                    assert(ps_remove_val(cur, t@, c) =~= cur.remove(pi as int));
                                }
                                stale.push(t.clone());
                                proof {
                                    assert(remove_value(values_of(b, t@), c).len() == 0);
                                    assert(stale.deep_view() =~= stale0 + seq![tv[j as int]]);
                                }
                            } else {
                                self.publishers_by_topic.insert(pi, e);
                                proof {
                                    let ev = StringListEntryV {
                                        key: cur[pi as int].key,
                                        values: remove_value(cur[pi as int].values, c),
                                    };
                                    assert(e.deep_view() == ev);
                                    assert(self.pbt() =~= mid.insert(pi as int, ev));
                                    assert(mid.insert(pi as int, ev) =~= cur.update(pi as int, ev));
                                    assert(ps_remove_val(cur, t@, c) =~= cur.update(pi as int, ev));
                                    assert(remove_value(values_of(b, t@), c).len() != 0);
                                    assert(stale.deep_view() =~= stale0 + Seq::<Seq<char>>::empty());
                                }
                            }
                        },
                    }
                    proof {
                        lemma_pbt_close_snoc(b, tv.take(j as int), tv[j as int], c);
                        lemma_stale_topics_snoc(tv.take(j as int), tv[j as int], b, c);
                        assert(tv.take(j as int).push(tv[j as int]) =~= tv.take(j + 1));
                        assert(self.pbt() == pbt_close(b, tv.take(j + 1), c));
                        assert(stale.deep_view() =~= stale_topics(tv.take(j + 1), b, c));
                    }
                    j = j + 1;
                }
                proof {
                    assert(tv.take(n as int) =~= tv);
                }
                stale
            },
        }
    }
}

proof fn lemma_push_to_set(s: Seq<i32>, x: i32)
    ensures
        s.push(x).to_set() =~= s.to_set().insert(x),
{
    assert forall|y: i32| s.push(x).to_set().contains(y) implies s.to_set().insert(x).contains(
        y,
    ) by {
        let i = choose|i: int| 0 <= i < s.push(x).len() && s.push(x)[i] == y;
        if i < s.len() {
            assert(s[i] == y);
        }
    }
    assert forall|y: i32| s.to_set().insert(x).contains(y) implies s.push(x).to_set().contains(
        y,
    ) by {
        if y == x {
            assert(s.push(x)[s.len() as int] == y);
        } else {
            let i = choose|i: int| 0 <= i < s.len() && s[i] == y;
            assert(s.push(x)[i] == y);
        }
    }
}

proof fn lemma_take_push_to_set(s: Seq<i32>, i: int)
    requires
        0 <= i < s.len(),
    ensures
        s.take(i + 1).to_set() =~= s.take(i).to_set().insert(s[i]),
{
    assert(s.take(i + 1) =~= s.take(i).push(s[i]));
    lemma_push_to_set(s.take(i), s[i]);
}

} // verus!
