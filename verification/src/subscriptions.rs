//! The subscription index: topic → subscriber → count.
//!
//! A client may subscribe to one topic several times; the count rises and
//! falls with each add and remove, and the index reports the transitions
//! that matter to notification listeners: a client's first subscription to
//! a topic and the loss of its last.  A topic entry exists exactly while
//! the topic has at least one subscriber.

use vstd::prelude::*;

use crate::keyed::{
    has_key, key_idx, keys_unique, lemma_has_key_drop, lemma_key_idx_absent, lemma_key_idx_at,
    lemma_key_idx_bounds, lemma_key_idx_concat, lemma_key_idx_push, lemma_key_idx_update,
    lemma_keys_unique_push, lemma_keys_unique_update, Keyed,
};
use crate::patterns::{pattern_matches, re_matches, re_valid};
use crate::refcount::{
    cs_contains, cs_count, cs_dec, cs_inc, cs_wf, lemma_cs_idx_bounds, CountedSet, KeyCountV,
};

verus! {

/// One topic and its subscribers.
pub struct TopicEntry {
    pub topic: String,
    pub subscribers: CountedSet,
}

pub struct TopicEntryV {
    pub topic: Seq<char>,
    pub subs: Seq<KeyCountV>,
}

impl DeepView for TopicEntry {
    type V = TopicEntryV;

    open spec fn deep_view(&self) -> TopicEntryV {
        TopicEntryV { topic: self.topic@, subs: self.subscribers.deep_view() }
    }
}

impl Keyed for TopicEntryV {
    open spec fn key(self) -> Seq<char> {
        self.topic
    }
}

/// Every topic once; every subscriber set well-formed and non-empty.
pub open spec fn sm_wf(s: Seq<TopicEntryV>) -> bool {
    &&& keys_unique(s)
    &&& forall|i: int| 0 <= i < s.len() ==> cs_wf((#[trigger] s[i]).subs)
    &&& forall|i: int| 0 <= i < s.len() ==> (#[trigger] s[i]).subs.len() >= 1
}

/// The subscriber set of a topic; empty when the topic is unknown.
pub open spec fn topic_subs(s: Seq<TopicEntryV>, topic: Seq<char>) -> Seq<KeyCountV> {
    if has_key(s, topic) {
        s[key_idx(s, topic)].subs
    } else {
        Seq::empty()
    }
}

/// How many subscriptions a client holds on a topic.
pub open spec fn sub_count(s: Seq<TopicEntryV>, topic: Seq<char>, client: Seq<char>) -> u32 {
    cs_count(topic_subs(s, topic), client)
}

/// The subscribers of a topic, in the order of their first subscriptions.
pub open spec fn subscriber_ids(s: Seq<TopicEntryV>, topic: Seq<char>) -> Seq<Seq<char>> {
    topic_subs(s, topic).map_values(|e: KeyCountV| e.key)
}

/// The index after one subscription of `client` to `topic`.
pub open spec fn sm_subscribe(s: Seq<TopicEntryV>, topic: Seq<char>, client: Seq<char>) -> Seq<
    TopicEntryV,
> {
    let i = key_idx(s, topic);
    if i < 0 {
        s.push(TopicEntryV { topic, subs: cs_inc(Seq::empty(), client) })
    } else {
        s.update(i, TopicEntryV { topic, subs: cs_inc(s[i].subs, client) })
    }
}

/// The index after one unsubscription (or, with `all`, the client's full
/// removal) from `topic`; a topic left without subscribers disappears.
pub open spec fn sm_unsubscribe(
    s: Seq<TopicEntryV>,
    topic: Seq<char>,
    client: Seq<char>,
    all: bool,
) -> Seq<TopicEntryV> {
    let i = key_idx(s, topic);
    if i < 0 {
        s
    } else {
        let subs2 = cs_dec(s[i].subs, client, all);
        if subs2.len() == 0 {
            s.remove(i)
        } else {
            s.update(i, TopicEntryV { topic, subs: subs2 })
        }
    }
}

/// The index after a client's close: the client leaves every topic, and
/// topics left without subscribers disappear.
pub open spec fn sm_close(s: Seq<TopicEntryV>, client: Seq<char>) -> Seq<TopicEntryV>
    decreases s.len(),
{
    if s.len() == 0 {
        s
    } else {
        let subs2 = cs_dec(s[0].subs, client, true);
        let rest = sm_close(s.drop_first(), client);
        if subs2.len() == 0 {
            rest
        } else {
            seq![TopicEntryV { topic: s[0].topic, subs: subs2 }] + rest
        }
    }
}

/// The topics on which a client holds subscriptions, in index order.
pub open spec fn client_topics(s: Seq<TopicEntryV>, client: Seq<char>) -> Seq<Seq<char>>
    decreases s.len(),
{
    if s.len() == 0 {
        Seq::empty()
    } else {
        (if cs_contains(s[0].subs, client) {
            seq![s[0].topic]
        } else {
            Seq::empty()
        }) + client_topics(s.drop_first(), client)
    }
}

proof fn lemma_sm_close_snoc(s: Seq<TopicEntryV>, e: TopicEntryV, client: Seq<char>)
    ensures
        sm_close(s.push(e), client) == sm_close(s, client) + ({
            let subs2 = cs_dec(e.subs, client, true);
            if subs2.len() == 0 {
                Seq::<TopicEntryV>::empty()
            } else {
                seq![TopicEntryV { topic: e.topic, subs: subs2 }]
            }
        }),
    decreases s.len(),
{
    let s2 = s.push(e);
    let tail = {
        let subs2 = cs_dec(e.subs, client, true);
        if subs2.len() == 0 {
            Seq::<TopicEntryV>::empty()
        } else {
            seq![TopicEntryV { topic: e.topic, subs: subs2 }]
        }
    };
    if s.len() == 0 {
        assert(s2[0] == e);
        assert(s2.drop_first() =~= Seq::<TopicEntryV>::empty());
        assert(sm_close(s2.drop_first(), client) =~= Seq::<TopicEntryV>::empty());
        assert(sm_close(s2, client) =~= sm_close(s, client) + tail);
    } else {
        assert(s2[0] == s[0]);
        assert(s2.drop_first() =~= s.drop_first().push(e));
        lemma_sm_close_snoc(s.drop_first(), e, client);
        assert(sm_close(s2, client) =~= sm_close(s, client) + tail);
    }
}

proof fn lemma_client_topics_snoc(s: Seq<TopicEntryV>, e: TopicEntryV, client: Seq<char>)
    ensures
        client_topics(s.push(e), client) == client_topics(s, client) + (if cs_contains(
            e.subs,
            client,
        ) {
            seq![e.topic]
        } else {
            Seq::<Seq<char>>::empty()
        }),
    decreases s.len(),
{
    let s2 = s.push(e);
    let tail = if cs_contains(e.subs, client) {
        seq![e.topic]
    } else {
        Seq::<Seq<char>>::empty()
    };
    if s.len() == 0 {
        assert(s2[0] == e);
        assert(s2.drop_first() =~= Seq::<TopicEntryV>::empty());
        assert(client_topics(s2.drop_first(), client) =~= Seq::<Seq<char>>::empty());
        assert(client_topics(s2, client) =~= client_topics(s, client) + tail);
    } else {
        assert(s2[0] == s[0]);
        assert(s2.drop_first() =~= s.drop_first().push(e));
        lemma_client_topics_snoc(s.drop_first(), e, client);
        assert(client_topics(s2, client) =~= client_topics(s, client) + tail);
    }
}

/// A close keeps the index well-formed, and loses no key that it keeps:
/// every kept topic was present before.
proof fn lemma_sm_close_wf(s: Seq<TopicEntryV>, client: Seq<char>)
    requires
        sm_wf(s),
    ensures
        sm_wf(sm_close(s, client)),
        forall|k: Seq<char>| has_key(sm_close(s, client), k) ==> has_key(s, k),
    decreases s.len(),
{
    if s.len() > 0 {
        let rest = sm_close(s.drop_first(), client);
        assert(sm_wf(s.drop_first())) by {
            assert(forall|i: int|
                0 <= i < s.drop_first().len() ==> #[trigger] s.drop_first()[i] == s[i + 1]);
        }
        lemma_sm_close_wf(s.drop_first(), client);
        let subs2 = cs_dec(s[0].subs, client, true);
        crate::refcount::lemma_cs_dec_wf(s[0].subs, client, true);
        if subs2.len() == 0 {
            assert forall|k: Seq<char>| has_key(rest, k) implies has_key(s, k) by {
                lemma_has_key_drop(s, k);
            }
        } else {
            let e = TopicEntryV { topic: s[0].topic, subs: subs2 };
            let whole = seq![e] + rest;
            assert forall|k: Seq<char>| has_key(whole, k) implies has_key(s, k) by {
                lemma_key_idx_concat(seq![e], rest, k);
                if has_key(seq![e], k) {
                    lemma_key_idx_bounds(seq![e], k);
                    assert(seq![e][key_idx(seq![e], k)] == e);
                    lemma_key_idx_bounds(s, k);
                    assert(s[0].key() == k);
                    lemma_key_idx_at(s, k, 0);
                } else {
                    lemma_has_key_drop(s, k);
                }
            }
            assert(keys_unique(whole)) by {
                assert forall|a: int, b: int| 0 <= a < b < whole.len() implies whole[a].key()
                    != whole[b].key() by {
                    if a == 0 {
                        assert(whole[b] == rest[b - 1]);
                        if whole[b].key() == e.topic {
                            lemma_key_idx_at(rest, e.topic, b - 1);
                            assert(has_key(s.drop_first(), e.topic));
                            lemma_key_idx_bounds(s.drop_first(), e.topic);
                            let j = key_idx(s.drop_first(), e.topic);
                            assert(s[j + 1].key() == s[0].key());
                        }
                    } else {
                        assert(whole[a] == rest[a - 1] && whole[b] == rest[b - 1]);
                    }
                }
            }
            assert(sm_wf(whole)) by {
                assert(forall|i: int|
                    0 <= i < whole.len() ==> #[trigger] whole[i] == if i == 0 {
                        e
                    } else {
                        rest[i - 1]
                    });
            }
        }
    }
}

/// After a close the client subscribes to nothing.
proof fn lemma_sm_close_no_client(s: Seq<TopicEntryV>, client: Seq<char>)
    requires
        sm_wf(s),
    ensures
        forall|t: Seq<char>| !cs_contains(topic_subs(#[trigger] sm_close(s, client), t), client),
    decreases s.len(),
{
    let out = sm_close(s, client);
    assert(cs_contains(Seq::<KeyCountV>::empty(), client) == false);
    if s.len() == 0 {
        assert forall|t: Seq<char>| !cs_contains(topic_subs(out, t), client) by {
            lemma_key_idx_bounds(out, t);
        }
    } else {
        let rest = sm_close(s.drop_first(), client);
        assert(sm_wf(s.drop_first())) by {
            assert(forall|i: int|
                0 <= i < s.drop_first().len() ==> #[trigger] s.drop_first()[i] == s[i + 1]);
        }
        lemma_sm_close_no_client(s.drop_first(), client);
        let subs2 = cs_dec(s[0].subs, client, true);
        assert forall|t: Seq<char>| !cs_contains(topic_subs(out, t), client) by {
            if subs2.len() == 0 {
            } else {
                let e = TopicEntryV { topic: s[0].topic, subs: subs2 };
                lemma_key_idx_concat(seq![e], rest, t);
                if has_key(out, t) {
                    lemma_key_idx_bounds(out, t);
                    if has_key(seq![e], t) {
                        lemma_key_idx_bounds(seq![e], t);
                        assert(out[key_idx(out, t)] == e);
                        if cs_contains(subs2, client) {
                            lemma_cs_idx_bounds(s[0].subs, client);
                            crate::refcount::lemma_cs_removed_full(s[0].subs, client);
                        }
                    } else {
                        assert(out[key_idx(out, t)] == rest[key_idx(out, t) - 1]);
                        assert(topic_subs(out, t) == topic_subs(rest, t)) by {
                            lemma_key_idx_bounds(rest, t);
                        }
                    }
                }
            }
        }
    }
}

/// One topic and its current subscriber ids, as a query result.
#[derive(Clone, Debug, PartialEq)]
pub struct TopicSubscribers {
    pub topic: String,
    pub subscriber_ids: Vec<String>,
}

pub struct TopicSubscribersV {
    pub topic: Seq<char>,
    pub subscriber_ids: Seq<Seq<char>>,
}

impl DeepView for TopicSubscribers {
    type V = TopicSubscribersV;

    open spec fn deep_view(&self) -> TopicSubscribersV {
        TopicSubscribersV {
            topic: self.topic@,
            subscriber_ids: self.subscriber_ids.deep_view(),
        }
    }
}

/// The topics whose names a pattern matches, each with its subscribers, in
/// index order.
pub open spec fn matching_subscriptions(s: Seq<TopicEntryV>, pattern: Seq<char>) -> Seq<
    TopicSubscribersV,
>
    decreases s.len(),
{
    if s.len() == 0 {
        Seq::empty()
    } else {
        (if re_valid(pattern) && re_matches(pattern, s[0].topic) {
            seq![
                TopicSubscribersV {
                    topic: s[0].topic,
                    subscriber_ids: s[0].subs.map_values(|e: KeyCountV| e.key),
                },
            ]
        } else {
            Seq::<TopicSubscribersV>::empty()
        }) + matching_subscriptions(s.drop_first(), pattern)
    }
}

proof fn lemma_matching_subscriptions_snoc(s: Seq<TopicEntryV>, e: TopicEntryV, pattern: Seq<char>)
    ensures
        matching_subscriptions(s.push(e), pattern) == matching_subscriptions(s, pattern) + (
        if re_valid(pattern) && re_matches(pattern, e.topic) {
            seq![
                TopicSubscribersV {
                    topic: e.topic,
                    subscriber_ids: e.subs.map_values(|x: KeyCountV| x.key),
                },
            ]
        } else {
            Seq::<TopicSubscribersV>::empty()
        }),
    decreases s.len(),
{
    let s2 = s.push(e);
    let tail = if re_valid(pattern) && re_matches(pattern, e.topic) {
        seq![
            TopicSubscribersV {
                topic: e.topic,
                subscriber_ids: e.subs.map_values(|x: KeyCountV| x.key),
            },
        ]
    } else {
        Seq::<TopicSubscribersV>::empty()
    };
    if s.len() == 0 {
        assert(s2[0] == e);
        assert(s2.drop_first() =~= Seq::<TopicEntryV>::empty());
        assert(matching_subscriptions(s2.drop_first(), pattern) =~= Seq::<
            TopicSubscribersV,
        >::empty());
        assert(matching_subscriptions(s2, pattern) =~= matching_subscriptions(s, pattern) + tail);
    } else {
        assert(s2[0] == s[0]);
        assert(s2.drop_first() =~= s.drop_first().push(e));
        lemma_matching_subscriptions_snoc(s.drop_first(), e, pattern);
        assert(matching_subscriptions(s2, pattern) =~= matching_subscriptions(s, pattern) + tail);
    }
}

/// The index after `n` subscriptions of one client to one topic.
pub open spec fn sm_subscribe_n(
    s: Seq<TopicEntryV>,
    topic: Seq<char>,
    client: Seq<char>,
    n: nat,
) -> Seq<TopicEntryV>
    decreases n,
{
    if n == 0 {
        s
    } else {
        sm_subscribe(sm_subscribe_n(s, topic, client, (n - 1) as nat), topic, client)
    }
}

/// The index after `n` unsubscriptions of one client from one topic.
pub open spec fn sm_unsubscribe_n(
    s: Seq<TopicEntryV>,
    topic: Seq<char>,
    client: Seq<char>,
    n: nat,
) -> Seq<TopicEntryV>
    decreases n,
{
    if n == 0 {
        s
    } else {
        sm_unsubscribe_n(
            sm_unsubscribe(s, topic, client, false),
            topic,
            client,
            (n - 1) as nat,
        )
    }
}

/// Removing a subscription a client does not hold changes nothing — also
/// when tried again.
pub proof fn lemma_unsubscribe_absent(s: Seq<TopicEntryV>, topic: Seq<char>, client: Seq<char>)
    requires
        sm_wf(s),
        sub_count(s, topic, client) == 0,
    ensures
        sm_unsubscribe(s, topic, client, false) == s,
{
    lemma_key_idx_bounds(s, topic);
    let i = key_idx(s, topic);
    if i >= 0 {
        crate::refcount::lemma_cs_contains_count(s[i].subs, client);
        crate::refcount::lemma_cs_dec_absent(s[i].subs, client, false);
        assert(s[i].subs.len() >= 1);
        assert(TopicEntryV { topic, subs: cs_dec(s[i].subs, client, false) } == s[i]);
        assert(s.update(i, s[i]) =~= s);
    }
}

/// One subscription, then its removal, restores the index exactly, as long
/// as the client's count has room to rise.
pub proof fn lemma_subscribe_unsubscribe(s: Seq<TopicEntryV>, topic: Seq<char>, client: Seq<char>)
    requires
        sm_wf(s),
        sub_count(s, topic, client) < u32::MAX,
    ensures
        sm_unsubscribe(sm_subscribe(s, topic, client), topic, client, false) == s,
{
    lemma_key_idx_bounds(s, topic);
    let i = key_idx(s, topic);
    if i < 0 {
        let subs1 = cs_inc(Seq::<KeyCountV>::empty(), client);
        let e = TopicEntryV { topic, subs: subs1 };
        let s2 = s.push(e);
        lemma_key_idx_push(s, e, topic);
        assert(key_idx(s2, topic) == s.len());
        assert(subs1 =~= seq![KeyCountV { key: client, count: 1 }]);
        crate::refcount::lemma_cs_idx_bounds(subs1, client);
        assert(crate::refcount::cs_idx(subs1, client) == 0);
        assert(cs_dec(subs1, client, false) =~= Seq::<KeyCountV>::empty());
        assert(s2.remove(s.len() as int) =~= s);
    } else {
        let subs1 = cs_inc(s[i].subs, client);
        let e = TopicEntryV { topic, subs: subs1 };
        let s2 = s.update(i, e);
        lemma_key_idx_update(s, i, e, topic);
        assert(key_idx(s2, topic) == i);
        crate::refcount::lemma_cs_inc_dec(s[i].subs, client);
        assert(cs_dec(subs1, client, false) == s[i].subs);
        assert(s[i].subs.len() >= 1);
        assert(TopicEntryV { topic, subs: s[i].subs } == s[i]);
        assert(s2.update(i, s[i]) =~= s);
    }
}

/// One subscription keeps the index well-formed and moves the client's
/// count one step up the saturating ladder.
pub proof fn lemma_subscribe_wf(s: Seq<TopicEntryV>, topic: Seq<char>, client: Seq<char>)
    requires
        sm_wf(s),
    ensures
        sm_wf(sm_subscribe(s, topic, client)),
        sub_count(sm_subscribe(s, topic, client), topic, client) == crate::refcount::sat_inc(
            sub_count(s, topic, client),
        ),
{
    lemma_key_idx_bounds(s, topic);
    let i = key_idx(s, topic);
    if i < 0 {
        let subs1 = cs_inc(Seq::<KeyCountV>::empty(), client);
        let e = TopicEntryV { topic, subs: subs1 };
        let s2 = s.push(e);
        lemma_keys_unique_push(s, e);
        lemma_key_idx_push(s, e, topic);
        crate::refcount::lemma_cs_inc_wf(Seq::<KeyCountV>::empty(), client);
        crate::refcount::lemma_cs_inc_count_sat(Seq::<KeyCountV>::empty(), client);
        assert(subs1.len() == 1);
        assert(sm_wf(s2)) by {
            assert(forall|j: int|
                0 <= j < s2.len() ==> #[trigger] s2[j] == if j < s.len() {
                    s[j]
                } else {
                    e
                });
        }
        assert(crate::refcount::cs_count(Seq::<KeyCountV>::empty(), client) == 0) by {
            crate::refcount::lemma_cs_idx_bounds(Seq::<KeyCountV>::empty(), client);
        }
    } else {
        let subs1 = cs_inc(s[i].subs, client);
        let e = TopicEntryV { topic, subs: subs1 };
        let s2 = s.update(i, e);
        lemma_keys_unique_update(s, i, e);
        lemma_key_idx_update(s, i, e, topic);
        crate::refcount::lemma_cs_inc_wf(s[i].subs, client);
        crate::refcount::lemma_cs_inc_count_sat(s[i].subs, client);
        crate::refcount::lemma_cs_idx_bounds(s[i].subs, client);
        assert(subs1.len() >= 1);
        assert(sm_wf(s2)) by {
            assert(forall|j: int|
                0 <= j < s2.len() ==> #[trigger] s2[j] == if j == i {
                    e
                } else {
                    s[j]
                });
        }
    }
}

/// `n` subscriptions followed by `n` removals restore the index exactly,
/// as long as the client's count stays below the type's ceiling.
pub proof fn lemma_subscribe_unsubscribe_n(
    s: Seq<TopicEntryV>,
    topic: Seq<char>,
    client: Seq<char>,
    n: nat,
)
    requires
        sm_wf(s),
        sub_count(s, topic, client) + n <= u32::MAX,
    ensures
        sm_unsubscribe_n(sm_subscribe_n(s, topic, client, n), topic, client, n) == s,
        sm_wf(sm_subscribe_n(s, topic, client, n)),
        sub_count(sm_subscribe_n(s, topic, client, n), topic, client) == sub_count(
            s,
            topic,
            client,
        ) + n,
    decreases n,
{
    if n > 0 {
        let prev = sm_subscribe_n(s, topic, client, (n - 1) as nat);
        lemma_subscribe_unsubscribe_n(s, topic, client, (n - 1) as nat);
        lemma_subscribe_wf(prev, topic, client);
        lemma_subscribe_unsubscribe(prev, topic, client);
    }
}

pub struct SubscriptionManager {
    topics: Vec<TopicEntry>,
}

impl DeepView for SubscriptionManager {
    type V = Seq<TopicEntryV>;

    closed spec fn deep_view(&self) -> Seq<TopicEntryV> {
        self.topics.deep_view()
    }
}

impl SubscriptionManager {
    pub open spec fn wf(&self) -> bool {
        sm_wf(self.deep_view())
    }

    pub fn new() -> (r: SubscriptionManager)
        ensures
            r.deep_view() == Seq::<TopicEntryV>::empty(),
            r.wf(),
    {
        let r = SubscriptionManager { topics: Vec::new() };
        proof {
            assert(r.deep_view() =~= Seq::<TopicEntryV>::empty());
        }
        r
    }

    fn find(&self, topic: &String) -> (r: Option<usize>)
        ensures
            match r {
                Some(i) => i < self.deep_view().len() && key_idx(self.deep_view(), topic@) == i,
                None => !has_key(self.deep_view(), topic@),
            },
    {
        let ghost s = self.deep_view();
        let n = self.topics.len();
        let mut i: usize = 0;
        while i < n
            invariant
                i <= n,
                n == s.len(),
                s == self.deep_view(),
                forall|j: int| 0 <= j < i ==> (#[trigger] s[j]).key() != topic@,
            decreases n - i,
        {
            if self.topics[i].topic == *topic {
                proof {
                    lemma_key_idx_at(s, topic@, i as int);
                }
                return Some(i);
            }
            i = i + 1;
        }
        proof {
            lemma_key_idx_absent(s, topic@);
        }
        None
    }

    /// The current subscribers of a topic, in subscription order.
    pub fn subscribers_for_topic(&self, topic: &String) -> (r: Vec<String>)
        ensures
            r.deep_view() == subscriber_ids(self.deep_view(), topic@),
    {
        match self.find(topic) {
            Some(i) => self.topics[i].subscribers.keys(),
            None => {
                let r: Vec<String> = Vec::new();
                proof {
                    assert(r.deep_view() =~= Seq::<KeyCountV>::empty().map_values(
                        |e: KeyCountV| e.key,
                    ));
                }
                r
            },
        }
    }

    /// One subscription of `client` to `topic`; reports whether it is the
    /// client's first on that topic.
    pub fn subscribe(&mut self, client: &String, topic: &String) -> (first: bool)
        requires
            old(self).wf(),
        ensures
            final(self).deep_view() == sm_subscribe(old(self).deep_view(), topic@, client@),
            first == (sub_count(old(self).deep_view(), topic@, client@) == 0),
            final(self).wf(),
    {
        let ghost s = self.deep_view();
        proof {
            lemma_key_idx_bounds(s, topic@);
        }
        match self.find(topic) {
            Some(i) => {
                let mut e = self.topics.remove(i);
                let first = e.subscribers.increment(client);
                proof {
                    lemma_cs_idx_bounds(s[i as int].subs, client@);
                }
                self.topics.insert(i, e);
                proof {
                    let ev = TopicEntryV {
                        topic: s[i as int].topic,
                        subs: cs_inc(s[i as int].subs, client@),
                    };
                    assert(e.deep_view() == ev);
                    assert(self.deep_view() =~= s.update(i as int, ev));
                    assert(sm_subscribe(s, topic@, client@) =~= s.update(i as int, ev));
                    lemma_keys_unique_update(s, i as int, ev);
                    assert(sm_wf(self.deep_view())) by {
                        assert(forall|j: int|
                            0 <= j < s.len() ==> #[trigger] self.deep_view()[j] == if j
                                == i as int {
                                ev
                            } else {
                                s[j]
                            });
                    }
                }
                first
            },
            None => {
                let mut subs = CountedSet::new();
                let _ = subs.increment(client);
                let e = TopicEntry { topic: topic.clone(), subscribers: subs };
                self.topics.push(e);
                proof {
                    let ev = TopicEntryV {
                        topic: topic@,
                        subs: cs_inc(Seq::<KeyCountV>::empty(), client@),
                    };
                    assert(e.deep_view() == ev);
                    assert(self.deep_view() =~= s.push(ev));
                    lemma_keys_unique_push(s, ev);
                    assert(sm_wf(self.deep_view())) by {
                        assert(forall|j: int|
                            0 <= j < s.len() ==> #[trigger] self.deep_view()[j] == s[j]);
                        assert(self.deep_view()[s.len() as int] == ev);
                        assert(ev.subs.len() == 1);
                        assert(cs_wf(ev.subs)) by {
                            crate::refcount::lemma_cs_inc_wf(Seq::<KeyCountV>::empty(), client@);
                        }
                    }
                }
                true
            },
        }
    }

    /// One unsubscription of `client` from `topic` (or, at close, the
    /// client's full removal); reports whether the client's last
    /// subscription on the topic is gone.
    pub fn unsubscribe(&mut self, client: &String, topic: &String, all: bool) -> (last: bool)
        requires
            old(self).wf(),
        ensures
            final(self).deep_view() == sm_unsubscribe(old(self).deep_view(), topic@, client@, all),
            last == (cs_contains(topic_subs(old(self).deep_view(), topic@), client@)
                && !cs_contains(
                cs_dec(topic_subs(old(self).deep_view(), topic@), client@, all),
                client@,
            )),
            final(self).wf(),
    {
        let ghost s = self.deep_view();
        proof {
            lemma_key_idx_bounds(s, topic@);
        }
        match self.find(topic) {
            Some(i) => {
                let mut e = self.topics.remove(i);
                let last = e.subscribers.decrement(client, all);
                let empty_now = e.subscribers.is_empty();
                let ghost subs2 = cs_dec(s[i as int].subs, client@, all);
                if empty_now {
                    proof {
                        assert(self.deep_view() =~= s.remove(i as int));
                        assert(sm_unsubscribe(s, topic@, client@, all) =~= s.remove(i as int));
                        crate::keyed::lemma_keys_unique_remove(s, i as int);
                        assert(sm_wf(self.deep_view())) by {
                            assert(forall|j: int|
                                0 <= j < self.deep_view().len()
                                    ==> #[trigger] self.deep_view()[j] == if j < i as int {
                                    s[j]
                                } else {
                                    s[j + 1]
                                });
                        }
                    }
                } else {
                    self.topics.insert(i, e);
                    proof {
                        let ev = TopicEntryV { topic: s[i as int].topic, subs: subs2 };
                        assert(e.deep_view() == ev);
                        assert(self.deep_view() =~= s.update(i as int, ev));
                        assert(sm_unsubscribe(s, topic@, client@, all) =~= s.update(i as int, ev));
                        lemma_keys_unique_update(s, i as int, ev);
                        assert(sm_wf(self.deep_view())) by {
                            assert(forall|j: int|
                                0 <= j < s.len() ==> #[trigger] self.deep_view()[j] == if j
                                    == i as int {
                                    ev
                                } else {
                                    s[j]
                                });
                        }
                    }
                }
                last
            },
            None => {
                proof {
                    assert(topic_subs(s, topic@) =~= Seq::<KeyCountV>::empty());
                }
                false
            },
        }
    }

    /// The topics on which a client holds subscriptions.
    pub fn find_client_topics(&self, client: &String) -> (r: Vec<String>)
        ensures
            r.deep_view() == client_topics(self.deep_view(), client@),
    {
        let ghost s = self.deep_view();
        let n = self.topics.len();
        let mut r: Vec<String> = Vec::new();
        let mut i: usize = 0;
        while i < n
            invariant
                i <= n,
                n == s.len(),
                s == self.deep_view(),
                r.deep_view() == client_topics(s.take(i as int), client@),
            decreases n - i,
        {
            let ghost r0 = r.deep_view();
            if self.topics[i].subscribers.contains(client) {
                r.push(self.topics[i].topic.clone());
                proof {
                    assert(r.deep_view() =~= r0 + seq![s[i as int].topic]);
                }
            }
            proof {
                lemma_client_topics_snoc(s.take(i as int), s[i as int], client@);
                assert(s.take(i as int).push(s[i as int]) =~= s.take(i + 1));
                if !cs_contains(s[i as int].subs, client@) {
                    assert(r.deep_view() =~= r0 + Seq::<Seq<char>>::empty());
                }
                assert(r.deep_view() =~= client_topics(s.take(i + 1), client@));
            }
            i = i + 1;
        }
        proof {
            assert(s.take(n as int) =~= s);
        }
        r
    }

    /// The topics whose names the pattern matches, each with its current
    /// subscribers; what a new notification listener is told first.
    pub fn find_subscriptions(&self, pattern: &String) -> (r: Vec<TopicSubscribers>)
        ensures
            r.deep_view() == matching_subscriptions(self.deep_view(), pattern@),
    {
        let ghost s = self.deep_view();
        let n = self.topics.len();
        let mut r: Vec<TopicSubscribers> = Vec::new();
        let mut i: usize = 0;
        proof {
            assert(r.deep_view() =~= matching_subscriptions(s.take(0), pattern@));
        }
        while i < n
            invariant
                i <= n,
                n == s.len(),
                s == self.deep_view(),
                r.deep_view() == matching_subscriptions(s.take(i as int), pattern@),
            decreases n - i,
        {
            let ghost r0 = r.deep_view();
            if pattern_matches(pattern, &self.topics[i].topic) {
                let ids = self.topics[i].subscribers.keys();
                let entry = TopicSubscribers { topic: self.topics[i].topic.clone(), subscriber_ids: ids };
                proof {
                    assert(entry.deep_view() == (TopicSubscribersV {
                        topic: s[i as int].topic,
                        subscriber_ids: s[i as int].subs.map_values(|x: KeyCountV| x.key),
                    }));
                }
                r.push(entry);
                proof {
                    assert(r.deep_view() =~= r0 + seq![
                        TopicSubscribersV {
                            topic: s[i as int].topic,
                            subscriber_ids: s[i as int].subs.map_values(|x: KeyCountV| x.key),
                        },
                    ]);
                }
            }
            proof {
                lemma_matching_subscriptions_snoc(s.take(i as int), s[i as int], pattern@);
                assert(s.take(i as int).push(s[i as int]) =~= s.take(i + 1));
                if !(re_valid(pattern@) && re_matches(pattern@, s[i as int].topic)) {
                    assert(r.deep_view() =~= r0 + Seq::<TopicSubscribersV>::empty());
                }
                assert(r.deep_view() =~= matching_subscriptions(s.take(i + 1), pattern@));
            }
            i = i + 1;
        }
        proof {
            assert(s.take(n as int) =~= s);
        }
        r
    }

    /// A client's close: it leaves every topic; the topics it held
    /// subscriptions on are returned, in index order, for notification.
    pub fn handle_close(&mut self, client: &String) -> (removed: Vec<String>)
        requires
            old(self).wf(),
        ensures
            final(self).deep_view() == sm_close(old(self).deep_view(), client@),
            removed.deep_view() == client_topics(old(self).deep_view(), client@),
            forall|t: Seq<char>|
                !cs_contains(topic_subs(#[trigger] final(self).deep_view(), t), client@),
            final(self).wf(),
    {
        let ghost s = self.deep_view();
        let ghost c = client@;
        let mut removed: Vec<String> = Vec::new();
        let mut i: usize = 0;
        let ghost p: int = 0;
        proof {
            assert(sm_close(s.take(0), c) =~= Seq::<TopicEntryV>::empty());
            assert(client_topics(s.take(0), c) =~= Seq::<Seq<char>>::empty());
            assert(self.deep_view() =~= sm_close(s.take(0), c) + s.skip(0));
            assert(removed.deep_view() =~= Seq::<Seq<char>>::empty());
        }
        while i < self.topics.len()
            invariant
                sm_wf(s),
                0 <= p <= s.len(),
                i == sm_close(s.take(p), c).len(),
                self.deep_view() == sm_close(s.take(p), c) + s.skip(p),
                removed.deep_view() == client_topics(s.take(p), c),
                self.topics.len() == i + (s.len() - p),
                c == client@,
            decreases s.len() - p,
        {
            let ghost a = sm_close(s.take(p), c);
            let ghost dv0 = self.deep_view();
            let mut e = self.topics.remove(i);
            proof {
                assert((a + s.skip(p))[a.len() as int] == s[p]);
                assert(e.deep_view() == s[p]);
                assert(self.deep_view() =~= dv0.remove(i as int));
                assert(dv0.remove(i as int) =~= a + s.skip(p + 1));
            }
            let ghost dv1 = self.deep_view();
            let was = e.subscribers.decrement(client, true);
            let ghost subs2 = cs_dec(s[p].subs, c, true);
            proof {
                if cs_contains(s[p].subs, c) {
                    crate::refcount::lemma_cs_removed_full(s[p].subs, c);
                }
                assert(was == cs_contains(s[p].subs, c));
            }
            let ghost r0 = removed.deep_view();
            if was {
                removed.push(e.topic.clone());
                proof {
                    assert(removed.deep_view() =~= r0 + seq![s[p].topic]);
                }
            }
            if !e.subscribers.is_empty() {
                self.topics.insert(i, e);
                proof {
                    let ev = TopicEntryV { topic: s[p].topic, subs: subs2 };
                    assert(e.deep_view() == ev);
                    assert(self.deep_view() =~= dv1.insert(i as int, ev));
                    assert(dv1.insert(i as int, ev) =~= a + seq![ev] + s.skip(p + 1));
                }
                i = i + 1;
            }
            proof {
                lemma_sm_close_snoc(s.take(p), s[p], c);
                lemma_client_topics_snoc(s.take(p), s[p], c);
                assert(s.take(p).push(s[p]) =~= s.take(p + 1));
                if subs2.len() == 0 {
                    assert(sm_close(s.take(p + 1), c) =~= a);
                    assert(self.deep_view() =~= sm_close(s.take(p + 1), c) + s.skip(p + 1));
                } else {
                    let ev = TopicEntryV { topic: s[p].topic, subs: subs2 };
                    assert(sm_close(s.take(p + 1), c) =~= a + seq![ev]);
                    assert(a + seq![ev] + s.skip(p + 1) =~= sm_close(s.take(p + 1), c) + s.skip(
                        p + 1,
                    ));
                }
                if !was {
                    assert(removed.deep_view() =~= r0 + Seq::<Seq<char>>::empty());
                }
                assert(removed.deep_view() =~= client_topics(s.take(p + 1), c));
                p = p + 1;
            }
        }
        proof {
            assert(s.take(p) =~= s);
            assert(self.deep_view() =~= sm_close(s, c));
            lemma_sm_close_wf(s, c);
            lemma_sm_close_no_client(s, c);
        }
        removed
    }
}

} // verus!
