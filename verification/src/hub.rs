//! The hub: the single owner of all routing state.
//!
//! Every event of every connection funnels into `handle_event`, which
//! dispatches to the routing rules and answers with the deliveries to make.
//! The mathematical model of the hub is `HubV`; each kind of event has a
//! spec transition from a model and an event to the next model and the
//! deliveries owed, and the executable code realises those transitions
//! exactly.  Sending the deliveries — and everything else about sockets —
//! is the caller's business.

use vstd::prelude::*;
use vstd::string::StringExecFns;

use crate::authorization::{
    policy_entitlements, set_nonempty, AuthorizationManager, AuthorizationSpec,
    AuthorizationSpecV, Role,
};
use crate::clients::{client_of, cm_connect, cm_remove, ClientManager, ClientRecV};
use crate::events::{ClientEvent, ClientEventV, Delivery, DeliveryV, ServerEvent};
use crate::keyed::{has_key, keys_unique};
use crate::messages::{
    copy_packets, DataPacket, DataPacketV, ForwardedMulticastData, ForwardedMulticastDataV,
    ForwardedSubscriptionRequest, ForwardedSubscriptionRequestV, ForwardedUnicastData,
    ForwardedUnicastDataV, Message, MessageV,
};
use crate::notifications::{
    matching_listeners, nm_add, nm_close, nm_remove, nm_wf, NotificationManager, PatternEntryV,
};
use crate::patterns::{pattern_is_valid, re_valid};
use crate::publishing::{
    delivered_packets, inverse, intersect_entitlements, pbt_close, ps_add, ps_remove_key,
    side_wf, stale_topics, values_of, PublisherManager, StringListEntryV,
};
use crate::refcount::{cs_contains, cs_dec};
use crate::subscriptions::{
    client_topics, matching_subscriptions, sm_close, sm_subscribe, sm_unsubscribe, sm_wf,
    sub_count, subscriber_ids, topic_subs, SubscriptionManager, TopicEntryV, TopicSubscribersV,
};

verus! {

/// The mathematical state of the hub.
pub struct HubV {
    pub clients: Seq<ClientRecV>,
    pub subs: Seq<TopicEntryV>,
    pub notifs: Seq<PatternEntryV>,
    pub tbp: Seq<StringListEntryV>,
    pub pbt: Seq<StringListEntryV>,
    pub rules: Seq<AuthorizationSpecV>,
}

/// Every component well-formed; the publisher sides mutually inverse.
pub open spec fn hub_wf(h: HubV) -> bool {
    &&& keys_unique(h.clients)
    &&& sm_wf(h.subs)
    &&& nm_wf(h.notifs)
    &&& side_wf(h.tbp)
    &&& side_wf(h.pbt)
    &&& inverse(h.tbp, h.pbt)
}

// ---------------------------------------------------------------------------
// The messages the hub sends
// ---------------------------------------------------------------------------
/// The notice listeners receive about one subscription change.
pub open spec fn subscription_notice(rec: ClientRecV, topic: Seq<char>, is_add: bool) -> MessageV {
    MessageV::ForwardedSubscriptionRequest(
        ForwardedSubscriptionRequestV {
            host: rec.host,
            user: rec.user,
            client_id: rec.id,
            topic,
            is_add,
        },
    )
}

/// The empty-bodied multicast that tells subscribers a topic lost its last
/// publisher.
pub open spec fn stale_notice(rec: ClientRecV, topic: Seq<char>) -> MessageV {
    MessageV::ForwardedMulticastData(
        ForwardedMulticastDataV {
            host: rec.host,
            user: rec.user,
            topic,
            content_type: "application/octet-stream"@,
            data_packets: Seq::empty(),
        },
    )
}

// ---------------------------------------------------------------------------
// Delivery lists
// ---------------------------------------------------------------------------
/// One subscription notice to every listener, in listener order.
pub open spec fn notify_deliveries(
    listeners: Seq<Seq<char>>,
    rec: ClientRecV,
    topic: Seq<char>,
    is_add: bool,
) -> Seq<DeliveryV> {
    listeners.map_values(
        |l: Seq<char>| DeliveryV { client_id: l, message: subscription_notice(rec, topic, is_add) },
    )
}

/// The multicast fan-out: one filtered copy of the packets to each
/// registered subscriber that the entitlement rule lets through.
pub open spec fn multicast_deliveries(
    clients: Seq<ClientRecV>,
    rules: Seq<AuthorizationSpecV>,
    host: Seq<char>,
    user: Seq<char>,
    topic: Seq<char>,
    content_type: Seq<char>,
    packets: Seq<DataPacketV>,
    pub_ent: Set<i32>,
    subs: Seq<Seq<char>>,
) -> Seq<DeliveryV>
    decreases subs.len(),
{
    if subs.len() == 0 {
        Seq::empty()
    } else {
        (match client_of(clients, subs[0]) {
            Some(sub) => {
                let sub_ent = policy_entitlements(rules, sub.user, topic, Role::Subscriber);
                let pkts = delivered_packets(packets, pub_ent, sub_ent);
                if pkts.len() == 0 {
                    Seq::<DeliveryV>::empty()
                } else {
                    seq![
                        DeliveryV {
                            client_id: subs[0],
                            message: MessageV::ForwardedMulticastData(
                                ForwardedMulticastDataV {
                                    host,
                                    user,
                                    topic,
                                    content_type,
                                    data_packets: pkts,
                                },
                            ),
                        },
                    ]
                }
            },
            None => Seq::<DeliveryV>::empty(),
        }) + multicast_deliveries(
            clients,
            rules,
            host,
            user,
            topic,
            content_type,
            packets,
            pub_ent,
            subs.drop_first(),
        )
    }
}

/// Back-fill for one matched topic: one notice per subscriber still in the
/// registry, all addressed to the new listener.
pub open spec fn backfill_for_topic(
    clients: Seq<ClientRecV>,
    requester: Seq<char>,
    topic: Seq<char>,
    ids: Seq<Seq<char>>,
) -> Seq<DeliveryV>
    decreases ids.len(),
{
    if ids.len() == 0 {
        Seq::empty()
    } else {
        (match client_of(clients, ids[0]) {
            Some(rec) => seq![
                DeliveryV { client_id: requester, message: subscription_notice(rec, topic, true) },
            ],
            None => Seq::<DeliveryV>::empty(),
        }) + backfill_for_topic(clients, requester, topic, ids.drop_first())
    }
}

/// Back-fill across every matched topic, in index order.
pub open spec fn backfill_deliveries(
    clients: Seq<ClientRecV>,
    requester: Seq<char>,
    matches: Seq<TopicSubscribersV>,
) -> Seq<DeliveryV>
    decreases matches.len(),
{
    if matches.len() == 0 {
        Seq::empty()
    } else {
        backfill_for_topic(clients, requester, matches[0].topic, matches[0].subscriber_ids)
            + backfill_deliveries(clients, requester, matches.drop_first())
    }
}

/// The stale notice of one topic to each of its subscribers still in the
/// registry.
pub open spec fn stale_for_topic(
    clients: Seq<ClientRecV>,
    rec: ClientRecV,
    topic: Seq<char>,
    subs: Seq<Seq<char>>,
) -> Seq<DeliveryV>
    decreases subs.len(),
{
    if subs.len() == 0 {
        Seq::empty()
    } else {
        (if client_of(clients, subs[0]) is Some {
            seq![DeliveryV { client_id: subs[0], message: stale_notice(rec, topic) }]
        } else {
            Seq::<DeliveryV>::empty()
        }) + stale_for_topic(clients, rec, topic, subs.drop_first())
    }
}

/// Stale notices for every topic that lost its last publisher.
pub open spec fn close_stale_deliveries(
    clients: Seq<ClientRecV>,
    subs_index: Seq<TopicEntryV>,
    rec: ClientRecV,
    stale: Seq<Seq<char>>,
) -> Seq<DeliveryV>
    decreases stale.len(),
{
    if stale.len() == 0 {
        Seq::empty()
    } else {
        stale_for_topic(clients, rec, stale[0], subscriber_ids(subs_index, stale[0]))
            + close_stale_deliveries(clients, subs_index, rec, stale.drop_first())
    }
}

/// Unsubscribe notices for every topic a closing client leaves.
pub open spec fn close_notify_deliveries(
    notifs: Seq<PatternEntryV>,
    rec: ClientRecV,
    topics: Seq<Seq<char>>,
) -> Seq<DeliveryV>
    decreases topics.len(),
{
    if topics.len() == 0 {
        Seq::empty()
    } else {
        notify_deliveries(matching_listeners(notifs, topics[0]), rec, topics[0], false)
            + close_notify_deliveries(notifs, rec, topics.drop_first())
    }
}

// ---------------------------------------------------------------------------
// The transitions
// ---------------------------------------------------------------------------
/// A multicast publish: dropped without subscribers or without a publisher
/// record; otherwise the publisher is recorded and the fan-out computed.
pub open spec fn hub_multicast(
    h: HubV,
    publisher_id: Seq<char>,
    topic: Seq<char>,
    content_type: Seq<char>,
    packets: Seq<DataPacketV>,
) -> (HubV, Seq<DeliveryV>) {
    let subs = subscriber_ids(h.subs, topic);
    if subs.len() == 0 {
        (h, Seq::empty())
    } else {
        match client_of(h.clients, publisher_id) {
            None => (h, Seq::empty()),
            Some(p) => {
                let pub_ent = policy_entitlements(h.rules, p.user, topic, Role::Publisher);
                let h2 = HubV {
                    tbp: ps_add(h.tbp, publisher_id, topic),
                    pbt: ps_add(h.pbt, topic, publisher_id),
                    ..h
                };
                (
                    h2,
                    multicast_deliveries(
                        h.clients,
                        h.rules,
                        p.host,
                        p.user,
                        topic,
                        content_type,
                        packets,
                        pub_ent,
                        subs,
                    ),
                )
            },
        }
    }
}

/// A unicast publish: needs both records; silently dropped when the
/// entitlement rule passes no packet.
pub open spec fn hub_unicast(
    h: HubV,
    sender_id: Seq<char>,
    receiver_id: Seq<char>,
    topic: Seq<char>,
    content_type: Seq<char>,
    packets: Seq<DataPacketV>,
) -> (HubV, Seq<DeliveryV>) {
    match client_of(h.clients, sender_id) {
        None => (h, Seq::empty()),
        Some(snd) => match client_of(h.clients, receiver_id) {
            None => (h, Seq::empty()),
            Some(rcv) => {
                let pub_ent = policy_entitlements(h.rules, snd.user, topic, Role::Publisher);
                let sub_ent = policy_entitlements(h.rules, rcv.user, topic, Role::Subscriber);
                let pkts = delivered_packets(packets, pub_ent, sub_ent);
                if pkts.len() == 0 {
                    (h, Seq::empty())
                } else {
                    let h2 = HubV {
                        tbp: ps_add(h.tbp, sender_id, topic),
                        pbt: ps_add(h.pbt, topic, sender_id),
                        ..h
                    };
                    (
                        h2,
                        seq![
                            DeliveryV {
                                client_id: receiver_id,
                                message: MessageV::ForwardedUnicastData(
                                    ForwardedUnicastDataV {
                                        host: snd.host,
                                        user: snd.user,
                                        client_id: sender_id,
                                        topic,
                                        content_type,
                                        data_packets: pkts,
                                    },
                                ),
                            },
                        ],
                    )
                }
            },
        },
    }
}

/// A subscription change.  An add needs a client record and a non-empty
/// subscriber entitlement; listeners hear of a client's first add on a
/// topic and of the loss of its last subscription.
pub open spec fn hub_subscription(
    h: HubV,
    client_id: Seq<char>,
    topic: Seq<char>,
    is_add: bool,
) -> (HubV, Seq<DeliveryV>) {
    if is_add {
        match client_of(h.clients, client_id) {
            None => (h, Seq::empty()),
            Some(rec) => {
                let ent = policy_entitlements(h.rules, rec.user, topic, Role::Subscriber);
                if !set_nonempty(ent) {
                    (h, Seq::empty())
                } else {
                    let h2 = HubV { subs: sm_subscribe(h.subs, topic, client_id), ..h };
                    let ds = if sub_count(h.subs, topic, client_id) == 0 {
                        notify_deliveries(matching_listeners(h.notifs, topic), rec, topic, true)
                    } else {
                        Seq::<DeliveryV>::empty()
                    };
                    (h2, ds)
                }
            },
        }
    } else {
        let h2 = HubV { subs: sm_unsubscribe(h.subs, topic, client_id, false), ..h };
        let last = cs_contains(topic_subs(h.subs, topic), client_id) && !cs_contains(
            cs_dec(topic_subs(h.subs, topic), client_id, false),
            client_id,
        );
        let ds = match client_of(h.clients, client_id) {
            Some(rec) => if last {
                notify_deliveries(matching_listeners(h.notifs, topic), rec, topic, false)
            } else {
                Seq::<DeliveryV>::empty()
            },
            None => Seq::<DeliveryV>::empty(),
        };
        (h2, ds)
    }
}

/// A notification-interest change.  A pattern that does not compile is
/// rejected silently; a listener's first add on a pattern is answered with
/// back-fill for every matching topic.
pub open spec fn hub_notification(
    h: HubV,
    client_id: Seq<char>,
    pattern: Seq<char>,
    is_add: bool,
) -> (HubV, Seq<DeliveryV>) {
    if !re_valid(pattern) {
        (h, Seq::empty())
    } else if is_add {
        let h2 = HubV { notifs: nm_add(h.notifs, pattern, client_id), ..h };
        let ds = if crate::notifications::listener_count(h.notifs, pattern, client_id) == 0 {
            backfill_deliveries(h.clients, client_id, matching_subscriptions(h.subs, pattern))
        } else {
            Seq::<DeliveryV>::empty()
        };
        (h2, ds)
    } else {
        (HubV { notifs: nm_remove(h.notifs, pattern, client_id, false), ..h }, Seq::empty())
    }
}

/// A client's close: its traces leave every index, listeners hear of its
/// lost subscriptions, and subscribers of the topics it alone published
/// hear that those topics are stale.  The record leaves the registry last.
pub open spec fn hub_close(h: HubV, c: Seq<char>) -> (HubV, Seq<DeliveryV>) {
    let removed = client_topics(h.subs, c);
    let subs2 = sm_close(h.subs, c);
    let ctopics = values_of(h.tbp, c);
    let stale = stale_topics(ctopics, h.pbt, c);
    let h2 = HubV {
        clients: cm_remove(h.clients, c),
        subs: subs2,
        notifs: nm_close(h.notifs, c),
        tbp: ps_remove_key(h.tbp, c),
        pbt: pbt_close(h.pbt, ctopics, c),
        rules: h.rules,
    };
    let ds = match client_of(h.clients, c) {
        None => Seq::<DeliveryV>::empty(),
        Some(rec) => close_notify_deliveries(h.notifs, rec, removed) + close_stale_deliveries(
            h.clients,
            subs2,
            rec,
            stale,
        ),
    };
    (h2, ds)
}

/// A connect: the record enters the registry; the indices do not move.
pub open spec fn hub_connect(h: HubV, id: Seq<char>, host: Seq<char>, user: Seq<char>) -> (
    HubV,
    Seq<DeliveryV>,
) {
    (
        HubV {
            clients: cm_connect(h.clients, ClientRecV { id, host, user }),
            ..h
        },
        Seq::empty(),
    )
}

/// A policy reload: the rule set is replaced whole.
pub open spec fn hub_reset(h: HubV, rules: Seq<AuthorizationSpecV>) -> (HubV, Seq<DeliveryV>) {
    (HubV { rules, ..h }, Seq::empty())
}

proof fn lemma_multicast_deliveries_snoc(
    clients: Seq<ClientRecV>,
    rules: Seq<AuthorizationSpecV>,
    host: Seq<char>,
    user: Seq<char>,
    topic: Seq<char>,
    content_type: Seq<char>,
    packets: Seq<DataPacketV>,
    pub_ent: Set<i32>,
    subs: Seq<Seq<char>>,
    sid: Seq<char>,
)
    ensures
        multicast_deliveries(
            clients,
            rules,
            host,
            user,
            topic,
            content_type,
            packets,
            pub_ent,
            subs.push(sid),
        ) == multicast_deliveries(
            clients,
            rules,
            host,
            user,
            topic,
            content_type,
            packets,
            pub_ent,
            subs,
        ) + (match client_of(clients, sid) {
            Some(sub) => {
                let sub_ent = policy_entitlements(rules, sub.user, topic, Role::Subscriber);
                let pkts = delivered_packets(packets, pub_ent, sub_ent);
                if pkts.len() == 0 {
                    Seq::<DeliveryV>::empty()
                } else {
                    seq![
                        DeliveryV {
                            client_id: sid,
                            message: MessageV::ForwardedMulticastData(
                                ForwardedMulticastDataV {
                                    host,
                                    user,
                                    topic,
                                    content_type,
                                    data_packets: pkts,
                                },
                            ),
                        },
                    ]
                }
            },
            None => Seq::<DeliveryV>::empty(),
        }),
    decreases subs.len(),
{
    let s2 = subs.push(sid);
    if subs.len() == 0 {
        assert(s2[0] == sid);
        assert(s2.drop_first() =~= Seq::<Seq<char>>::empty());
        assert(multicast_deliveries(
            clients,
            rules,
            host,
            user,
            topic,
            content_type,
            packets,
            pub_ent,
            s2.drop_first(),
        ) =~= Seq::<DeliveryV>::empty());
        assert(multicast_deliveries(
            clients,
            rules,
            host,
            user,
            topic,
            content_type,
            packets,
            pub_ent,
            s2,
        ) =~= multicast_deliveries(
            clients,
            rules,
            host,
            user,
            topic,
            content_type,
            packets,
            pub_ent,
            subs,
        ) + (match client_of(clients, sid) {
            Some(sub) => {
                let sub_ent = policy_entitlements(rules, sub.user, topic, Role::Subscriber);
                let pkts = delivered_packets(packets, pub_ent, sub_ent);
                if pkts.len() == 0 {
                    Seq::<DeliveryV>::empty()
                } else {
                    seq![
                        DeliveryV {
                            client_id: sid,
                            message: MessageV::ForwardedMulticastData(
                                ForwardedMulticastDataV {
                                    host,
                                    user,
                                    topic,
                                    content_type,
                                    data_packets: pkts,
                                },
                            ),
                        },
                    ]
                }
            },
            None => Seq::<DeliveryV>::empty(),
        }));
    } else {
        assert(s2[0] == subs[0]);
        assert(s2.drop_first() =~= subs.drop_first().push(sid));
        lemma_multicast_deliveries_snoc(
            clients,
            rules,
            host,
            user,
            topic,
            content_type,
            packets,
            pub_ent,
            subs.drop_first(),
            sid,
        );
        assert(multicast_deliveries(
            clients,
            rules,
            host,
            user,
            topic,
            content_type,
            packets,
            pub_ent,
            s2,
        ) =~= multicast_deliveries(
            clients,
            rules,
            host,
            user,
            topic,
            content_type,
            packets,
            pub_ent,
            subs,
        ) + (match client_of(clients, sid) {
            Some(sub) => {
                let sub_ent = policy_entitlements(rules, sub.user, topic, Role::Subscriber);
                let pkts = delivered_packets(packets, pub_ent, sub_ent);
                if pkts.len() == 0 {
                    Seq::<DeliveryV>::empty()
                } else {
                    seq![
                        DeliveryV {
                            client_id: sid,
                            message: MessageV::ForwardedMulticastData(
                                ForwardedMulticastDataV {
                                    host,
                                    user,
                                    topic,
                                    content_type,
                                    data_packets: pkts,
                                },
                            ),
                        },
                    ]
                }
            },
            None => Seq::<DeliveryV>::empty(),
        }));
    }
}

proof fn lemma_backfill_for_topic_snoc(
    clients: Seq<ClientRecV>,
    requester: Seq<char>,
    topic: Seq<char>,
    ids: Seq<Seq<char>>,
    sid: Seq<char>,
)
    ensures
        backfill_for_topic(clients, requester, topic, ids.push(sid)) == backfill_for_topic(
            clients,
            requester,
            topic,
            ids,
        ) + (match client_of(clients, sid) {
            Some(rec) => seq![
                DeliveryV { client_id: requester, message: subscription_notice(rec, topic, true) },
            ],
            None => Seq::<DeliveryV>::empty(),
        }),
    decreases ids.len(),
{
    let s2 = ids.push(sid);
    let tail = match client_of(clients, sid) {
        Some(rec) => seq![
            DeliveryV { client_id: requester, message: subscription_notice(rec, topic, true) },
        ],
        None => Seq::<DeliveryV>::empty(),
    };
    if ids.len() == 0 {
        assert(s2[0] == sid);
        assert(s2.drop_first() =~= Seq::<Seq<char>>::empty());
        assert(backfill_for_topic(clients, requester, topic, s2.drop_first()) =~= Seq::<
            DeliveryV,
        >::empty());
        assert(backfill_for_topic(clients, requester, topic, s2) =~= backfill_for_topic(
            clients,
            requester,
            topic,
            ids,
        ) + tail);
    } else {
        assert(s2[0] == ids[0]);
        assert(s2.drop_first() =~= ids.drop_first().push(sid));
        lemma_backfill_for_topic_snoc(clients, requester, topic, ids.drop_first(), sid);
        assert(backfill_for_topic(clients, requester, topic, s2) =~= backfill_for_topic(
            clients,
            requester,
            topic,
            ids,
        ) + tail);
    }
}

proof fn lemma_backfill_deliveries_snoc(
    clients: Seq<ClientRecV>,
    requester: Seq<char>,
    matches: Seq<TopicSubscribersV>,
    m: TopicSubscribersV,
)
    ensures
        backfill_deliveries(clients, requester, matches.push(m)) == backfill_deliveries(
            clients,
            requester,
            matches,
        ) + backfill_for_topic(clients, requester, m.topic, m.subscriber_ids),
    decreases matches.len(),
{
    let s2 = matches.push(m);
    let tail = backfill_for_topic(clients, requester, m.topic, m.subscriber_ids);
    if matches.len() == 0 {
        assert(s2[0] == m);
        assert(s2.drop_first() =~= Seq::<TopicSubscribersV>::empty());
        assert(backfill_deliveries(clients, requester, s2.drop_first()) =~= Seq::<
            DeliveryV,
        >::empty());
        assert(backfill_deliveries(clients, requester, s2) =~= backfill_deliveries(
            clients,
            requester,
            matches,
        ) + tail);
    } else {
        assert(s2[0] == matches[0]);
        assert(s2.drop_first() =~= matches.drop_first().push(m));
        lemma_backfill_deliveries_snoc(clients, requester, matches.drop_first(), m);
        assert(backfill_deliveries(clients, requester, s2) =~= backfill_deliveries(
            clients,
            requester,
            matches,
        ) + tail);
    }
}

proof fn lemma_stale_for_topic_snoc(
    clients: Seq<ClientRecV>,
    rec: ClientRecV,
    topic: Seq<char>,
    subs: Seq<Seq<char>>,
    sid: Seq<char>,
)
    ensures
        stale_for_topic(clients, rec, topic, subs.push(sid)) == stale_for_topic(
            clients,
            rec,
            topic,
            subs,
        ) + (if client_of(clients, sid) is Some {
            seq![DeliveryV { client_id: sid, message: stale_notice(rec, topic) }]
        } else {
            Seq::<DeliveryV>::empty()
        }),
    decreases subs.len(),
{
    let s2 = subs.push(sid);
    let tail = if client_of(clients, sid) is Some {
        seq![DeliveryV { client_id: sid, message: stale_notice(rec, topic) }]
    } else {
        Seq::<DeliveryV>::empty()
    };
    if subs.len() == 0 {
        assert(s2[0] == sid);
        assert(s2.drop_first() =~= Seq::<Seq<char>>::empty());
        assert(stale_for_topic(clients, rec, topic, s2.drop_first()) =~= Seq::<DeliveryV>::empty());
        assert(stale_for_topic(clients, rec, topic, s2) =~= stale_for_topic(
            clients,
            rec,
            topic,
            subs,
        ) + tail);
    } else {
        assert(s2[0] == subs[0]);
        assert(s2.drop_first() =~= subs.drop_first().push(sid));
        lemma_stale_for_topic_snoc(clients, rec, topic, subs.drop_first(), sid);
        assert(stale_for_topic(clients, rec, topic, s2) =~= stale_for_topic(
            clients,
            rec,
            topic,
            subs,
        ) + tail);
    }
}

proof fn lemma_close_stale_snoc(
    clients: Seq<ClientRecV>,
    subs_index: Seq<TopicEntryV>,
    rec: ClientRecV,
    stale: Seq<Seq<char>>,
    t: Seq<char>,
)
    ensures
        close_stale_deliveries(clients, subs_index, rec, stale.push(t)) == close_stale_deliveries(
            clients,
            subs_index,
            rec,
            stale,
        ) + stale_for_topic(clients, rec, t, subscriber_ids(subs_index, t)),
    decreases stale.len(),
{
    let s2 = stale.push(t);
    let tail = stale_for_topic(clients, rec, t, subscriber_ids(subs_index, t));
    if stale.len() == 0 {
        assert(s2[0] == t);
        assert(s2.drop_first() =~= Seq::<Seq<char>>::empty());
        assert(close_stale_deliveries(clients, subs_index, rec, s2.drop_first()) =~= Seq::<
            DeliveryV,
        >::empty());
        assert(close_stale_deliveries(clients, subs_index, rec, s2) =~= close_stale_deliveries(
            clients,
            subs_index,
            rec,
            stale,
        ) + tail);
    } else {
        assert(s2[0] == stale[0]);
        assert(s2.drop_first() =~= stale.drop_first().push(t));
        lemma_close_stale_snoc(clients, subs_index, rec, stale.drop_first(), t);
        assert(close_stale_deliveries(clients, subs_index, rec, s2) =~= close_stale_deliveries(
            clients,
            subs_index,
            rec,
            stale,
        ) + tail);
    }
}

proof fn lemma_close_notify_snoc(
    notifs: Seq<PatternEntryV>,
    rec: ClientRecV,
    topics: Seq<Seq<char>>,
    t: Seq<char>,
)
    ensures
        close_notify_deliveries(notifs, rec, topics.push(t)) == close_notify_deliveries(
            notifs,
            rec,
            topics,
        ) + notify_deliveries(matching_listeners(notifs, t), rec, t, false),
    decreases topics.len(),
{
    let s2 = topics.push(t);
    let tail = notify_deliveries(matching_listeners(notifs, t), rec, t, false);
    if topics.len() == 0 {
        assert(s2[0] == t);
        assert(s2.drop_first() =~= Seq::<Seq<char>>::empty());
        assert(close_notify_deliveries(notifs, rec, s2.drop_first()) =~= Seq::<DeliveryV>::empty());
        assert(close_notify_deliveries(notifs, rec, s2) =~= close_notify_deliveries(
            notifs,
            rec,
            topics,
        ) + tail);
    } else {
        assert(s2[0] == topics[0]);
        assert(s2.drop_first() =~= topics.drop_first().push(t));
        lemma_close_notify_snoc(notifs, rec, topics.drop_first(), t);
        assert(close_notify_deliveries(notifs, rec, s2) =~= close_notify_deliveries(
            notifs,
            rec,
            topics,
        ) + tail);
    }
}

/// An entitlement list is empty exactly when its set of elements is.
pub proof fn lemma_ent_empty(v: Seq<i32>)
    ensures
        (v.len() == 0) == !set_nonempty(v.to_set()),
{
    if v.len() > 0 {
        assert(v.contains(v[0]));
        assert(v.to_set().contains(v[0]));
    }
    if v.len() == 0 {
        assert forall|x: i32| !v.to_set().contains(x) by {
            if v.to_set().contains(x) {
                let i = choose|i: int| 0 <= i < v.len() && v[i] == x;
            }
        }
    }
}

/// Removing a subscription a client does not hold has no effect and emits
/// nothing — also the second time it is tried.
pub proof fn lemma_remove_without_subscription(h: HubV, client_id: Seq<char>, topic: Seq<char>)
    requires
        hub_wf(h),
        sub_count(h.subs, topic, client_id) == 0,
    ensures
        hub_subscription(h, client_id, topic, false).0 == h,
        hub_subscription(h, client_id, topic, false).1 == Seq::<DeliveryV>::empty(),
        hub_subscription(
            hub_subscription(h, client_id, topic, false).0,
            client_id,
            topic,
            false,
        ).0 == h,
        hub_subscription(
            hub_subscription(h, client_id, topic, false).0,
            client_id,
            topic,
            false,
        ).1 == Seq::<DeliveryV>::empty(),
{
    crate::subscriptions::lemma_unsubscribe_absent(h.subs, topic, client_id);
    crate::keyed::lemma_key_idx_bounds(h.subs, topic);
    if has_key(h.subs, topic) {
        crate::refcount::lemma_cs_contains_count(
            h.subs[crate::keyed::key_idx(h.subs, topic)].subs,
            client_id,
        );
    }
    assert(!cs_contains(topic_subs(h.subs, topic), client_id));
    assert(hub_subscription(h, client_id, topic, false).0 == h);
}

/// What one event does to the hub.  `None` marks a message kind the server
/// does not accept from a client; the caller closes that connection.
pub open spec fn hub_event(h: HubV, e: ClientEventV) -> Option<(HubV, Seq<DeliveryV>)> {
    match e {
        ClientEventV::OnConnect(id, host, user) => Some(hub_connect(h, id, host, user)),
        ClientEventV::OnClose(id) => Some(hub_close(h, id)),
        ClientEventV::OnReset(rules) => Some(hub_reset(h, rules)),
        ClientEventV::OnMessage(id, m) => match m {
            MessageV::MulticastData(md) => Some(
                hub_multicast(h, id, md.topic, md.content_type, md.data_packets),
            ),
            MessageV::UnicastData(ud) => Some(
                hub_unicast(h, id, ud.client_id, ud.topic, ud.content_type, ud.data_packets),
            ),
            MessageV::SubscriptionRequest(sr) => Some(
                hub_subscription(h, id, sr.topic, sr.is_add),
            ),
            MessageV::NotificationRequest(nr) => Some(
                hub_notification(h, id, nr.pattern, nr.is_add),
            ),
            _ => None,
        },
    }
}

// ---------------------------------------------------------------------------
// The executable hub
// ---------------------------------------------------------------------------
pub struct Hub {
    client_manager: ClientManager,
    subscription_manager: SubscriptionManager,
    notification_manager: NotificationManager,
    publisher_manager: PublisherManager,
    authorization_manager: AuthorizationManager,
}

impl View for Hub {
    type V = HubV;

    closed spec fn view(&self) -> HubV {
        HubV {
            clients: self.client_manager.deep_view(),
            subs: self.subscription_manager.deep_view(),
            notifs: self.notification_manager.deep_view(),
            tbp: self.publisher_manager.tbp(),
            pbt: self.publisher_manager.pbt(),
            rules: self.authorization_manager.deep_view(),
        }
    }
}

impl Hub {
    pub fn new(authorization_manager: AuthorizationManager) -> (r: Hub)
        ensures
            r@.clients == Seq::<ClientRecV>::empty(),
            r@.subs == Seq::<TopicEntryV>::empty(),
            r@.notifs == Seq::<PatternEntryV>::empty(),
            r@.tbp == Seq::<StringListEntryV>::empty(),
            r@.pbt == Seq::<StringListEntryV>::empty(),
            r@.rules == authorization_manager.deep_view(),
            hub_wf(r@),
    {
        Hub {
            client_manager: ClientManager::new(),
            subscription_manager: SubscriptionManager::new(),
            notification_manager: NotificationManager::new(),
            publisher_manager: PublisherManager::new(),
            authorization_manager,
        }
    }

    /// Registers a connecting client.
    pub fn handle_connect(&mut self, client_id: String, host: String, user: String)
        requires
            hub_wf(old(self)@),
        ensures
            final(self)@ == hub_connect(old(self)@, client_id@, host@, user@).0,
            hub_wf(final(self)@),
    {
        self.client_manager.handle_connect(client_id, host, user);
    }

    /// Installs a freshly loaded authorization policy.
    pub fn handle_reset(&mut self, specs: Vec<AuthorizationSpec>)
        requires
            hub_wf(old(self)@),
        ensures
            final(self)@ == hub_reset(old(self)@, specs.deep_view()).0,
            hub_wf(final(self)@),
    {
        self.authorization_manager.reset(specs);
    }

    /// Routes one multicast publish to the topic's subscribers.
    pub fn send_multicast_data(
        &mut self,
        publisher_id: &String,
        topic: &String,
        content_type: &String,
        data_packets: Vec<DataPacket>,
    ) -> (out: Vec<Delivery>)
        requires
            hub_wf(old(self)@),
        ensures
            final(self)@ == hub_multicast(
                old(self)@,
                publisher_id@,
                topic@,
                content_type@,
                data_packets.deep_view(),
            ).0,
            out.deep_view() == hub_multicast(
                old(self)@,
                publisher_id@,
                topic@,
                content_type@,
                data_packets.deep_view(),
            ).1,
            hub_wf(final(self)@),
    {
        let ghost h = self@;
        let ghost pkv = data_packets.deep_view();
        let subs = self.subscription_manager.subscribers_for_topic(topic);
        if subs.len() == 0 {
            let out: Vec<Delivery> = Vec::new();
            proof {
                assert(out.deep_view() =~= Seq::<DeliveryV>::empty());
            }
            return out;
        }
        let (host, user) = match self.client_manager.get(publisher_id) {
            None => {
                let out: Vec<Delivery> = Vec::new();
                proof {
                    assert(out.deep_view() =~= Seq::<DeliveryV>::empty());
                }
                return out;
            },
            Some(p) => (p.host.clone(), p.user.clone()),
        };
        let ghost prec = client_of(h.clients, publisher_id@)->Some_0;
        let pub_ent = self.authorization_manager.entitlements(&user, topic, Role::Publisher);
        self.publisher_manager.add_as_topic_publisher(publisher_id, topic);
        let ghost subs_v = subs.deep_view();
        let n = subs.len();
        let mut out: Vec<Delivery> = Vec::new();
        let mut i: usize = 0;
        proof {
            assert(out.deep_view() =~= multicast_deliveries(
                h.clients,
                h.rules,
                prec.host,
                prec.user,
                topic@,
                content_type@,
                pkv,
                pub_ent@.to_set(),
                subs_v.take(0),
            ));
        }
        while i < n
            invariant
                i <= n,
                n == subs_v.len(),
                subs_v == subs.deep_view(),
                self@.clients == h.clients,
                self@.rules == h.rules,
                self@.subs == h.subs,
                self@.notifs == h.notifs,
                host@ == prec.host,
                user@ == prec.user,
                pkv == data_packets.deep_view(),
                pub_ent@.to_set() == policy_entitlements(
                    h.rules,
                    prec.user,
                    topic@,
                    Role::Publisher,
                ),
                out.deep_view() == multicast_deliveries(
                    h.clients,
                    h.rules,
                    prec.host,
                    prec.user,
                    topic@,
                    content_type@,
                    pkv,
                    pub_ent@.to_set(),
                    subs_v.take(i as int),
                ),
            decreases n - i,
        {
            let ghost out0 = out.deep_view();
            let sid = &subs[i];
            match self.client_manager.get(sid) {
                None => {
                    proof {
                        assert(out.deep_view() =~= out0 + Seq::<DeliveryV>::empty());
                    }
                },
                Some(sub) => {
                    let ghost srec = client_of(h.clients, subs_v[i as int])->Some_0;
                    let sub_user = sub.user.clone();
                    let sub_ent = self.authorization_manager.entitlements(
                        &sub_user,
                        topic,
                        Role::Subscriber,
                    );
                    proof {
                        lemma_ent_empty(pub_ent@);
                    }
                    let pkts = if pub_ent.len() == 0 {
                        copy_packets(&data_packets)
                    } else {
                        let ent = intersect_entitlements(&pub_ent, &sub_ent);
                        self.publisher_manager.get_authorized_data(
                            copy_packets(&data_packets),
                            &ent,
                        )
                    };
                    proof {
                        assert(pkts.deep_view() == delivered_packets(
                            pkv,
                            pub_ent@.to_set(),
                            sub_ent@.to_set(),
                        ));
                    }
                    if pkts.len() > 0 {
                        let d = Delivery {
                            client_id: sid.clone(),
                            event: ServerEvent::OnMessage(
                                Message::ForwardedMulticastData(
                                    ForwardedMulticastData {
                                        host: host.clone(),
                                        user: user.clone(),
                                        topic: topic.clone(),
                                        content_type: content_type.clone(),
                                        data_packets: pkts,
                                    },
                                ),
                            ),
                        };
                        out.push(d);
                        proof {
                            assert(out.deep_view() =~= out0 + seq![
                                DeliveryV {
                                    client_id: subs_v[i as int],
                                    message: MessageV::ForwardedMulticastData(
                                        ForwardedMulticastDataV {
                                            host: prec.host,
                                            user: prec.user,
                                            topic: topic@,
                                            content_type: content_type@,
                                            data_packets: delivered_packets(
                                                pkv,
                                                pub_ent@.to_set(),
                                                sub_ent@.to_set(),
                                            ),
                                        },
                                    ),
                                },
                            ]);
                        }
                    } else {
                        proof {
                            assert(out.deep_view() =~= out0 + Seq::<DeliveryV>::empty());
                        }
                    }
                },
            }
            proof {
                lemma_multicast_deliveries_snoc(
                    h.clients,
                    h.rules,
                    prec.host,
                    prec.user,
                    topic@,
                    content_type@,
                    pkv,
                    pub_ent@.to_set(),
                    subs_v.take(i as int),
                    subs_v[i as int],
                );
                assert(subs_v.take(i as int).push(subs_v[i as int]) =~= subs_v.take(i + 1));
            }
            i = i + 1;
        }
        proof {
            assert(subs_v.take(n as int) =~= subs_v);
        }
        out
    }

    /// Routes one unicast publish to its destination.
    pub fn send_unicast_data(
        &mut self,
        sender_id: &String,
        receiver_id: &String,
        topic: &String,
        content_type: &String,
        data_packets: Vec<DataPacket>,
    ) -> (out: Vec<Delivery>)
        requires
            hub_wf(old(self)@),
        ensures
            final(self)@ == hub_unicast(
                old(self)@,
                sender_id@,
                receiver_id@,
                topic@,
                content_type@,
                data_packets.deep_view(),
            ).0,
            out.deep_view() == hub_unicast(
                old(self)@,
                sender_id@,
                receiver_id@,
                topic@,
                content_type@,
                data_packets.deep_view(),
            ).1,
            hub_wf(final(self)@),
    {
        let ghost h = self@;
        let ghost pkv = data_packets.deep_view();
        let mut out: Vec<Delivery> = Vec::new();
        proof {
            assert(out.deep_view() =~= Seq::<DeliveryV>::empty());
        }
        let (snd_host, snd_user) = match self.client_manager.get(sender_id) {
            None => {
                return out;
            },
            Some(s) => (s.host.clone(), s.user.clone()),
        };
        let rcv_user = match self.client_manager.get(receiver_id) {
            None => {
                return out;
            },
            Some(r) => r.user.clone(),
        };
        let pub_ent = self.authorization_manager.entitlements(&snd_user, topic, Role::Publisher);
        let sub_ent = self.authorization_manager.entitlements(&rcv_user, topic, Role::Subscriber);
        proof {
            lemma_ent_empty(pub_ent@);
        }
        let pkts = if pub_ent.len() == 0 {
            data_packets
        } else {
            let ent = intersect_entitlements(&pub_ent, &sub_ent);
            self.publisher_manager.get_authorized_data(data_packets, &ent)
        };
        proof {
            assert(pkts.deep_view() == delivered_packets(
                pkv,
                pub_ent@.to_set(),
                sub_ent@.to_set(),
            ));
        }
        if pkts.len() == 0 {
            return out;
        }
        self.publisher_manager.add_as_topic_publisher(sender_id, topic);
        let d = Delivery {
            client_id: receiver_id.clone(),
            event: ServerEvent::OnMessage(
                Message::ForwardedUnicastData(
                    ForwardedUnicastData {
                        host: snd_host,
                        user: snd_user,
                        client_id: sender_id.clone(),
                        topic: topic.clone(),
                        content_type: content_type.clone(),
                        data_packets: pkts,
                    },
                ),
            ),
        };
        out.push(d);
        proof {
            assert(out.deep_view() =~= hub_unicast(
                h,
                sender_id@,
                receiver_id@,
                topic@,
                content_type@,
                pkv,
            ).1);
        }
        out
    }

    /// Applies one subscription change and tells the listeners that care.
    pub fn handle_subscription_request(
        &mut self,
        client_id: &String,
        topic: &String,
        is_add: bool,
    ) -> (out: Vec<Delivery>)
        requires
            hub_wf(old(self)@),
        ensures
            final(self)@ == hub_subscription(old(self)@, client_id@, topic@, is_add).0,
            out.deep_view() == hub_subscription(old(self)@, client_id@, topic@, is_add).1,
            hub_wf(final(self)@),
    {
        let ghost h = self@;
        let mut out: Vec<Delivery> = Vec::new();
        proof {
            assert(out.deep_view() =~= Seq::<DeliveryV>::empty());
        }
        let rec = match self.client_manager.get(client_id) {
            None => None,
            Some(r) => Some((r.id.clone(), r.host.clone(), r.user.clone())),
        };
        if is_add {
            let (rid, rhost, ruser) = match rec {
                None => {
                    return out;
                },
                Some(t) => t,
            };
            let ghost recv = client_of(h.clients, client_id@)->Some_0;
            let ent = self.authorization_manager.entitlements(&ruser, topic, Role::Subscriber);
            proof {
                lemma_ent_empty(ent@);
            }
            if ent.len() == 0 {
                return out;
            }
            let first = self.subscription_manager.subscribe(client_id, topic);
            if first {
                let listeners = self.notification_manager.listeners_for_topic(topic);
                self.push_notices(&mut out, &listeners, &rid, &rhost, &ruser, topic, true);
                proof {
                    assert(out.deep_view() =~= notify_deliveries(
                        matching_listeners(h.notifs, topic@),
                        recv,
                        topic@,
                        true,
                    ));
                }
            }
            out
        } else {
            let last = self.subscription_manager.unsubscribe(client_id, topic, false);
            match rec {
                Some((rid, rhost, ruser)) => {
                    let ghost recv = client_of(h.clients, client_id@)->Some_0;
                    if last {
                        let listeners = self.notification_manager.listeners_for_topic(topic);
                        self.push_notices(&mut out, &listeners, &rid, &rhost, &ruser, topic, false);
                        proof {
                            assert(out.deep_view() =~= notify_deliveries(
                                matching_listeners(h.notifs, topic@),
                                recv,
                                topic@,
                                false,
                            ));
                        }
                    }
                },
                None => {},
            }
            out
        }
    }

    /// Appends one subscription notice per listener.
    fn push_notices(
        &self,
        out: &mut Vec<Delivery>,
        listeners: &Vec<String>,
        sub_id: &String,
        sub_host: &String,
        sub_user: &String,
        topic: &String,
        is_add: bool,
    )
        ensures
            final(out).deep_view() == old(out).deep_view() + notify_deliveries(
                listeners.deep_view(),
                ClientRecV { id: sub_id@, host: sub_host@, user: sub_user@ },
                topic@,
                is_add,
            ),
    {
        let ghost recv = ClientRecV { id: sub_id@, host: sub_host@, user: sub_user@ };
        let ghost lv = listeners.deep_view();
        let ghost base = out.deep_view();
        let n = listeners.len();
        let mut i: usize = 0;
        proof {
            assert(out.deep_view() =~= base + notify_deliveries(lv.take(0), recv, topic@, is_add));
        }
        while i < n
            invariant
                i <= n,
                n == lv.len(),
                lv == listeners.deep_view(),
                recv == (ClientRecV { id: sub_id@, host: sub_host@, user: sub_user@ }),
                out.deep_view() == base + notify_deliveries(lv.take(i as int), recv, topic@, is_add),
            decreases n - i,
        {
            let ghost out0 = out.deep_view();
            let d = Delivery {
                client_id: listeners[i].clone(),
                event: ServerEvent::OnMessage(
                    Message::ForwardedSubscriptionRequest(
                        ForwardedSubscriptionRequest {
                            host: sub_host.clone(),
                            user: sub_user.clone(),
                            client_id: sub_id.clone(),
                            topic: topic.clone(),
                            is_add,
                        },
                    ),
                ),
            };
            out.push(d);
            proof {
                assert(out.deep_view() =~= out0 + seq![
                    DeliveryV {
                        client_id: lv[i as int],
                        message: subscription_notice(recv, topic@, is_add),
                    },
                ]);
                assert(notify_deliveries(lv.take(i + 1), recv, topic@, is_add) =~= notify_deliveries(
                    lv.take(i as int),
                    recv,
                    topic@,
                    is_add,
                ) + seq![
                    DeliveryV {
                        client_id: lv[i as int],
                        message: subscription_notice(recv, topic@, is_add),
                    },
                ]);
            }
            i = i + 1;
        }
        proof {
            assert(lv.take(n as int) =~= lv);
        }
    }

    /// Applies one notification-interest change; a listener's first add on
    /// a pattern is answered with back-fill.
    pub fn handle_notification_request(
        &mut self,
        client_id: &String,
        pattern: &String,
        is_add: bool,
    ) -> (out: Vec<Delivery>)
        requires
            hub_wf(old(self)@),
        ensures
            final(self)@ == hub_notification(old(self)@, client_id@, pattern@, is_add).0,
            out.deep_view() == hub_notification(old(self)@, client_id@, pattern@, is_add).1,
            hub_wf(final(self)@),
    {
        let ghost h = self@;
        let mut out: Vec<Delivery> = Vec::new();
        proof {
            assert(out.deep_view() =~= Seq::<DeliveryV>::empty());
        }
        if !pattern_is_valid(pattern) {
            return out;
        }
        if is_add {
            let first = self.notification_manager.add_listener(client_id, pattern);
            if first {
                let matches = self.subscription_manager.find_subscriptions(pattern);
                let ghost mv = matches.deep_view();
                let n = matches.len();
                let mut i: usize = 0;
                proof {
                    assert(out.deep_view() =~= backfill_deliveries(
                        h.clients,
                        client_id@,
                        mv.take(0),
                    ));
                }
                while i < n
                    invariant
                        i <= n,
                        n == mv.len(),
                        mv == matches.deep_view(),
                        self@.clients == h.clients,
                        out.deep_view() == backfill_deliveries(h.clients, client_id@, mv.take(
                            i as int,
                        )),
                    decreases n - i,
                {
                    let ghost base = out.deep_view();
                    let ids = &matches[i].subscriber_ids;
                    let tpc = &matches[i].topic;
                    let ghost idv = ids.deep_view();
                    let m = ids.len();
                    let mut j: usize = 0;
                    proof {
                        assert(idv == mv[i as int].subscriber_ids);
                        assert(tpc@ == mv[i as int].topic);
                        assert(out.deep_view() =~= base + backfill_for_topic(
                            h.clients,
                            client_id@,
                            tpc@,
                            idv.take(0),
                        ));
                    }
                    while j < m
                        invariant
                            j <= m,
                            m == idv.len(),
                            idv == ids.deep_view(),
                            self@.clients == h.clients,
                            tpc@ == mv[i as int].topic,
                            idv == mv[i as int].subscriber_ids,
                            out.deep_view() == base + backfill_for_topic(
                                h.clients,
                                client_id@,
                                tpc@,
                                idv.take(j as int),
                            ),
                        decreases m - j,
                    {
                        let ghost out0 = out.deep_view();
                        match self.client_manager.get(&ids[j]) {
                            Some(rec) => {
                                let d = Delivery {
                                    client_id: client_id.clone(),
                                    event: ServerEvent::OnMessage(
                                        Message::ForwardedSubscriptionRequest(
                                            ForwardedSubscriptionRequest {
                                                host: rec.host.clone(),
                                                user: rec.user.clone(),
                                                client_id: rec.id.clone(),
                                                topic: tpc.clone(),
                                                is_add: true,
                                            },
                                        ),
                                    ),
                                };
                                out.push(d);
                                proof {
                                    let srec = client_of(h.clients, idv[j as int])->Some_0;
                                    assert(out.deep_view() =~= out0 + seq![
                                        DeliveryV {
                                            client_id: client_id@,
                                            message: subscription_notice(srec, tpc@, true),
                                        },
                                    ]);
                                }
                            },
                            None => {
                                proof {
                                    assert(out.deep_view() =~= out0 + Seq::<DeliveryV>::empty());
                                }
                            },
                        }
                        proof {
                            lemma_backfill_for_topic_snoc(
                                h.clients,
                                client_id@,
                                tpc@,
                                idv.take(j as int),
                                idv[j as int],
                            );
                            assert(idv.take(j as int).push(idv[j as int]) =~= idv.take(j + 1));
                        }
                        j = j + 1;
                    }
                    proof {
                        assert(idv.take(m as int) =~= idv);
                        lemma_backfill_deliveries_snoc(
                            h.clients,
                            client_id@,
                            mv.take(i as int),
                            mv[i as int],
                        );
                        assert(mv.take(i as int).push(mv[i as int]) =~= mv.take(i + 1));
                    }
                    i = i + 1;
                }
                proof {
                    assert(mv.take(n as int) =~= mv);
                }
            }
            out
        } else {
            let _ = self.notification_manager.remove_listener(client_id, pattern, false);
            out
        }
    }

    /// Clears every trace of a closing client, telling listeners of its
    /// lost subscriptions and subscribers of the topics it alone
    /// published.  The registry record is removed last.
    pub fn handle_close(&mut self, client_id: &String) -> (out: Vec<Delivery>)
        requires
            hub_wf(old(self)@),
        ensures
            final(self)@ == hub_close(old(self)@, client_id@).0,
            out.deep_view() == hub_close(old(self)@, client_id@).1,
            hub_wf(final(self)@),
            !has_key(final(self)@.clients, client_id@),
            forall|t: Seq<char>| !cs_contains(topic_subs(final(self)@.subs, t), client_id@),
            forall|p: Seq<char>|
                !cs_contains(
                    crate::notifications::pattern_listeners(final(self)@.notifs, p),
                    client_id@,
                ),
            !has_key(final(self)@.tbp, client_id@),
            forall|t: Seq<char>| !values_of(final(self)@.pbt, t).contains(client_id@),
    {
        let ghost h = self@;
        let ghost c = client_id@;
        let rec = match self.client_manager.get(client_id) {
            None => None,
            Some(r) => Some((r.id.clone(), r.host.clone(), r.user.clone())),
        };
        let removed = self.subscription_manager.handle_close(client_id);
        let mut out: Vec<Delivery> = Vec::new();
        proof {
            assert(out.deep_view() =~= Seq::<DeliveryV>::empty());
        }
        match &rec {
            Some((rid, rhost, ruser)) => {
                let ghost recv = client_of(h.clients, c)->Some_0;
                let ghost rv = removed.deep_view();
                let n = removed.len();
                let mut i: usize = 0;
                proof {
                    assert(out.deep_view() =~= close_notify_deliveries(h.notifs, recv, rv.take(0)));
                }
                while i < n
                    invariant
                        i <= n,
                        n == rv.len(),
                        rv == removed.deep_view(),
                        self@.notifs == h.notifs,
                        recv == (ClientRecV { id: rid@, host: rhost@, user: ruser@ }),
                        out.deep_view() == close_notify_deliveries(h.notifs, recv, rv.take(
                            i as int,
                        )),
                    decreases n - i,
                {
                    let ghost base = out.deep_view();
                    let listeners = self.notification_manager.listeners_for_topic(&removed[i]);
                    self.push_notices(&mut out, &listeners, rid, rhost, ruser, &removed[i], false);
                    proof {
                        lemma_close_notify_snoc(h.notifs, recv, rv.take(i as int), rv[i as int]);
                        assert(rv.take(i as int).push(rv[i as int]) =~= rv.take(i + 1));
                    }
                    i = i + 1;
                }
                proof {
                    assert(rv.take(n as int) =~= rv);
                }
            },
            None => {},
        }
        self.notification_manager.handle_close(client_id);
        let stale = self.publisher_manager.handle_close(client_id);
        match &rec {
            Some((rid, rhost, ruser)) => {
                let ghost recv = client_of(h.clients, c)->Some_0;
                let ghost base = out.deep_view();
                let ghost sv = stale.deep_view();
                let ghost subs2 = self@.subs;
                let n = stale.len();
                let mut i: usize = 0;
                proof {
                    assert(out.deep_view() =~= base + close_stale_deliveries(
                        h.clients,
                        subs2,
                        recv,
                        sv.take(0),
                    ));
                }
                while i < n
                    invariant
                        i <= n,
                        n == sv.len(),
                        sv == stale.deep_view(),
                        self@.clients == h.clients,
                        self@.subs == subs2,
                        recv == (ClientRecV { id: rid@, host: rhost@, user: ruser@ }),
                        out.deep_view() == base + close_stale_deliveries(
                            h.clients,
                            subs2,
                            recv,
                            sv.take(i as int),
                        ),
                    decreases n - i,
                {
                    let ghost mid = out.deep_view();
                    let subs = self.subscription_manager.subscribers_for_topic(&stale[i]);
                    let ghost subs_ids = subs.deep_view();
                    let tpc = &stale[i];
                    let m = subs.len();
                    let mut j: usize = 0;
                    proof {
                        assert(subs_ids == subscriber_ids(subs2, sv[i as int]));
                        assert(tpc@ == sv[i as int]);
                        assert(out.deep_view() =~= mid + stale_for_topic(
                            h.clients,
                            recv,
                            tpc@,
                            subs_ids.take(0),
                        ));
                    }
                    while j < m
                        invariant
                            j <= m,
                            m == subs_ids.len(),
                            subs_ids == subs.deep_view(),
                            self@.clients == h.clients,
                            tpc@ == sv[i as int],
                            recv == (ClientRecV { id: rid@, host: rhost@, user: ruser@ }),
                            out.deep_view() == mid + stale_for_topic(
                                h.clients,
                                recv,
                                tpc@,
                                subs_ids.take(j as int),
                            ),
                        decreases m - j,
                    {
                        let ghost out0 = out.deep_view();
                        match self.client_manager.get(&subs[j]) {
                            Some(_) => {
                                let no_packets: Vec<DataPacket> = Vec::new();
                                proof {
                                    assert(no_packets.deep_view() =~= Seq::<DataPacketV>::empty());
                                }
                                let d = Delivery {
                                    client_id: subs[j].clone(),
                                    event: ServerEvent::OnMessage(
                                        Message::ForwardedMulticastData(
                                            ForwardedMulticastData {
                                                host: rhost.clone(),
                                                user: ruser.clone(),
                                                topic: tpc.clone(),
                                                content_type: String::from_str(
                                                    "application/octet-stream",
                                                ),
                                                data_packets: no_packets,
                                            },
                                        ),
                                    ),
                                };
                                out.push(d);
                                proof {
                                    assert(out.deep_view() =~= out0 + seq![
                                        DeliveryV {
                                            client_id: subs_ids[j as int],
                                            message: stale_notice(recv, tpc@),
                                        },
                                    ]);
                                }
                            },
                            None => {
                                proof {
                                    assert(out.deep_view() =~= out0 + Seq::<DeliveryV>::empty());
                                }
                            },
                        }
                        proof {
                            lemma_stale_for_topic_snoc(
                                h.clients,
                                recv,
                                tpc@,
                                subs_ids.take(j as int),
                                subs_ids[j as int],
                            );
                            assert(subs_ids.take(j as int).push(subs_ids[j as int]) =~= subs_ids.take(
                                j + 1,
                            ));
                        }
                        j = j + 1;
                    }
                    proof {
                        assert(subs_ids.take(m as int) =~= subs_ids);
                        let ghost svi = sv[i as int];
                        lemma_close_stale_snoc(h.clients, subs2, recv, sv.take(i as int), svi);
                        assert(sv.take(i as int).push(sv[i as int]) =~= sv.take(i + 1));
                    }
                    i = i + 1;
                }
                proof {
                    assert(sv.take(n as int) =~= sv);
                }
            },
            None => {},
        }
        self.client_manager.handle_close(client_id);
        proof {
            let h2 = hub_close(h, c).0;
            assert(final(self)@ == h2);
            crate::keyed::lemma_key_idx_bounds(h2.tbp, c);
            if has_key(h.tbp, c) {
                crate::keyed::lemma_key_removed(h.tbp, c);
            }
            assert(!has_key(h2.tbp, c));
            assert forall|t: Seq<char>| !values_of(h2.pbt, t).contains(c) by {
                assert(values_of(h2.tbp, c) =~= Seq::<Seq<char>>::empty());
                assert(values_of(h2.tbp, c).contains(t) == values_of(h2.pbt, t).contains(c));
            }
        }
        out
    }

    /// Routes one decoded message from a client; `None` marks a message
    /// kind the server does not accept, and the caller closes the
    /// connection.
    pub fn handle_message(&mut self, client_id: &String, msg: Message) -> (r: Option<
        Vec<Delivery>,
    >)
        requires
            hub_wf(old(self)@),
        ensures
            ({
                let o = hub_event(
                    old(self)@,
                    ClientEventV::OnMessage(client_id@, msg.deep_view()),
                );
                match r {
                    Some(out) => o matches Some(p) && final(self)@ == p.0 && out.deep_view()
                        == p.1,
                    None => o is None && final(self)@ == old(self)@,
                }
            }),
            hub_wf(final(self)@),
    {
        match msg {
            Message::MulticastData(md) => Some(
                self.send_multicast_data(client_id, &md.topic, &md.content_type, md.data_packets),
            ),
            Message::UnicastData(ud) => Some(
                self.send_unicast_data(
                    client_id,
                    &ud.client_id,
                    &ud.topic,
                    &ud.content_type,
                    ud.data_packets,
                ),
            ),
            Message::SubscriptionRequest(sr) => Some(
                self.handle_subscription_request(client_id, &sr.topic, sr.is_add),
            ),
            Message::NotificationRequest(nr) => Some(
                self.handle_notification_request(client_id, &nr.pattern, nr.is_add),
            ),
            _ => None,
        }
    }

    /// Processes one event from the hub's inbox.
    pub fn handle_event(&mut self, event: ClientEvent) -> (r: Option<Vec<Delivery>>)
        requires
            hub_wf(old(self)@),
        ensures
            ({
                let o = hub_event(old(self)@, event.deep_view());
                match r {
                    Some(out) => o matches Some(p) && final(self)@ == p.0 && out.deep_view()
                        == p.1,
                    None => o is None && final(self)@ == old(self)@,
                }
            }),
            hub_wf(final(self)@),
    {
        match event {
            ClientEvent::OnConnect(id, host, user) => {
                self.handle_connect(id, host, user);
                let out: Vec<Delivery> = Vec::new();
                proof {
                    assert(out.deep_view() =~= Seq::<DeliveryV>::empty());
                }
                Some(out)
            },
            ClientEvent::OnMessage(id, m) => self.handle_message(&id, m),
            ClientEvent::OnClose(id) => Some(self.handle_close(&id)),
            ClientEvent::OnReset(specs) => {
                self.handle_reset(specs);
                let out: Vec<Delivery> = Vec::new();
                proof {
                    assert(out.deep_view() =~= Seq::<DeliveryV>::empty());
                }
                Some(out)
            },
        }
    }
}

} // verus!
