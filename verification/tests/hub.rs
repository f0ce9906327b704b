use squawkbus::authorization::{AuthorizationManager, AuthorizationSpec, Role};
use squawkbus::events::{ClientEvent, Delivery, ServerEvent};
use squawkbus::hub::Hub;
use squawkbus::messages::{
    DataPacket, Message, MulticastData, NotificationRequest, SubscriptionRequest, UnicastData,
};

fn open_hub() -> Hub {
    Hub::new(AuthorizationManager::new(Vec::new()))
}

fn hub_with_rules(rules: Vec<AuthorizationSpec>) -> Hub {
    Hub::new(AuthorizationManager::new(rules))
}

fn rule(user: &str, topic: &str, role: Role, entitlements: Vec<i32>) -> AuthorizationSpec {
    AuthorizationSpec {
        user_pattern: user.to_string(),
        topic_pattern: topic.to_string(),
        role,
        entitlements,
    }
}

fn connect(hub: &mut Hub, id: &str, host: &str, user: &str) {
    let out = hub
        .handle_event(ClientEvent::OnConnect(id.to_string(), host.to_string(), user.to_string()))
        .expect("connect is always handled");
    assert!(out.is_empty());
}

fn send(hub: &mut Hub, id: &str, msg: Message) -> Vec<Delivery> {
    hub.handle_event(ClientEvent::OnMessage(id.to_string(), msg)).expect("message kind handled")
}

fn subscribe(hub: &mut Hub, id: &str, topic: &str, is_add: bool) -> Vec<Delivery> {
    send(
        hub,
        id,
        Message::SubscriptionRequest(SubscriptionRequest { topic: topic.to_string(), is_add }),
    )
}

fn publish(hub: &mut Hub, id: &str, topic: &str, packets: Vec<DataPacket>) -> Vec<Delivery> {
    send(
        hub,
        id,
        Message::MulticastData(MulticastData {
            topic: topic.to_string(),
            content_type: "text/plain".to_string(),
            data_packets: packets,
        }),
    )
}

fn packet(entitlements: Vec<i32>, data: &str) -> DataPacket {
    DataPacket { entitlements, data: data.as_bytes().to_vec() }
}

fn message_of(d: &Delivery) -> &Message {
    match &d.event {
        ServerEvent::OnMessage(m) => m,
    }
}

#[test]
fn basic_multicast() {
    let mut hub = open_hub();
    connect(&mut hub, "a1", "hosta", "alice");
    connect(&mut hub, "b1", "hostb", "bob");
    connect(&mut hub, "c1", "hostc", "carol");

    assert!(subscribe(&mut hub, "a1", "VOD LSE", true).is_empty());
    let out = publish(&mut hub, "b1", "VOD LSE", vec![packet(vec![], "hi")]);

    assert_eq!(out.len(), 1);
    assert_eq!(out[0].client_id, "a1");
    match message_of(&out[0]) {
        Message::ForwardedMulticastData(m) => {
            assert_eq!(m.host, "hostb");
            assert_eq!(m.user, "bob");
            assert_eq!(m.topic, "VOD LSE");
            assert_eq!(m.content_type, "text/plain");
            assert_eq!(m.data_packets, vec![packet(vec![], "hi")]);
        },
        other => panic!("unexpected message {other:?}"),
    }
}

#[test]
fn unicast_to_named_client() {
    let mut hub = open_hub();
    connect(&mut hub, "a1", "hosta", "alice");
    connect(&mut hub, "b1", "hostb", "bob");

    let out = send(
        &mut hub,
        "b1",
        Message::UnicastData(UnicastData {
            client_id: "a1".to_string(),
            topic: "chat".to_string(),
            content_type: "text/plain".to_string(),
            data_packets: vec![packet(vec![], "ping")],
        }),
    );

    assert_eq!(out.len(), 1);
    assert_eq!(out[0].client_id, "a1");
    match message_of(&out[0]) {
        Message::ForwardedUnicastData(m) => {
            assert_eq!(m.host, "hostb");
            assert_eq!(m.user, "bob");
            assert_eq!(m.client_id, "b1");
            assert_eq!(m.topic, "chat");
            assert_eq!(m.content_type, "text/plain");
            assert_eq!(m.data_packets, vec![packet(vec![], "ping")]);
        },
        other => panic!("unexpected message {other:?}"),
    }
}

#[test]
fn notification_back_fill_and_transitions() {
    let mut hub = open_hub();
    connect(&mut hub, "a1", "hosta", "alice");
    connect(&mut hub, "b1", "hostb", "bob");

    assert!(subscribe(&mut hub, "a1", "market.LSE.VOD", true).is_empty());

    // B registers; the back-fill reports A's standing subscription.
    let out = send(
        &mut hub,
        "b1",
        Message::NotificationRequest(NotificationRequest {
            pattern: "market\\.LSE\\..*".to_string(),
            is_add: true,
        }),
    );
    assert_eq!(out.len(), 1);
    assert_eq!(out[0].client_id, "b1");
    match message_of(&out[0]) {
        Message::ForwardedSubscriptionRequest(m) => {
            assert_eq!(m.host, "hosta");
            assert_eq!(m.user, "alice");
            assert_eq!(m.client_id, "a1");
            assert_eq!(m.topic, "market.LSE.VOD");
            assert!(m.is_add);
        },
        other => panic!("unexpected message {other:?}"),
    }

    // A second identical subscription moves the count 1 to 2: no notice.
    assert!(subscribe(&mut hub, "a1", "market.LSE.VOD", true).is_empty());
    // First remove moves 2 to 1: no notice.
    assert!(subscribe(&mut hub, "a1", "market.LSE.VOD", false).is_empty());
    // Second remove moves 1 to 0: the listener hears of it.
    let out = subscribe(&mut hub, "a1", "market.LSE.VOD", false);
    assert_eq!(out.len(), 1);
    assert_eq!(out[0].client_id, "b1");
    match message_of(&out[0]) {
        Message::ForwardedSubscriptionRequest(m) => {
            assert_eq!(m.topic, "market.LSE.VOD");
            assert!(!m.is_add);
        },
        other => panic!("unexpected message {other:?}"),
    }
}

#[test]
fn entitlement_intersection_filters_packets() {
    let mut hub = hub_with_rules(vec![
        rule("u1", "t", Role::Publisher, vec![1, 2]),
        rule("u2", "t", Role::Subscriber, vec![2, 3]),
    ]);
    connect(&mut hub, "p1", "hostp", "u1");
    connect(&mut hub, "s1", "hosts", "u2");

    assert!(subscribe(&mut hub, "s1", "t", true).is_empty());
    let out = publish(
        &mut hub,
        "p1",
        "t",
        vec![packet(vec![1], "a"), packet(vec![2], "b"), packet(vec![3], "c")],
    );

    assert_eq!(out.len(), 1);
    assert_eq!(out[0].client_id, "s1");
    match message_of(&out[0]) {
        Message::ForwardedMulticastData(m) => {
            assert_eq!(m.data_packets, vec![packet(vec![2], "b")]);
        },
        other => panic!("unexpected message {other:?}"),
    }
}

#[test]
fn stale_topic_on_publisher_close() {
    let mut hub = open_hub();
    connect(&mut hub, "p1", "hostp", "pat");
    connect(&mut hub, "s1", "hosts", "sam");

    assert!(subscribe(&mut hub, "s1", "t", true).is_empty());
    let first = publish(&mut hub, "p1", "t", vec![packet(vec![], "x")]);
    assert_eq!(first.len(), 1);

    let out = hub.handle_event(ClientEvent::OnClose("p1".to_string())).expect("close handled");
    assert_eq!(out.len(), 1);
    assert_eq!(out[0].client_id, "s1");
    match message_of(&out[0]) {
        Message::ForwardedMulticastData(m) => {
            assert_eq!(m.host, "hostp");
            assert_eq!(m.user, "pat");
            assert_eq!(m.topic, "t");
            assert_eq!(m.content_type, "application/octet-stream");
            assert!(m.data_packets.is_empty());
        },
        other => panic!("unexpected message {other:?}"),
    }
}

#[test]
fn reload_changes_later_routing_only() {
    let mut hub = hub_with_rules(vec![
        rule("u1", "t", Role::Publisher, vec![1]),
        rule("u2", "t", Role::Subscriber, vec![1]),
    ]);
    connect(&mut hub, "p1", "hostp", "u1");
    connect(&mut hub, "s1", "hosts", "u2");
    assert!(subscribe(&mut hub, "s1", "t", true).is_empty());

    // Before the reload the packet flows.
    let out = publish(&mut hub, "p1", "t", vec![packet(vec![1], "x")]);
    assert_eq!(out.len(), 1);

    // The new policy removes u2's subscriber entitlements on t.
    let reload = hub
        .handle_event(ClientEvent::OnReset(vec![rule("u1", "t", Role::Publisher, vec![1])]))
        .expect("reset handled");
    assert!(reload.is_empty());

    // No retroactive unsubscription, but the next multicast yields an
    // empty intersection and is not delivered.
    let out = publish(&mut hub, "p1", "t", vec![packet(vec![1], "y")]);
    assert!(out.is_empty());
}

#[test]
fn subscription_denied_by_empty_grant() {
    // A rule that applies with no entitlements is an explicit denial.
    let mut hub = hub_with_rules(vec![
        rule("u1", "t", Role::Publisher, vec![1]),
        rule("nobody", "t", Role::Subscriber, vec![]),
    ]);
    connect(&mut hub, "s1", "hosts", "nobody");
    assert!(subscribe(&mut hub, "s1", "t", true).is_empty());
    connect(&mut hub, "p1", "hostp", "u1");
    let out = publish(&mut hub, "p1", "t", vec![packet(vec![], "x")]);
    assert!(out.is_empty());
}

#[test]
fn remove_without_subscription_changes_nothing() {
    let mut hub = open_hub();
    connect(&mut hub, "a1", "hosta", "alice");
    connect(&mut hub, "b1", "hostb", "bob");
    assert!(subscribe(&mut hub, "b1", "t", true).is_empty());

    // Two removes from a client that never subscribed: no effect, no error.
    assert!(subscribe(&mut hub, "a1", "t", false).is_empty());
    assert!(subscribe(&mut hub, "a1", "t", false).is_empty());

    // B still receives publishes on t.
    connect(&mut hub, "p1", "hostp", "pat");
    let out = publish(&mut hub, "p1", "t", vec![packet(vec![], "x")]);
    assert_eq!(out.len(), 1);
    assert_eq!(out[0].client_id, "b1");
}

#[test]
fn n_adds_then_n_removes_restore_the_index() {
    let mut hub = open_hub();
    connect(&mut hub, "a1", "hosta", "alice");
    connect(&mut hub, "w1", "hostw", "watcher");

    // The watcher hears the add once and the remove once, whatever N is.
    let out = send(
        &mut hub,
        "w1",
        Message::NotificationRequest(NotificationRequest {
            pattern: "t".to_string(),
            is_add: true,
        }),
    );
    assert!(out.is_empty());

    let n = 5;
    for i in 0..n {
        let out = subscribe(&mut hub, "a1", "t", true);
        assert_eq!(out.len(), if i == 0 { 1 } else { 0 });
    }
    for i in 0..n {
        let out = subscribe(&mut hub, "a1", "t", false);
        assert_eq!(out.len(), if i == n - 1 { 1 } else { 0 });
    }
    // A publish finds no subscribers: the index is back where it began.
    connect(&mut hub, "p1", "hostp", "pat");
    assert!(publish(&mut hub, "p1", "t", vec![packet(vec![], "x")]).is_empty());
}

#[test]
fn close_removes_client_everywhere() {
    let mut hub = open_hub();
    connect(&mut hub, "a1", "hosta", "alice");
    connect(&mut hub, "b1", "hostb", "bob");
    assert!(subscribe(&mut hub, "a1", "t", true).is_empty());
    assert!(subscribe(&mut hub, "b1", "t", true).is_empty());

    let out = hub.handle_event(ClientEvent::OnClose("a1".to_string())).expect("close handled");
    assert!(out.is_empty());

    // Publishes on t reach only B now.
    connect(&mut hub, "p1", "hostp", "pat");
    let out = publish(&mut hub, "p1", "t", vec![packet(vec![], "x")]);
    assert_eq!(out.len(), 1);
    assert_eq!(out[0].client_id, "b1");
}

#[test]
fn bad_pattern_is_rejected_silently() {
    let mut hub = open_hub();
    connect(&mut hub, "a1", "hosta", "alice");
    let out = send(
        &mut hub,
        "a1",
        Message::NotificationRequest(NotificationRequest {
            pattern: "(".to_string(),
            is_add: true,
        }),
    );
    assert!(out.is_empty());
}

#[test]
fn server_rejects_forwarded_messages_from_clients() {
    let mut hub = open_hub();
    connect(&mut hub, "a1", "hosta", "alice");
    let r = hub.handle_event(ClientEvent::OnMessage(
        "a1".to_string(),
        Message::AuthenticationResponse(squawkbus::messages::AuthenticationResponse {
            client_id: "x".to_string(),
        }),
    ));
    assert!(r.is_none());
}

#[test]
fn wildcard_user_rule_applies_to_everyone() {
    let mut hub = hub_with_rules(vec![
        rule("*", "t", Role::Publisher, vec![7]),
        rule("*", "t", Role::Subscriber, vec![7]),
    ]);
    connect(&mut hub, "p1", "hostp", "anyone");
    connect(&mut hub, "s1", "hosts", "someone");
    assert!(subscribe(&mut hub, "s1", "t", true).is_empty());
    let out = publish(&mut hub, "p1", "t", vec![packet(vec![7], "x")]);
    assert_eq!(out.len(), 1);
}
