use squawkbus::authentication::{AuthenticationManager, Credential};
use squawkbus::codec::Serializable;
use squawkbus::events::ServerEvent;
use squawkbus::frame::{frame_message, FrameBuffer};
use squawkbus::interactor::Interactor;
use squawkbus::messages::{
    AuthenticationRequest, DataPacket, Message, MulticastData, SubscriptionRequest,
};

#[test]
fn should_roundtrip_non_ascii_string() {
    // Multi-byte characters exercise the real UTF-8 path.
    let mut buf: Vec<u8> = Vec::new();
    let actual = String::from("prix: 42\u{20ac} \u{1f680} \u{e9}t\u{e9}");
    assert!(actual.serialize(&mut buf), "should serialize");
    let mut pos: usize = 0;
    match String::deserialize(&buf, &mut pos) {
        Some(expected) => assert_eq!(actual, expected),
        None => panic!("Failed to serialize"),
    }
    // The length field counts bytes, not characters.
    let byte_len = actual.as_bytes().len() as u32;
    assert_eq!(&buf[0..4], byte_len.to_be_bytes().as_slice());
}

#[test]
fn frame_buffer_yields_frames_across_chunks() {
    let m1 = Message::SubscriptionRequest(SubscriptionRequest { topic: "t1".into(), is_add: true });
    let m2 = Message::SubscriptionRequest(SubscriptionRequest { topic: "t2".into(), is_add: false });
    let f1 = frame_message(&m1).expect("frames");
    let f2 = frame_message(&m2).expect("frames");
    let mut stream: Vec<u8> = Vec::new();
    stream.extend_from_slice(&f1);
    stream.extend_from_slice(&f2);

    let mut buffer = FrameBuffer::new();
    // Feed the bytes in awkward slices.
    let (a, b) = stream.split_at(3);
    buffer.push_bytes(a.to_vec());
    assert!(buffer.next_frame().is_none());
    buffer.push_bytes(b.to_vec());

    let p1 = buffer.next_frame().expect("first frame");
    let mut pos: usize = 0;
    assert_eq!(Message::deserialize(&p1, &mut pos), Some(m1));
    let p2 = buffer.next_frame().expect("second frame");
    pos = 0;
    assert_eq!(Message::deserialize(&p2, &mut pos), Some(m2));
    assert!(buffer.next_frame().is_none());
}

#[test]
fn interactor_translates_frames_to_events() {
    let interactor = Interactor::new("c7".to_string());
    let m = Message::MulticastData(MulticastData {
        topic: "t".into(),
        content_type: "text/plain".into(),
        data_packets: vec![DataPacket { entitlements: vec![], data: vec![1, 2] }],
    });
    let mut payload: Vec<u8> = Vec::new();
    assert!(m.serialize(&mut payload));
    let event = interactor.on_frame(&payload).expect("well-formed frame");
    match event {
        squawkbus::events::ClientEvent::OnMessage(id, got) => {
            assert_eq!(id, "c7");
            assert_eq!(got, m);
        },
        _ => panic!("unexpected event"),
    }
    assert!(interactor.on_frame(&vec![0xffu8]).is_none());
}

#[test]
fn interactor_greets_with_its_id() {
    let interactor = Interactor::new("abc".to_string());
    let greeting = interactor.authentication_response();
    let frame = Interactor::encode_event(&ServerEvent::OnMessage(greeting)).expect("encodes");
    // Strip the length prefix and decode the payload.
    let payload = frame[4..].to_vec();
    let mut pos: usize = 0;
    match Message::deserialize(&payload, &mut pos) {
        Some(Message::AuthenticationResponse(r)) => assert_eq!(r.client_id, "abc"),
        other => panic!("unexpected {other:?}"),
    }
}

#[test]
fn handshake_accepts_only_authentication_requests() {
    let m = Message::AuthenticationRequest(AuthenticationRequest {
        method: "none".into(),
        credentials: b"mary".to_vec(),
    });
    let mut payload: Vec<u8> = Vec::new();
    assert!(m.serialize(&mut payload));
    let a = Interactor::read_handshake(&payload).expect("handshake");
    assert_eq!(a.method, "none");
    assert_eq!(a.credentials, b"mary".to_vec());

    let other = Message::SubscriptionRequest(SubscriptionRequest { topic: "t".into(), is_add: true });
    let mut payload2: Vec<u8> = Vec::new();
    assert!(other.serialize(&mut payload2));
    assert!(Interactor::read_handshake(&payload2).is_none());
}

#[test]
fn authentication_none_accepts_and_names_the_user() {
    let store = AuthenticationManager::new(Vec::new());
    let user = store.authenticate(&"none".to_string(), &b"mary".to_vec());
    assert_eq!(user, Some("mary".to_string()));
}

#[test]
fn authentication_htpasswd_checks_the_store() {
    let store = AuthenticationManager::new(vec![Credential {
        user: "mary".to_string(),
        secret: "s3cr3t".to_string(),
    }]);
    let method = "htpasswd".to_string();
    assert_eq!(store.authenticate(&method, &b"mary\ns3cr3t".to_vec()), Some("mary".to_string()));
    assert_eq!(store.authenticate(&method, &b"mary\nwrong".to_vec()), None);
    assert_eq!(store.authenticate(&method, &b"john\ns3cr3t".to_vec()), None);
    assert_eq!(store.authenticate(&"other".to_string(), &b"mary\ns3cr3t".to_vec()), None);
}

#[test]
fn authentication_reload_replaces_logins() {
    let mut store = AuthenticationManager::new(vec![Credential {
        user: "mary".to_string(),
        secret: "old".to_string(),
    }]);
    store.reset(vec![Credential { user: "mary".to_string(), secret: "new".to_string() }]);
    let method = "htpasswd".to_string();
    assert_eq!(store.authenticate(&method, &b"mary\nold".to_vec()), None);
    assert_eq!(store.authenticate(&method, &b"mary\nnew".to_vec()), Some("mary".to_string()));
}

#[test]
fn packet_filter_is_monotone_in_entitlements() {
    // A packet that reaches a reader also reaches a better-entitled one.
    let p = DataPacket { entitlements: vec![2], data: b"x".to_vec() };
    let narrow: Vec<i32> = vec![2];
    let wide: Vec<i32> = vec![1, 2, 3];
    assert!(p.is_authorized(&narrow));
    assert!(p.is_authorized(&wide));
    // And one that a reader lacks stays withheld only for that reader.
    let q = DataPacket { entitlements: vec![9], data: b"y".to_vec() };
    assert!(!q.is_authorized(&narrow));
}
