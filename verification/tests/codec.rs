use squawkbus::codec::Serializable;
use squawkbus::messages::{
    AuthenticationRequest, AuthenticationResponse, DataPacket, ForwardedMulticastData,
    ForwardedSubscriptionRequest, ForwardedUnicastData, Message, MulticastData,
    NotificationRequest, SubscriptionRequest, UnicastData,
};

fn roundtrip(initial: &Message) -> Message {
    let mut buf: Vec<u8> = Vec::new();
    assert!(initial.serialize(&mut buf), "should serialize");
    let mut pos: usize = 0;
    let round_trip = Message::deserialize(&buf, &mut pos).expect("should deserialize");
    assert_eq!(pos, buf.len());
    round_trip
}

#[test]
fn should_roundtrip_u32() {
    let mut buf: Vec<u8> = Vec::new();
    let actual: u32 = 12345678;
    assert!(actual.serialize(&mut buf), "should serialize");
    let mut pos: usize = 0;
    match u32::deserialize(&buf, &mut pos) {
        Some(expected) => assert_eq!(actual, expected),
        None => panic!("Failed to serialize"),
    }
}

#[test]
fn serialization_should_roundtrip_u32() {
    let mut buf: Vec<u8> = Vec::new();
    let actual: u32 = 12345678;
    assert!(actual.serialize(&mut buf), "should serialize");
    let mut pos: usize = 0;
    match u32::deserialize(&buf, &mut pos) {
        Some(expected) => assert_eq!(actual, expected),
        None => panic!("Failed to serialize"),
    }
}

#[test]
fn should_roundtrip_pos_i32() {
    let mut buf: Vec<u8> = Vec::new();
    let actual: i32 = 12345678;
    assert!(actual.serialize(&mut buf), "should serialize");
    let mut pos: usize = 0;
    match i32::deserialize(&buf, &mut pos) {
        Some(expected) => assert_eq!(actual, expected),
        None => panic!("Failed to serialize"),
    }
}

#[test]
fn serialization_should_roundtrip_pos_i32() {
    let mut buf: Vec<u8> = Vec::new();
    let actual: i32 = 12345678;
    assert!(actual.serialize(&mut buf), "should serialize");
    let mut pos: usize = 0;
    match i32::deserialize(&buf, &mut pos) {
        Some(expected) => assert_eq!(actual, expected),
        None => panic!("Failed to serialize"),
    }
}

#[test]
fn should_roundtrip_neg_i32() {
    let mut buf: Vec<u8> = Vec::new();
    let actual: i32 = -12345678;
    assert!(actual.serialize(&mut buf), "should serialize");
    let mut pos: usize = 0;
    match i32::deserialize(&buf, &mut pos) {
        Some(expected) => assert_eq!(actual, expected),
        None => panic!("Failed to serialize"),
    }
}

#[test]
fn serialization_should_roundtrip_neg_i32() {
    let mut buf: Vec<u8> = Vec::new();
    let actual: i32 = -12345678;
    assert!(actual.serialize(&mut buf), "should serialize");
    let mut pos: usize = 0;
    match i32::deserialize(&buf, &mut pos) {
        Some(expected) => assert_eq!(actual, expected),
        None => panic!("Failed to serialize"),
    }
}

#[test]
fn should_roundtrip_string() {
    let mut buf: Vec<u8> = Vec::new();
    let actual = String::from("Hello, World!");
    assert!(actual.serialize(&mut buf), "should serialize");
    let mut pos: usize = 0;
    match String::deserialize(&buf, &mut pos) {
        Some(expected) => assert_eq!(actual, expected),
        None => panic!("Failed to serialize"),
    }
}

#[test]
fn serialization_should_roundtrip_string() {
    let mut buf: Vec<u8> = Vec::new();
    let actual = String::from("Hello, World!");
    assert!(actual.serialize(&mut buf), "should serialize");
    let mut pos: usize = 0;
    match String::deserialize(&buf, &mut pos) {
        Some(expected) => assert_eq!(actual, expected),
        None => panic!("Failed to serialize"),
    }
}

#[test]
fn should_roundtrip_u32_vec() {
    let mut buf: Vec<u8> = Vec::new();
    let actual: Vec<u32> = vec![1, 10, 100, 1000, 10000];
    assert!(actual.serialize(&mut buf), "should serialize");
    let mut pos: usize = 0;
    match Vec::<u32>::deserialize(&buf, &mut pos) {
        Some(expected) => assert_eq!(actual, expected),
        None => panic!("Failed to serialize"),
    }
}

#[test]
fn should_roundtrip_i32_vec() {
    let mut buf: Vec<u8> = Vec::new();
    let actual: Vec<i32> = vec![-10000, -100, -10, -1, 0, 1, 10, 100, 1000, 10000];
    assert!(actual.serialize(&mut buf), "should serialize");
    let mut pos: usize = 0;
    match Vec::<i32>::deserialize(&buf, &mut pos) {
        Some(expected) => assert_eq!(actual, expected),
        None => panic!("Failed to serialize"),
    }
}

#[test]
fn should_roundtrip_i32_hashset() {
    // The wire form of an entitlement set: a count and its elements.
    let mut buf: Vec<u8> = Vec::new();
    let mut actual: Vec<i32> = Vec::new();
    actual.push(1);
    actual.push(3);
    actual.push(5);
    assert!(actual.serialize(&mut buf), "should serialize");
    let mut pos: usize = 0;
    match Vec::<i32>::deserialize(&buf, &mut pos) {
        Some(expected) => assert_eq!(actual, expected),
        None => panic!("Failed to serialize"),
    }
}

#[test]
fn should_round_trip_authentication_request() {
    let initial = Message::AuthenticationRequest(AuthenticationRequest {
        method: "basic".into(),
        credentials: "mary".as_bytes().to_vec(),
    });
    let round_trip = roundtrip(&initial);
    assert_eq!(initial, round_trip);
}

#[test]
fn should_roundtrip_authentication_response() {
    let initial = Message::AuthenticationResponse(AuthenticationResponse {
        client_id: "67e55044-10b1-426f-9247-bb680e5fe0c8".into(),
    });
    let round_trip = roundtrip(&initial);
    assert_eq!(initial, round_trip);
}

#[test]
fn should_roundtrip_forwarded_multicast_data() {
    let initial = Message::ForwardedMulticastData(ForwardedMulticastData {
        host: "host1".into(),
        user: "mary".into(),
        topic: "VOD LSE".into(),
        content_type: "text/plain".into(),
        data_packets: vec![DataPacket {
            entitlements: vec![1],
            data: "Hello, World!".as_bytes().to_vec(),
        }],
    });
    let round_trip = roundtrip(&initial);
    assert_eq!(initial, round_trip);
}

#[test]
fn should_roundtrip_forwarded_subscription_request() {
    let initial = Message::ForwardedSubscriptionRequest(ForwardedSubscriptionRequest {
        host: "host1".into(),
        user: "mary".into(),
        client_id: "67e55044-10b1-426f-9247-bb680e5fe0c8".into(),
        topic: "VOD LSE".into(),
        is_add: true,
    });
    let round_trip = roundtrip(&initial);
    assert_eq!(initial, round_trip);
}

#[test]
fn should_roundtrip_forwarded_unicast_data() {
    let initial = Message::ForwardedUnicastData(ForwardedUnicastData {
        host: "host1".into(),
        user: "mary".into(),
        client_id: "67e55044-10b1-426f-9247-bb680e5fe0c8".into(),
        topic: "VOD LSE".into(),
        content_type: "text/plain".into(),
        data_packets: vec![DataPacket {
            entitlements: vec![1],
            data: "Hello, World!".as_bytes().to_vec(),
        }],
    });
    let round_trip = roundtrip(&initial);
    assert_eq!(initial, round_trip);
}

#[test]
fn should_roundtrip_multicast_data() {
    let initial = Message::MulticastData(MulticastData {
        topic: "VOD LSE".into(),
        content_type: "text/plain".into(),
        data_packets: vec![DataPacket {
            entitlements: vec![1],
            data: "Hello, World!".as_bytes().to_vec(),
        }],
    });
    let round_trip = roundtrip(&initial);
    assert_eq!(initial, round_trip);
}

#[test]
fn should_roundtrip_notification_request() {
    let initial = Message::NotificationRequest(NotificationRequest {
        pattern: ".* LSE".into(),
        is_add: true,
    });
    let round_trip = roundtrip(&initial);
    assert_eq!(initial, round_trip);
}

#[test]
fn should_roundtrip_subscription_request() {
    let initial = Message::SubscriptionRequest(SubscriptionRequest {
        topic: "VOD LSE".into(),
        is_add: true,
    });
    let round_trip = roundtrip(&initial);
    assert_eq!(initial, round_trip);
}

#[test]
fn should_roundtrip_unicast_data() {
    let initial = Message::UnicastData(UnicastData {
        client_id: "67e55044-10b1-426f-9247-bb680e5fe0c8".into(),
        topic: "VOD LSE".into(),
        content_type: "text/plain".into(),
        data_packets: vec![DataPacket {
            entitlements: vec![1],
            data: "Hello, World!".as_bytes().to_vec(),
        }],
    });
    let round_trip = roundtrip(&initial);
    assert_eq!(initial, round_trip);
}

#[test]
fn encode_is_deterministic() {
    let m = Message::MulticastData(MulticastData {
        topic: "VOD LSE".into(),
        content_type: "text/plain".into(),
        data_packets: vec![DataPacket {
            entitlements: vec![2, 1],
            data: vec![0, 255, 7],
        }],
    });
    let mut b1: Vec<u8> = Vec::new();
    let mut b2: Vec<u8> = Vec::new();
    assert!(m.serialize(&mut b1));
    assert!(m.serialize(&mut b2));
    assert_eq!(b1, b2);
}

#[test]
fn encode_has_wire_layout() {
    // Exact bytes: type code 5, then "ab" (length 2), then the flag byte.
    let m = Message::SubscriptionRequest(SubscriptionRequest { topic: "ab".into(), is_add: true });
    let mut buf: Vec<u8> = Vec::new();
    assert!(m.serialize(&mut buf));
    assert_eq!(buf, vec![5u8, 0, 0, 0, 2, b'a', b'b', 1]);
}

#[test]
fn decode_rejects_unknown_type_code() {
    let buf: Vec<u8> = vec![42u8, 0, 0, 0, 0];
    let mut pos: usize = 0;
    assert!(Message::deserialize(&buf, &mut pos).is_none());
    assert_eq!(pos, 0);
}

#[test]
fn decode_rejects_truncated_message() {
    let m = Message::SubscriptionRequest(SubscriptionRequest { topic: "abc".into(), is_add: false });
    let mut buf: Vec<u8> = Vec::new();
    assert!(m.serialize(&mut buf));
    buf.truncate(buf.len() - 1);
    let mut pos: usize = 0;
    assert!(Message::deserialize(&buf, &mut pos).is_none());
    assert_eq!(pos, 0);
}

#[test]
fn decode_rejects_invalid_utf8() {
    // A string field whose two bytes are not valid UTF-8.
    let buf: Vec<u8> = vec![5u8, 0, 0, 0, 2, 0xff, 0xfe, 1];
    let mut pos: usize = 0;
    assert!(Message::deserialize(&buf, &mut pos).is_none());
}

#[test]
fn message_size_matches_encoding() {
    let m = Message::NotificationRequest(NotificationRequest {
        pattern: "x.*y".into(),
        is_add: false,
    });
    let mut buf: Vec<u8> = Vec::new();
    assert!(m.serialize(&mut buf));
    assert_eq!(m.size(), buf.len());
}

#[test]
fn message_type_codes_are_stable() {
    let m = Message::AuthenticationRequest(AuthenticationRequest {
        method: "none".into(),
        credentials: Vec::new(),
    });
    assert_eq!(m.message_type().code(), 1);
    let m2 = Message::ForwardedSubscriptionRequest(ForwardedSubscriptionRequest {
        host: "h".into(),
        user: "u".into(),
        client_id: "c".into(),
        topic: "t".into(),
        is_add: false,
    });
    assert_eq!(m2.message_type().code(), 9);
}
