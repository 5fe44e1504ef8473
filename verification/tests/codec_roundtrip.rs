use mqtt::ConnectReturnCode;
use mqtt::Message;
use mqtt::Packet;
use mqtt::PacketId;
use mqtt::Payload;
use mqtt::QoS;
use mqtt::Readable;
use mqtt::SubackReturnCode;
use mqtt::Topic;
use mqtt::Writable;

fn roundtrip(p: Packet) -> (Packet, usize, Vec<u8>) {
    let bytes = p.write_to().expect("encodable packet");
    let (q, consumed) = Packet::read_from(&bytes).expect("decodable bytes");
    assert_eq!(consumed, bytes.len());
    (q, consumed, bytes)
}

#[test]
fn connect_minimal_golden_bytes() {
    let p = Packet::CONNECT {
        client_id: "abc".to_string(),
        username: None,
        password: None,
        will: None,
        clean_session: true,
        keep_alive: 60,
    };
    let bytes = p.write_to().unwrap();
    assert_eq!(
        bytes,
        vec![
            0x10, 0x0F, 0x00, 0x04, 0x4D, 0x51, 0x54, 0x54, 0x04, 0x02, 0x00, 0x3C, 0x00, 0x03,
            0x61, 0x62, 0x63
        ]
    );
    let (q, consumed) = Packet::read_from(&bytes).unwrap();
    assert_eq!(consumed, bytes.len());
    match q {
        Packet::CONNECT { client_id, username, password, will, clean_session, keep_alive } => {
            assert_eq!(client_id, "abc");
            assert!(username.is_none());
            assert!(password.is_none());
            assert!(will.is_none());
            assert!(clean_session);
            assert_eq!(keep_alive, 60);
        },
        other => panic!("not a CONNECT: {:?}", other),
    }
}

#[test]
fn connect_full_roundtrip() {
    let p = Packet::CONNECT {
        client_id: "client-1".to_string(),
        username: Some("user".to_string()),
        password: Some(vec![1, 2, 3]),
        will: Some(Message {
            topic: Topic::new("last/will"),
            payload: Payload::new(b"gone"),
            qos: QoS::QoS1,
            retain: true,
        }),
        clean_session: false,
        keep_alive: 30,
    };
    let (q, _, _) = roundtrip(p);
    match q {
        Packet::CONNECT { client_id, username, password, will, clean_session, keep_alive } => {
            assert_eq!(client_id, "client-1");
            assert_eq!(username.as_deref(), Some("user"));
            assert_eq!(password, Some(vec![1, 2, 3]));
            let w = will.expect("will kept");
            assert_eq!(w.topic.to_string(), "last/will");
            assert_eq!(w.payload.bytes(), b"gone");
            assert!(matches!(w.qos, QoS::QoS1));
            assert!(w.retain);
            assert!(!clean_session);
            assert_eq!(keep_alive, 30);
        },
        other => panic!("not a CONNECT: {:?}", other),
    }
}

#[test]
fn connack_roundtrip() {
    let p = Packet::CONNACK { session_present: true, return_code: ConnectReturnCode::RefusedLogin };
    let (q, _, bytes) = roundtrip(p);
    assert_eq!(bytes, vec![0x20, 0x02, 0x01, 0x04]);
    match q {
        Packet::CONNACK { session_present, return_code } => {
            assert!(session_present);
            assert!(matches!(return_code, ConnectReturnCode::RefusedLogin));
        },
        other => panic!("not a CONNACK: {:?}", other),
    }
}

#[test]
fn publish_qos0_roundtrip() {
    let p = Packet::PUBLISH {
        dup: false,
        message: Message {
            topic: Topic::new("ab"),
            payload: Payload::new_str("hello"),
            qos: QoS::QoS0,
            retain: false,
        },
        packet_id: None,
    };
    let (q, _, bytes) = roundtrip(p);
    assert_eq!(bytes[0], 0x30);
    match q {
        Packet::PUBLISH { dup, message, packet_id } => {
            assert!(!dup);
            assert_eq!(message.topic.to_string(), "ab");
            assert_eq!(message.payload.bytes(), b"hello");
            assert!(matches!(message.qos, QoS::QoS0));
            assert!(!message.retain);
            assert!(packet_id.is_none());
        },
        other => panic!("not a PUBLISH: {:?}", other),
    }
}

#[test]
fn publish_qos2_dup_retain_roundtrip() {
    let p = Packet::PUBLISH {
        dup: true,
        message: Message {
            topic: Topic::new_owned("t/1".to_string()),
            payload: Payload::new_owned(vec![0, 255, 128]),
            qos: QoS::QoS2,
            retain: true,
        },
        packet_id: Some(PacketId(777)),
    };
    let (q, _, bytes) = roundtrip(p);
    // flags nibble: retain(1) | qos2(100) | dup(1000)
    assert_eq!(bytes[0], 0x3D);
    match q {
        Packet::PUBLISH { dup, message, packet_id } => {
            assert!(dup);
            assert_eq!(message.topic.to_string(), "t/1");
            assert_eq!(message.payload.bytes(), &vec![0, 255, 128]);
            assert!(matches!(message.qos, QoS::QoS2));
            assert!(message.retain);
            assert!(matches!(packet_id, Some(PacketId(777))));
        },
        other => panic!("not a PUBLISH: {:?}", other),
    }
}

#[test]
fn publish_multibyte_topic_roundtrip() {
    let p = Packet::PUBLISH {
        dup: false,
        message: Message {
            topic: Topic::new("caf\u{e9}/\u{2603}"),
            payload: Payload::new(b""),
            qos: QoS::QoS0,
            retain: false,
        },
        packet_id: None,
    };
    let (q, _, _) = roundtrip(p);
    match q {
        Packet::PUBLISH { message, .. } => {
            assert_eq!(message.topic.to_string(), "caf\u{e9}/\u{2603}");
            assert_eq!(message.payload.bytes(), b"");
        },
        other => panic!("not a PUBLISH: {:?}", other),
    }
}

#[test]
fn ack_packets_roundtrip() {
    let cases: Vec<(Packet, u8)> = vec![
        (Packet::PUBACK { packet_id: PacketId(1) }, 0x40),
        (Packet::PUBREC { packet_id: PacketId(2) }, 0x50),
        (Packet::PUBREL { packet_id: PacketId(3) }, 0x62),
        (Packet::PUBCOMP { packet_id: PacketId(4) }, 0x70),
        (Packet::UNSUBACK { packet_id: PacketId(5) }, 0xB0),
    ];
    for (p, first) in cases {
        let (q, _, bytes) = roundtrip(p);
        assert_eq!(bytes[0], first);
        assert_eq!(bytes[1], 0x02);
        let pid = match q {
            Packet::PUBACK { packet_id } => packet_id.0,
            Packet::PUBREC { packet_id } => packet_id.0,
            Packet::PUBREL { packet_id } => packet_id.0,
            Packet::PUBCOMP { packet_id } => packet_id.0,
            Packet::UNSUBACK { packet_id } => packet_id.0,
            other => panic!("not an ack: {:?}", other),
        };
        assert_eq!(pid as u8, bytes[3]);
    }
}

#[test]
fn subscribe_roundtrip() {
    let p = Packet::SUBSCRIBE {
        packet_id: PacketId(12345),
        topic_filters: vec![
            (Topic::new("a/b"), QoS::QoS0),
            (Topic::new("c"), QoS::QoS2),
        ],
    };
    let (q, _, bytes) = roundtrip(p);
    assert_eq!(bytes[0], 0x82);
    match q {
        Packet::SUBSCRIBE { packet_id, topic_filters } => {
            assert_eq!(packet_id.0, 12345);
            assert_eq!(topic_filters.len(), 2);
            assert_eq!(topic_filters[0].0.to_string(), "a/b");
            assert!(matches!(topic_filters[0].1, QoS::QoS0));
            assert_eq!(topic_filters[1].0.to_string(), "c");
            assert!(matches!(topic_filters[1].1, QoS::QoS2));
        },
        other => panic!("not a SUBSCRIBE: {:?}", other),
    }
}

#[test]
fn suback_roundtrip() {
    let p = Packet::SUBACK {
        packet_id: PacketId(9),
        return_codes: vec![
            SubackReturnCode::QoS0,
            SubackReturnCode::Failure,
            SubackReturnCode::QoS2,
        ],
    };
    let (q, _, bytes) = roundtrip(p);
    assert_eq!(bytes, vec![0x90, 0x05, 0x00, 0x09, 0x00, 0x80, 0x02]);
    match q {
        Packet::SUBACK { packet_id, return_codes } => {
            assert_eq!(packet_id.0, 9);
            assert_eq!(
                return_codes,
                vec![SubackReturnCode::QoS0, SubackReturnCode::Failure, SubackReturnCode::QoS2]
            );
        },
        other => panic!("not a SUBACK: {:?}", other),
    }
}

#[test]
fn unsubscribe_roundtrip() {
    let p = Packet::UNSUBSCRIBE {
        packet_id: PacketId(7),
        topic_filters: vec![Topic::new("x"), Topic::new("y/z")],
    };
    let (q, _, bytes) = roundtrip(p);
    assert_eq!(bytes[0], 0xA2);
    match q {
        Packet::UNSUBSCRIBE { packet_id, topic_filters } => {
            assert_eq!(packet_id.0, 7);
            assert_eq!(topic_filters.len(), 2);
            assert_eq!(topic_filters[0].to_string(), "x");
            assert_eq!(topic_filters[1].to_string(), "y/z");
        },
        other => panic!("not an UNSUBSCRIBE: {:?}", other),
    }
}

#[test]
fn empty_body_packets_roundtrip() {
    let cases: Vec<(Packet, u8)> = vec![
        (Packet::PINGREQ, 0xC0),
        (Packet::PINGRESP, 0xD0),
        (Packet::DISCONNECT, 0xE0),
    ];
    for (p, first) in cases {
        let (q, _, bytes) = roundtrip(p);
        assert_eq!(bytes, vec![first, 0x00]);
        match (first, q) {
            (0xC0, Packet::PINGREQ) => {},
            (0xD0, Packet::PINGRESP) => {},
            (0xE0, Packet::DISCONNECT) => {},
            (_, other) => panic!("wrong variant: {:?}", other),
        }
    }
}

#[test]
fn trailing_bytes_left_for_next_packet() {
    let buf = vec![0xC0, 0x00, 0xD0, 0x00];
    let (p, consumed) = Packet::read_from(&buf).unwrap();
    assert!(matches!(p, Packet::PINGREQ));
    assert_eq!(consumed, 2);
    let rest: Vec<u8> = buf[consumed..].to_vec();
    let (p2, consumed2) = Packet::read_from(&rest).unwrap();
    assert!(matches!(p2, Packet::PINGRESP));
    assert_eq!(consumed2, 2);
}

#[test]
fn large_payload_uses_two_byte_varint() {
    let p = Packet::PUBLISH {
        dup: false,
        message: Message {
            topic: Topic::new("t"),
            payload: Payload::new_owned(vec![7u8; 200]),
            qos: QoS::QoS0,
            retain: false,
        },
        packet_id: None,
    };
    let (q, consumed, bytes) = roundtrip(p);
    // remaining length 203 = 0xCB, 0x01 in base-128
    assert_eq!(&bytes[1..3], &[0xCB, 0x01]);
    assert_eq!(consumed, 3 + 203);
    match q {
        Packet::PUBLISH { message, .. } => {
            assert_eq!(message.payload.bytes().len(), 200);
            assert!(message.payload.bytes().iter().all(|b| *b == 7));
        },
        other => panic!("not a PUBLISH: {:?}", other),
    }
}
