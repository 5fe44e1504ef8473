use mqtt::proto::reader;
use mqtt::proto::writer;
use mqtt::ConnectReturnCode;
use mqtt::Message;
use mqtt::MqttError;
use mqtt::Packet;
use mqtt::PacketId;
use mqtt::Payload;
use mqtt::QoS;
use mqtt::Readable;
use mqtt::ReaderError;
use mqtt::SubackReturnCode;
use mqtt::Topic;
use mqtt::Writable;
use mqtt::WriterError;

#[test]
fn varint_roundtrip_at_boundaries() {
    for n in [0usize, 127, 128, 16383, 16384, 2097151, 2097152, 268435455] {
        let enc = writer::var_length(n);
        let expected_len = match n {
            0..=127 => 1,
            128..=16383 => 2,
            16384..=2097151 => 3,
            _ => 4,
        };
        assert_eq!(enc.len(), expected_len, "encoded length for {}", n);
        let (v, c) = reader::var_length(&enc, 0).unwrap();
        assert_eq!(v, n);
        assert_eq!(c, enc.len());
    }
}

#[test]
fn varint_fifth_byte_is_malformed() {
    // the encoding that 268435456 would need: five bytes
    let enc = vec![0x80, 0x80, 0x80, 0x80, 0x01];
    assert_eq!(reader::var_length(&enc, 0), Err(ReaderError::MalformedVarint));
}

#[test]
fn varint_ending_on_continuation_is_incomplete() {
    // a stream that ends right after a continuation-flagged byte
    let buf = vec![0x30, 0x80];
    assert_eq!(Packet::read_from(&buf).unwrap_err(), ReaderError::IncompleteMessage);
    let buf2 = vec![0x30, 0xFF, 0xFF];
    assert_eq!(Packet::read_from(&buf2).unwrap_err(), ReaderError::IncompleteMessage);
}

#[test]
fn empty_buffer_is_incomplete() {
    let buf: Vec<u8> = vec![];
    assert_eq!(Packet::read_from(&buf).unwrap_err(), ReaderError::IncompleteMessage);
}

#[test]
fn short_body_is_incomplete() {
    // CONNACK declaring two body bytes but carrying one
    let buf = vec![0x20, 0x02, 0x00];
    assert_eq!(Packet::read_from(&buf).unwrap_err(), ReaderError::IncompleteMessage);
}

#[test]
fn subscribe_qos_three_is_invalid() {
    // SUBSCRIBE: packet id 1, topic "a", then a filter level byte of 3
    let buf = vec![0x82, 0x06, 0x00, 0x01, 0x00, 0x01, 0x61, 0x03];
    assert_eq!(Packet::read_from(&buf).unwrap_err(), ReaderError::InvalidQoS(3));
}

#[test]
fn publish_flags_qos_three_is_invalid() {
    // PUBLISH with flags nibble 0b0110: qos bits = 3
    let buf = vec![0x36, 0x00];
    assert_eq!(Packet::read_from(&buf).unwrap_err(), ReaderError::InvalidQoS(3));
}

#[test]
fn unknown_packet_type_nibbles() {
    assert_eq!(
        Packet::read_from(&vec![0x00, 0x00]).unwrap_err(),
        ReaderError::UnknownPacketType(0)
    );
    assert_eq!(
        Packet::read_from(&vec![0xF0, 0x00]).unwrap_err(),
        ReaderError::UnknownPacketType(15)
    );
}

#[test]
fn truncated_length_prefix() {
    // CONNECT whose client-id length prefix has only one byte
    let buf = vec![
        0x10, 0x0B, 0x00, 0x04, 0x4D, 0x51, 0x54, 0x54, 0x04, 0x02, 0x00, 0x3C, 0x00,
    ];
    assert_eq!(Packet::read_from(&buf).unwrap_err(), ReaderError::TruncatedLength);
}

#[test]
fn invalid_utf8_topic() {
    // PUBLISH whose topic bytes are not UTF-8
    let buf = vec![0x30, 0x03, 0x00, 0x01, 0xFF];
    assert_eq!(Packet::read_from(&buf).unwrap_err(), ReaderError::InvalidUtf8);
}

#[test]
fn invalid_connack_return_code() {
    let buf = vec![0x20, 0x02, 0x00, 0x06];
    assert_eq!(Packet::read_from(&buf).unwrap_err(), ReaderError::InvalidReturnCode(6));
}

#[test]
fn invalid_suback_return_code() {
    let buf = vec![0x90, 0x03, 0x00, 0x01, 0x05];
    assert_eq!(Packet::read_from(&buf).unwrap_err(), ReaderError::InvalidReturnCode(5));
}

#[test]
fn publish_decode_scenario_qos0() {
    // flags 0b0000, topic "ab", payload "hello", no packet id
    let mut buf = vec![0x30, 0x09, 0x00, 0x02, 0x61, 0x62];
    buf.extend_from_slice(b"hello");
    let (p, consumed) = Packet::read_from(&buf).unwrap();
    assert_eq!(consumed, buf.len());
    match p {
        Packet::PUBLISH { dup, message, packet_id } => {
            assert!(!dup);
            assert_eq!(message.topic.to_string(), "ab");
            assert_eq!(message.payload.bytes(), b"hello");
            assert!(matches!(message.qos, QoS::QoS0));
            assert!(!message.retain);
            assert!(packet_id.is_none());
        },
        other => panic!("not a PUBLISH: {:?}", other),
    }
}

#[test]
fn oversized_topic_is_field_too_large() {
    let long = "a".repeat(70000);
    let p = Packet::PUBLISH {
        dup: false,
        message: Message {
            topic: Topic::new_owned(long),
            payload: Payload::new(b""),
            qos: QoS::QoS0,
            retain: false,
        },
        packet_id: None,
    };
    assert_eq!(p.write_to().unwrap_err(), WriterError::FieldTooLarge);
}

#[test]
fn oversized_connect_fields_are_field_too_large() {
    let long = "b".repeat(65536);
    let p = Packet::CONNECT {
        client_id: long.clone(),
        username: None,
        password: None,
        will: None,
        clean_session: true,
        keep_alive: 0,
    };
    assert_eq!(p.write_to().unwrap_err(), WriterError::FieldTooLarge);
    let p2 = Packet::CONNECT {
        client_id: "ok".to_string(),
        username: Some(long),
        password: Some(vec![0u8; 65536]),
        will: None,
        clean_session: true,
        keep_alive: 0,
    };
    assert_eq!(p2.write_to().unwrap_err(), WriterError::FieldTooLarge);
}

#[test]
fn oversized_subscribe_topic_is_field_too_large() {
    let p = Packet::SUBSCRIBE {
        packet_id: PacketId(1),
        topic_filters: vec![(Topic::new_owned("c".repeat(70000)), QoS::QoS0)],
    };
    assert_eq!(p.write_to().unwrap_err(), WriterError::FieldTooLarge);
}

#[test]
fn enum_byte_mappings() {
    assert_eq!(QoS::from_u8(0), Some(QoS::QoS0));
    assert_eq!(QoS::from_u8(2), Some(QoS::QoS2));
    assert_eq!(QoS::from_u8(3), None);
    assert_eq!(QoS::QoS1.to_u8(), 1);
    assert_eq!(ConnectReturnCode::from_u8(5), Some(ConnectReturnCode::RefusedAuth));
    assert_eq!(ConnectReturnCode::from_u8(6), None);
    assert_eq!(ConnectReturnCode::RefusedProto.to_u8(), 1);
    assert_eq!(SubackReturnCode::from_u8(0x80), Some(SubackReturnCode::Failure));
    assert_eq!(SubackReturnCode::from_u8(3), None);
    assert_eq!(SubackReturnCode::Failure.to_u8(), 0x80);
}

#[test]
fn value_type_constructors() {
    let t = Topic::new("room/1");
    assert_eq!(t.to_string(), "room/1");
    let t2 = Topic::new_owned("room/2".to_string());
    assert_eq!(t2.to_string(), "room/2");
    let p = Payload::new(&[1, 2]);
    assert_eq!(p.bytes(), &vec![1, 2]);
    let p2 = Payload::new_str("hey");
    assert_eq!(p2.bytes(), b"hey");
    let p3 = Payload::new_owned(vec![9]);
    assert_eq!(p3.bytes(), &vec![9]);
    let pid = PacketId(65535);
    assert_eq!(pid.0, 65535);
    let e = MqttError("not a CONNACK".to_string());
    assert_eq!(e.0, "not a CONNACK");
}

#[test]
fn reader_helpers_on_raw_buffers() {
    let buf = vec![0x01, 0x02, 0x00, 0x03, 0x61, 0x62, 0x63];
    assert_eq!(reader::read_byte(&buf, 0), Ok(0x01));
    assert_eq!(reader::read_byte(&buf, 7), Err(ReaderError::IncompleteMessage));
    assert_eq!(reader::big_endian(&buf, 0), Some((0x0102, 2)));
    assert_eq!(reader::big_endian(&buf, 6), None);
    let (arr, next) = reader::len_arr(&buf, 2).unwrap();
    assert_eq!(arr, b"abc");
    assert_eq!(next, 7);
    let (s, next2) = reader::len_str(&buf, 2).unwrap();
    assert_eq!(s, "abc");
    assert_eq!(next2, 7);
    assert_eq!(writer::big_endian(0x0102), [0x01, 0x02]);
    assert_eq!(writer::len_arr(b"abc"), vec![0x00, 0x03, 0x61, 0x62, 0x63]);
    assert_eq!(writer::len_str("abc"), vec![0x00, 0x03, 0x61, 0x62, 0x63]);
}
