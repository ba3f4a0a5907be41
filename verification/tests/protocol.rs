use shatters_relay::protocol::message::MIN_HEADER;
use shatters_relay::protocol::{Channel, Message, MessageType, ProtocolError, CHANNEL_SIZE};

fn make_channel(fill: u8) -> Channel {
    [fill; CHANNEL_SIZE]
}

#[test]
fn round_trip_publish() {
    let msg = Message {
        msg_type: MessageType::Publish,
        id: 42,
        channel: make_channel(0xAA),
        payload: vec![0xCA, 0xFE],
    };
    let wire = msg.serialize();
    let decoded = Message::deserialize(&wire).unwrap();
    assert_eq!(decoded.msg_type, MessageType::Publish);
    assert_eq!(decoded.id, 42);
    assert_eq!(decoded.channel, make_channel(0xAA));
    assert_eq!(decoded.payload, vec![0xCA, 0xFE]);
}

#[test]
fn round_trip_ack() {
    let msg = Message::ack(99);
    let wire = msg.serialize();
    let decoded = Message::deserialize(&wire).unwrap();
    assert_eq!(decoded.msg_type, MessageType::Ack);
    assert_eq!(decoded.id, 99);
}

#[test]
fn round_trip_data() {
    let ch = make_channel(0xBB);
    let msg = Message::data(7, ch, vec![1, 2, 3]);
    let wire = msg.serialize();
    let decoded = Message::deserialize(&wire).unwrap();
    assert_eq!(decoded.msg_type, MessageType::Data);
    assert_eq!(decoded.channel, ch);
    assert_eq!(decoded.payload, vec![1, 2, 3]);
}

#[test]
fn too_short_returns_error() {
    assert!(Message::deserialize(&[0x01, 0x00]).is_err());
}

#[test]
fn bad_type_returns_error() {
    let mut bad = vec![0xFF];
    bad.extend_from_slice(&[0u8; 36]); // id(4) + channel(32)
    assert!(Message::deserialize(&bad).is_err());
}

#[test]
fn exact_min_header() {
    // 37 bytes: type(1) + id(4) + channel(32), no payload
    let mut data = vec![0x01]; // Publish
    data.extend_from_slice(&[0u8; 4]); // id = 0
    data.extend_from_slice(&[0x42u8; 32]); // channel
    let msg = Message::deserialize(&data).unwrap();
    assert_eq!(msg.msg_type, MessageType::Publish);
    assert_eq!(msg.channel, [0x42u8; 32]);
    assert!(msg.payload.is_empty());
}

#[test]
fn fixed_header_size() {
    let msg = Message {
        msg_type: MessageType::Publish,
        id: 1,
        channel: make_channel(0x01),
        payload: vec![],
    };
    let wire = msg.serialize();
    assert_eq!(wire.len(), 37); // 1 + 4 + 32
}

#[test]
fn frames_are_laid_out_big_endian() {
    let msg = Message::data(0x0102_0304, make_channel(0x55), vec![0xEE, 0xFF]);
    let wire = msg.serialize();
    assert_eq!(&wire[..5], &[0x20, 0x01, 0x02, 0x03, 0x04]);
    assert_eq!(&wire[5..37], &[0x55u8; 32]);
    assert_eq!(&wire[37..], &[0xEE, 0xFF]);
}

#[test]
fn every_code_names_its_type() {
    let types = [
        (0x01, MessageType::Publish, 3),
        (0x02, MessageType::Subscribe, 2),
        (0x03, MessageType::Unsubscribe, 1),
        (0x04, MessageType::Retrieve, 2),
        (0x05, MessageType::UploadBundle, 3),
        (0x06, MessageType::FetchBundle, 2),
        (0x10, MessageType::Ack, 1),
        (0x11, MessageType::Nack, 1),
        (0x20, MessageType::Data, 1),
        (0x21, MessageType::BundleData, 1),
    ];
    for (code, t, cost) in types {
        assert_eq!(MessageType::from_byte(code), Ok(t));
        assert_eq!(t.to_byte(), code);
        assert_eq!(t.token_cost(), cost);
    }
    for code in 0..=255u8 {
        let known = types.iter().any(|(c, _, _)| *c == code);
        if !known {
            assert_eq!(
                MessageType::from_byte(code),
                Err(ProtocolError::InvalidMessageType(code))
            );
        }
    }
}

#[test]
fn short_frames_say_what_is_missing() {
    let err = Message::deserialize(&[0x01, 0x00]).unwrap_err();
    assert_eq!(err, ProtocolError::TooShort { need: MIN_HEADER, got: 2 });
    let err = Message::deserialize(&[0x01; 36]).unwrap_err();
    assert_eq!(err, ProtocolError::TooShort { need: 37, got: 36 });
}

#[test]
fn nacks_carry_their_reason() {
    let msg = Message::nack(5, "rate limited");
    assert_eq!(msg.msg_type, MessageType::Nack);
    assert_eq!(msg.id, 5);
    assert_eq!(msg.channel, [0u8; 32]);
    assert_eq!(msg.payload, b"rate limited".to_vec());
    let msg = Message::nack(6, "über");
    assert_eq!(msg.payload, "über".as_bytes().to_vec());
}

#[test]
fn long_payloads_are_refused() {
    let wire = Message::data(1, make_channel(1), vec![0; 10]).serialize();
    assert!(Message::deserialize_bounded(&wire, None).is_ok());
    assert!(Message::deserialize_bounded(&wire, Some(10)).is_ok());
    assert_eq!(
        Message::deserialize_bounded(&wire, Some(9)).unwrap_err(),
        ProtocolError::PayloadTooLarge { size: 10, max: 9 }
    );
    assert_eq!(
        Message::deserialize_bounded(&[0xFF; 50], Some(9)).unwrap_err(),
        ProtocolError::InvalidMessageType(0xFF)
    );
}

#[test]
fn decoded_frames_encode_back() {
    let mut frame = vec![0x21, 0xDE, 0xAD, 0xBE, 0xEF];
    frame.extend_from_slice(&[9u8; 32]);
    frame.extend_from_slice(b"payload");
    assert_eq!(Message::deserialize(&frame).unwrap().serialize(), frame);
}
