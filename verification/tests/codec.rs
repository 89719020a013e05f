use p2p_chat::errors::{DecodeError, ParseError};
use p2p_chat::ident::{NodeAddress, PeerId, TopicId};
use p2p_chat::messaging::{Message, MessageBody, StoredMessage};
use p2p_chat::ticket::Ticket;

fn peer(b: u8) -> PeerId {
    PeerId::from_bytes(vec![b; 32]).unwrap()
}

fn topic(b: u8) -> TopicId {
    TopicId::from_bytes(vec![b; 32]).unwrap()
}

#[test]
fn envelope_round_trip_about_me() {
    let msg = Message::new(MessageBody::AboutMe {
        from: peer(7),
        name: "alice".to_string(),
    });
    let bytes = msg.to_vec();
    let back = Message::from_bytes(&bytes).unwrap();
    assert_eq!(back.nonce(), msg.nonce());
    match back.body() {
        MessageBody::AboutMe { from, name } => {
            assert_eq!(*from, peer(7));
            assert_eq!(name, "alice");
        }
        _ => panic!("wrong variant"),
    }
}

#[test]
fn envelope_round_trip_chat_text() {
    let msg = Message::new(MessageBody::Message {
        from: peer(9),
        text: "hello there \u{1F600} caf\u{e9}".to_string(),
    });
    let bytes = msg.to_vec();
    let back = Message::from_bytes(&bytes).unwrap();
    match back.body() {
        MessageBody::Message { from, text } => {
            assert_eq!(*from, peer(9));
            assert_eq!(text, "hello there \u{1F600} caf\u{e9}");
        }
        _ => panic!("wrong variant"),
    }
}

#[test]
fn envelope_round_trip_disconnect() {
    let msg = Message::new(MessageBody::Disconnect {
        from: peer(3),
        name: "bob".to_string(),
    });
    let bytes = msg.to_vec();
    let back = Message::from_bytes(&bytes).unwrap();
    match back.body() {
        MessageBody::Disconnect { from, name } => {
            assert_eq!(*from, peer(3));
            assert_eq!(name, "bob");
        }
        _ => panic!("wrong variant"),
    }
}

#[test]
fn envelope_round_trip_history() {
    let stored = |b: u8, who: &str, what: &str| StoredMessage {
        from: peer(b),
        sender_name: who.to_string(),
        text: what.to_string(),
        timestamp: "01/02/2025 10:00:00".to_string(),
    };
    let msg = Message::new(MessageBody::MessageHistory {
        messages: vec![stored(1, "alice", "hi"), stored(2, "bob", ""), stored(1, "alice", "bye")],
    });
    let bytes = msg.to_vec();
    let back = Message::from_bytes(&bytes).unwrap();
    match back.body() {
        MessageBody::MessageHistory { messages } => {
            assert_eq!(messages.len(), 3);
            assert_eq!(messages[0], stored(1, "alice", "hi"));
            assert_eq!(messages[1], stored(2, "bob", ""));
            assert_eq!(messages[2], stored(1, "alice", "bye"));
        }
        _ => panic!("wrong variant"),
    }
}

#[test]
fn envelope_nonce_is_sixteen_bytes() {
    let msg = Message::new(MessageBody::AboutMe {
        from: peer(0),
        name: String::new(),
    });
    assert_eq!(msg.nonce().len(), 16);
}

#[test]
fn envelope_rejects_truncated_input() {
    let msg = Message::new(MessageBody::AboutMe {
        from: peer(7),
        name: "alice".to_string(),
    });
    let bytes = msg.to_vec();
    for cut in [0, 1, 15, 16, 17, bytes.len() - 1] {
        let short: Vec<u8> = bytes[..cut].to_vec();
        assert_eq!(Message::from_bytes(&short).unwrap_err(), DecodeError::Malformed);
    }
}

#[test]
fn envelope_rejects_unknown_discriminant() {
    let mut bytes = vec![0u8; 16];
    bytes.push(99);
    assert_eq!(Message::from_bytes(&bytes).unwrap_err(), DecodeError::Malformed);
}

#[test]
fn envelope_rejects_trailing_bytes() {
    let msg = Message::new(MessageBody::Disconnect {
        from: peer(3),
        name: "bob".to_string(),
    });
    let mut bytes = msg.to_vec();
    bytes.push(0);
    assert_eq!(Message::from_bytes(&bytes).unwrap_err(), DecodeError::Malformed);
}

#[test]
fn envelope_rejects_invalid_text_bytes() {
    // AboutMe with a one-byte name block that is not valid UTF-8.
    let mut bytes = vec![0u8; 16];
    bytes.push(1); // presence discriminant
    bytes.extend_from_slice(&[5u8; 32]); // identity
    bytes.extend_from_slice(&1u64.to_le_bytes());
    bytes.push(0xFF);
    assert_eq!(Message::from_bytes(&bytes).unwrap_err(), DecodeError::Malformed);
}

#[test]
fn ticket_round_trip_single_node() {
    let t = Ticket::new(topic(0xAB), NodeAddress::from_bytes(vec![1, 2, 3, 4]));
    let token = t.encode();
    let back = Ticket::decode(&token).unwrap();
    assert_eq!(back, t);
    assert_eq!(back.nodes.len(), 1);
    assert_eq!(back.nodes[0].as_bytes(), &vec![1, 2, 3, 4]);
}

#[test]
fn ticket_round_trip_many_nodes() {
    let t = Ticket {
        topic: topic(0x01),
        nodes: vec![
            NodeAddress::from_bytes(vec![]),
            NodeAddress::from_bytes(vec![9; 40]),
            NodeAddress::from_bytes(vec![0, 255]),
        ],
    };
    let token = t.encode();
    let back = Ticket::decode(&token).unwrap();
    assert_eq!(back, t);
}

#[test]
fn ticket_round_trip_zero_nodes() {
    let t = Ticket { topic: topic(0x42), nodes: vec![] };
    let back = Ticket::decode(&t.encode()).unwrap();
    assert_eq!(back, t);
}

#[test]
fn ticket_token_is_exact_hex() {
    // The token must be the lowercase hex spelling of the byte encoding:
    // 32 topic bytes, an eight-byte count, then each address as an
    // eight-byte length plus its bytes.
    let t = Ticket::new(topic(0x00), NodeAddress::from_bytes(vec![0xAB]));
    let token = t.encode();
    let mut expected_bytes = vec![0u8; 32];
    expected_bytes.extend_from_slice(&1u64.to_le_bytes());
    expected_bytes.extend_from_slice(&1u64.to_le_bytes());
    expected_bytes.push(0xAB);
    let expected: String = expected_bytes.iter().map(|b| format!("{:02x}", b)).collect();
    assert_eq!(token, expected);
}

#[test]
fn ticket_decode_accepts_uppercase_hex() {
    let t = Ticket::new(topic(0xCD), NodeAddress::from_bytes(vec![7, 8]));
    let token = t.encode().to_uppercase();
    let back = Ticket::decode(&token).unwrap();
    assert_eq!(back, t);
}

#[test]
fn ticket_rejects_non_hex_text() {
    assert_eq!(Ticket::decode("not-a-valid-ticket").unwrap_err(), ParseError::BadToken);
    assert_eq!(Ticket::decode("abc").unwrap_err(), ParseError::BadToken);
}

#[test]
fn ticket_rejects_hex_with_bad_payload() {
    assert_eq!(Ticket::decode("00").unwrap_err(), ParseError::BadPayload);
    assert_eq!(Ticket::decode("").unwrap_err(), ParseError::BadPayload);
    // A full topic but a count promising more addresses than are present.
    let mut bytes = vec![0u8; 32];
    bytes.extend_from_slice(&5u64.to_le_bytes());
    let token: String = bytes.iter().map(|b| format!("{:02x}", b)).collect();
    assert_eq!(Ticket::decode(&token).unwrap_err(), ParseError::BadPayload);
}

#[test]
fn error_messages_name_the_failure() {
    assert_eq!(ParseError::BadToken.message(), "ticket token is not valid hex");
    assert_eq!(ParseError::BadPayload.message(), "ticket payload is malformed");
    assert_eq!(DecodeError::Malformed.message(), "envelope bytes are malformed");
}

#[test]
fn identities_compare_by_bytes() {
    assert_eq!(peer(1), peer(1));
    assert_ne!(peer(1), peer(2));
    assert!(PeerId::from_bytes(vec![0; 31]).is_none());
    assert!(TopicId::from_bytes(vec![0; 33]).is_none());
    let a = NodeAddress::from_bytes(vec![1, 2]);
    assert_eq!(a.duplicate(), a);
}
