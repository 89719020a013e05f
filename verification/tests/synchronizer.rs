use p2p_chat::errors::ParseError;
use p2p_chat::ident::{NodeAddress, PeerId, TopicId};
use p2p_chat::messaging::{MessageBody, StoredMessage};
use p2p_chat::room::{
    create_room, create_room_created_message, create_room_joined_message, join_room, RoomPhase,
    RoomState,
};
use p2p_chat::save::MessageType;

fn peer(b: u8) -> PeerId {
    PeerId::from_bytes(vec![b; 32]).unwrap()
}

fn topic(b: u8) -> TopicId {
    TopicId::from_bytes(vec![b; 32]).unwrap()
}

fn now() -> String {
    "01/02/2025 10:00:00".to_string()
}

fn active_room(name: &str) -> RoomState {
    let (state, _, _) = create_room(
        topic(0x11),
        NodeAddress::from_bytes(vec![1]),
        peer(0xAA),
        name.to_string(),
        &now(),
    );
    state
}

#[test]
fn creating_a_room_yields_a_one_address_ticket_and_a_hello() {
    let (state, ticket, hello) = create_room(
        topic(0x11),
        NodeAddress::from_bytes(vec![1, 2, 3]),
        peer(0xAA),
        "alice".to_string(),
        &now(),
    );
    assert_eq!(state.phase(), RoomPhase::Active);
    assert_eq!(ticket.topic, topic(0x11));
    assert_eq!(ticket.nodes.len(), 1);
    assert_eq!(ticket.nodes[0].as_bytes(), &vec![1, 2, 3]);
    // The ticket is surfaced to the user as exactly one system log entry
    // carrying the token text.
    let log = state.log_snapshot();
    assert_eq!(log.len(), 1);
    assert!(log[0].is_system);
    assert_eq!(log[0].username, "System");
    assert_eq!(log[0].content, create_room_created_message(&ticket.encode()));
    assert_eq!(log[0].timestamp, now());
    match hello {
        MessageBody::AboutMe { from, name } => {
            assert_eq!(from, peer(0xAA));
            assert_eq!(name, "alice");
        }
        _ => panic!("expected a presence announcement"),
    }
}

#[test]
fn joining_with_a_bad_ticket_fails_before_anything_else() {
    let r = join_room("not-a-valid-ticket", peer(0xAA), "alice".to_string(), &now());
    assert_eq!(r.unwrap_err(), ParseError::BadToken);
}

#[test]
fn joining_with_a_good_ticket_enters_the_room() {
    let (_, ticket, _) = create_room(
        topic(0x22),
        NodeAddress::from_bytes(vec![5, 6]),
        peer(0xBB),
        "bob".to_string(),
        &now(),
    );
    let token = ticket.encode();
    let (state, decoded, hello) =
        join_room(&token, peer(0xCC), "carol".to_string(), &now()).unwrap();
    assert_eq!(state.phase(), RoomPhase::Active);
    assert_eq!(decoded, ticket);
    // The token the user typed is surfaced back as one system log entry.
    let log = state.log_snapshot();
    assert_eq!(log.len(), 1);
    assert!(log[0].is_system);
    assert_eq!(log[0].content, create_room_joined_message(&token));
    match hello {
        MessageBody::AboutMe { from, name } => {
            assert_eq!(from, peer(0xCC));
            assert_eq!(name, "carol");
        }
        _ => panic!("expected a presence announcement"),
    }
}

#[test]
fn first_sighting_with_history_triggers_the_full_handshake() {
    let mut x = active_room("alice");
    // X's log already holds three chat messages.
    for text in ["one", "two", "three"] {
        x.send_chat(text.to_string(), &now());
    }
    // Three chat entries atop the ticket system entry.
    assert_eq!(x.log_len(), 4);
    let outcome = x.handle_event(
        MessageBody::AboutMe { from: peer(0xBB), name: "bob".to_string() },
        &now(),
    );
    assert!(outcome.presence_changed);
    assert!(outcome.log_changed);
    assert_eq!(outcome.outbound.len(), 2);
    match &outcome.outbound[0] {
        MessageBody::AboutMe { from, name } => {
            assert_eq!(*from, peer(0xAA));
            assert_eq!(name, "alice");
        }
        _ => panic!("expected the presence reply first"),
    }
    match &outcome.outbound[1] {
        MessageBody::MessageHistory { messages } => {
            assert_eq!(messages.len(), 3);
            assert_eq!(messages[0].text, "one");
            assert_eq!(messages[1].text, "two");
            assert_eq!(messages[2].text, "three");
            assert_eq!(messages[0].sender_name, "alice");
        }
        _ => panic!("expected the history push second"),
    }
    // A second sighting of the same peer triggers nothing further.
    let again = x.handle_event(
        MessageBody::AboutMe { from: peer(0xBB), name: "bob".to_string() },
        &now(),
    );
    assert!(again.presence_changed);
    assert!(!again.log_changed);
    assert!(again.outbound.is_empty());
}

#[test]
fn first_sighting_without_history_replies_without_a_push() {
    let mut x = active_room("alice");
    let outcome = x.handle_event(
        MessageBody::AboutMe { from: peer(0xBB), name: "bob".to_string() },
        &now(),
    );
    assert_eq!(outcome.outbound.len(), 1);
    assert!(matches!(&outcome.outbound[0], MessageBody::AboutMe { .. }));
    let log = x.log_snapshot();
    assert_eq!(log.len(), 2);
    assert_eq!(log[1].username, "System");
    assert_eq!(log[1].content, "bob joined the room");
    assert!(log[1].is_system);
}

#[test]
fn sending_appends_an_own_entry_immediately() {
    let mut x = active_room("alice");
    let body = x.send_chat("hello".to_string(), &now());
    // The local log holds the entry before any broadcast happened.
    let log = x.log_snapshot();
    assert_eq!(log.len(), 2);
    assert_eq!(log[1].content, "hello");
    assert!(log[1].is_own);
    assert!(!log[1].is_system);
    assert_eq!(log[1].username, "alice");
    assert_eq!(log[1].timestamp, now());
    match body {
        MessageBody::Message { from, text } => {
            assert_eq!(from, peer(0xAA));
            assert_eq!(text, "hello");
        }
        _ => panic!("expected a chat body"),
    }
}

#[test]
fn a_departure_empties_the_entry_and_logs_it() {
    let mut x = active_room("alice");
    x.handle_event(
        MessageBody::AboutMe { from: peer(0xBB), name: "bob".to_string() },
        &now(),
    );
    let outcome = x.handle_event(
        MessageBody::Disconnect { from: peer(0xBB), name: "bob".to_string() },
        &now(),
    );
    assert!(outcome.log_changed);
    assert!(outcome.presence_changed);
    let log = x.log_snapshot();
    assert_eq!(log.last().unwrap().content, "bob disconnected");
    assert!(log.last().unwrap().is_system);
    // bob's name is gone from the presence list.
    let names = x.presence_names();
    assert_eq!(names, vec!["alice".to_string()]);
}

#[test]
fn inbound_chat_resolves_names_and_marks_ownership() {
    let mut x = active_room("alice");
    x.handle_event(
        MessageBody::AboutMe { from: peer(0xBB), name: "bob".to_string() },
        &now(),
    );
    x.handle_event(
        MessageBody::Message { from: peer(0xBB), text: "hi".to_string() },
        &now(),
    );
    // A message from a peer that never announced itself gets the fallback.
    x.handle_event(
        MessageBody::Message { from: peer(0x01), text: "??".to_string() },
        &now(),
    );
    // The room's own echoed broadcast counts as its own.
    x.handle_event(
        MessageBody::Message { from: peer(0xAA), text: "mine".to_string() },
        &now(),
    );
    let log = x.log_snapshot();
    assert_eq!(log.len(), 5);
    assert_eq!(log[2].username, "bob");
    assert!(!log[2].is_own);
    assert_eq!(log[3].username, "User-01010101");
    assert_eq!(log[4].content, "mine");
    assert!(log[4].is_own);
}

#[test]
fn history_replay_lands_in_front_with_one_summary() {
    let mut x = active_room("alice");
    x.send_chat("local".to_string(), &now());
    let stored = |who: &str, what: &str| StoredMessage {
        from: peer(0xBB),
        sender_name: who.to_string(),
        text: what.to_string(),
        timestamp: "earlier".to_string(),
    };
    let outcome = x.handle_event(
        MessageBody::MessageHistory {
            messages: vec![stored("bob", "first"), stored("bob", "second")],
        },
        &now(),
    );
    assert!(outcome.log_changed);
    assert!(outcome.outbound.is_empty());
    let log = x.log_snapshot();
    assert_eq!(log.len(), 5);
    assert_eq!(log[0].content, "first");
    assert_eq!(log[0].timestamp, "earlier");
    assert_eq!(log[1].content, "second");
    assert_eq!(log[3].content, "local");
    assert_eq!(log[4].username, "System");
    assert_eq!(log[4].content, "--- Loaded 2 messages from history ---");
}

#[test]
fn empty_history_replay_adds_no_summary() {
    let mut x = active_room("alice");
    let outcome = x.handle_event(MessageBody::MessageHistory { messages: vec![] }, &now());
    assert!(outcome.log_changed);
    assert_eq!(x.log_len(), 1);
}

#[test]
fn presence_names_are_sorted_and_deduplicated() {
    let mut x = active_room("mallory");
    x.handle_event(
        MessageBody::AboutMe { from: peer(1), name: "zoe".to_string() },
        &now(),
    );
    x.handle_event(
        MessageBody::AboutMe { from: peer(2), name: "abe".to_string() },
        &now(),
    );
    x.handle_event(
        MessageBody::AboutMe { from: peer(3), name: "zoe".to_string() },
        &now(),
    );
    let names = x.presence_names();
    assert_eq!(
        names,
        vec!["abe".to_string(), "mallory".to_string(), "zoe".to_string()]
    );
}

#[test]
fn disconnect_announces_then_clears() {
    let mut x = active_room("alice");
    x.send_chat("hello".to_string(), &now());
    let body = x.disconnect();
    match body {
        MessageBody::Disconnect { from, name } => {
            assert_eq!(from, peer(0xAA));
            assert_eq!(name, "alice");
        }
        _ => panic!("expected a departure body"),
    }
    assert_eq!(x.phase(), RoomPhase::Disconnecting);
    // The log survives until teardown finishes.
    assert_eq!(x.log_len(), 2);
    x.finish_disconnect();
    assert_eq!(x.phase(), RoomPhase::Idle);
    assert_eq!(x.log_len(), 0);
}

#[test]
fn session_record_captures_log_and_participants() {
    let mut x = active_room("alice");
    x.handle_event(
        MessageBody::AboutMe { from: peer(0xBB), name: "bob".to_string() },
        &now(),
    );
    x.send_chat("hello".to_string(), &now());
    let record = x.session_record("s1".to_string(), &"stamp".to_string());
    assert_eq!(record.session_id, "s1");
    assert_eq!(record.created_at, "stamp");
    assert_eq!(record.last_updated, "stamp");
    assert_eq!(record.participants, vec!["alice".to_string(), "bob".to_string()]);
    // One line per log entry, in order: the ticket entry, the joined entry,
    // and the chat message, with system flags carried over.
    assert_eq!(record.messages.len(), 3);
    assert_eq!(record.messages[0].sender, "System");
    assert_eq!(record.messages[0].message_type, MessageType::System);
    assert_eq!(record.messages[1].content, "bob joined the room");
    assert_eq!(record.messages[1].message_type, MessageType::System);
    assert_eq!(record.messages[2].sender, "alice");
    assert_eq!(record.messages[2].content, "hello");
    assert_eq!(record.messages[2].message_type, MessageType::Text);
}
