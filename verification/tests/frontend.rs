use p2p_chat::config::AppConfig;
use p2p_chat::gui::{App, Message as PickerMessage, Page};
use p2p_chat::room::{create_room_created_message, create_room_joined_message};
use p2p_chat::text::u64_to_string;
use p2p_chat::ui::{Message as UiMessage, GUI};

#[test]
fn picker_starts_on_the_menu() {
    let app = App::default();
    assert_eq!(app.page(), Page::Menu);
    assert!(app.topic.is_none());
    assert!(app.messages.is_empty());
}

#[test]
fn picker_navigation_moves_between_pages() {
    let mut app = App::default();
    app.update(PickerMessage::GoToJoinRoom);
    assert_eq!(app.page(), Page::JoinRoom);
    app.update(PickerMessage::GoToChatRoom);
    assert_eq!(app.page(), Page::ChatRoom);
    app.update(PickerMessage::GoToMenu);
    assert_eq!(app.page(), Page::Menu);
    assert!(app.topic.is_none());
}

#[test]
fn creating_a_room_draws_a_topic_and_enters_the_chat() {
    let mut app = App::default();
    app.update(PickerMessage::CreateRoom);
    assert_eq!(app.page(), Page::ChatRoom);
    assert!(app.topic.is_some());
    assert!(app.messages.is_empty());
}

#[test]
fn joining_accepts_only_a_full_width_hex_token() {
    let mut app = App::default();
    app.update(PickerMessage::TokenChanged("zz".to_string()));
    app.update(PickerMessage::JoinRoom);
    assert_eq!(app.page(), Page::Menu);
    assert!(app.topic.is_none());

    app.update(PickerMessage::TokenChanged("abcd".to_string()));
    app.update(PickerMessage::JoinRoom);
    assert!(app.topic.is_none());

    let token: String = "ab".repeat(32);
    app.update(PickerMessage::TokenChanged(token));
    app.update(PickerMessage::JoinRoom);
    assert_eq!(app.page(), Page::ChatRoom);
    let topic = app.topic.as_ref().unwrap();
    assert_eq!(topic.as_bytes(), &vec![0xAB; 32]);
}

#[test]
fn picker_send_trims_and_keeps_only_non_blank_input() {
    let mut app = App::default();
    app.update(PickerMessage::ChatInputChanged("   ".to_string()));
    app.update(PickerMessage::SendMessage);
    assert!(app.messages.is_empty());
    app.update(PickerMessage::ChatInputChanged("  hi there \n".to_string()));
    app.update(PickerMessage::SendMessage);
    assert_eq!(app.messages, vec!["hi there".to_string()]);
    assert_eq!(app.chat_input, "");
}

#[test]
fn messaging_window_prefixes_sent_messages() {
    let mut gui = GUI::default();
    gui.update(UiMessage::InputChanged("hello".to_string()));
    gui.update(UiMessage::SendMessage);
    assert_eq!(gui.messages, vec!["You: hello".to_string()]);
    assert_eq!(gui.display_message, "Sent: hello");
    // The input is left for the caller to clear.
    assert_eq!(gui.input_value, "hello");
    gui.clear_input();
    assert_eq!(gui.input_value, "");
}

#[test]
fn messaging_window_ignores_blank_sends() {
    let mut gui = GUI::default();
    gui.update(UiMessage::InputChanged(" \t ".to_string()));
    gui.update(UiMessage::SendMessage);
    assert!(gui.messages.is_empty());
    assert_eq!(gui.display_message, "");
}

#[test]
fn messaging_window_appends_received_and_clears() {
    let mut gui = GUI::default();
    gui.add_received_message("bob: hey".to_string());
    gui.add_received_message("bob: you there?".to_string());
    assert_eq!(gui.messages.len(), 2);
    gui.update(UiMessage::ClearMessage);
    assert!(gui.messages.is_empty());
    assert_eq!(gui.input_value, "");
    assert_eq!(gui.display_message, "");
}

#[test]
fn stock_overlay_config_lists_the_documented_values() {
    let c = AppConfig::default();
    assert_eq!(c.topic_name, "p2p-chat");
    assert_eq!(
        c.listen_addresses,
        vec!["/ip4/0.0.0.0/tcp/0".to_string(), "/ip4/0.0.0.0/udp/0/quic-v1".to_string()]
    );
    assert!(c.remote_peer_address.is_none());
    assert_eq!(c.bootstrap_nodes.len(), 1);
    assert!(c.enable_relay);
    assert!(c.enable_hole_punching);
}

#[test]
fn decimal_rendering_matches_std() {
    for n in [0u64, 1, 9, 10, 99, 100, 12345, u64::MAX] {
        assert_eq!(u64_to_string(n), n.to_string());
    }
}

#[test]
fn room_token_messages_carry_the_token() {
    let joined = create_room_joined_message("deadbeef");
    assert!(joined.ends_with("deadbeef"));
    assert!(joined.starts_with("Successfully joined room!"));
    let created = create_room_created_message("deadbeef");
    assert!(created.ends_with("deadbeef"));
    assert!(created.starts_with("Room created successfully!"));
}
