use p2p_chat::save::{
    archive_name, extract_display_name, format_file_size, ChatMessage, ChatSaveManager,
    ChatSession, Config, MessageType,
};

fn session(id: &str) -> ChatSession {
    ChatSession {
        session_id: id.to_string(),
        participants: vec!["alice".to_string(), "bob".to_string()],
        messages: vec![ChatMessage {
            sender: "alice".to_string(),
            content: "hi".to_string(),
            timestamp: "10:00".to_string(),
            message_type: MessageType::Text,
        }],
        created_at: "20250201_100000".to_string(),
        last_updated: "20250201_100000".to_string(),
    }
}

fn config(enabled: bool, max: usize) -> Config {
    Config {
        auto_save_enabled: enabled,
        save_directory: "saved_chats".to_string(),
        max_saved_chats: max,
    }
}

#[test]
fn retention_keeps_the_cap_and_evicts_the_oldest() {
    let mut mgr = ChatSaveManager::new(config(true, 3));
    for id in ["s1", "s2", "s3", "s4"] {
        assert!(mgr.auto_save_chat(&session(id)));
    }
    assert_eq!(mgr.saved_count(), 3);
    let files = mgr.get_saved_chats();
    assert_eq!(files.len(), 3);
    // Newest first, and the first-saved record is the one that left.
    assert_eq!(files[0].filename, "chat_s4_20250201_100000.json");
    assert_eq!(files[1].filename, "chat_s3_20250201_100000.json");
    assert_eq!(files[2].filename, "chat_s2_20250201_100000.json");
    assert!(files.iter().all(|f| f.filename != "chat_s1_20250201_100000.json"));
    assert!(files[0].last_modified > files[1].last_modified);
    assert!(files[1].last_modified > files[2].last_modified);
}

#[test]
fn disabled_auto_save_writes_nothing() {
    let mut mgr = ChatSaveManager::new(config(false, 50));
    for _ in 0..100 {
        assert!(!mgr.auto_save_chat(&session("s")));
    }
    assert_eq!(mgr.saved_count(), 0);
    assert!(mgr.get_saved_chats().is_empty());
}

#[test]
fn saved_records_load_back_by_name() {
    let mut mgr = ChatSaveManager::new(config(true, 10));
    mgr.auto_save_chat(&session("alpha"));
    mgr.auto_save_chat(&session("beta"));
    let name = archive_name(&"alpha".to_string(), &"20250201_100000".to_string());
    let loaded = mgr.load_chat_from_file(&name).unwrap();
    assert_eq!(loaded.session_id, "alpha");
    assert_eq!(loaded.participants, vec!["alice".to_string(), "bob".to_string()]);
    assert_eq!(loaded.messages.len(), 1);
    assert_eq!(loaded.messages[0].content, "hi");
    assert!(mgr.load_chat_from_file(&"chat_nope.json".to_string()).is_none());
}

#[test]
fn archive_names_embed_id_and_timestamp() {
    let name = archive_name(&"s7".to_string(), &"20250131_235959".to_string());
    assert_eq!(name, "chat_s7_20250131_235959.json");
}

#[test]
fn default_config_matches_the_documented_values() {
    let c = Config::default();
    assert!(c.auto_save_enabled);
    assert_eq!(c.save_directory, "saved_chats");
    assert_eq!(c.max_saved_chats, 50);
}

#[test]
fn file_sizes_render_with_one_decimal() {
    assert_eq!(format_file_size(0), "0 B");
    assert_eq!(format_file_size(1023), "1023 B");
    assert_eq!(format_file_size(1024), "1.0 KB");
    assert_eq!(format_file_size(1536), "1.5 KB");
    assert_eq!(format_file_size(10240), "10.0 KB");
    assert_eq!(format_file_size(1048575), "1024.0 KB");
    assert_eq!(format_file_size(1048576), "1.0 MB");
    assert_eq!(format_file_size(1572864), "1.5 MB");
    // The rendering matches the float formatting it stands in for.
    for size in [0u64, 1, 512, 1023, 1024, 1025, 1075, 151142, 1048575, 1048576, 987654321] {
        let expected = if size < 1024 {
            format!("{} B", size)
        } else if size < 1024 * 1024 {
            format!("{:.1} KB", size as f64 / 1024.0)
        } else {
            format!("{:.1} MB", size as f64 / (1024.0 * 1024.0))
        };
        assert_eq!(format_file_size(size), expected);
    }
}

#[test]
fn display_names_spell_out_well_formed_archive_names() {
    assert_eq!(
        extract_display_name("chat_s7_20250131_235959.json"),
        "Session s7 - 2025/01/31 23:59:59"
    );
    assert_eq!(
        extract_display_name("chat_session9_20240101_000000.json"),
        "Session session9 - 2024/01/01 00:00:00"
    );
}

#[test]
fn display_names_fall_back_to_the_raw_name() {
    assert_eq!(extract_display_name("notes.txt"), "notes.txt");
    assert_eq!(extract_display_name("chat_only.json"), "chat_only.json");
    assert_eq!(extract_display_name("chat_s_short_12.json"), "chat_s_short_12.json");
    assert_eq!(extract_display_name(""), "");
}
