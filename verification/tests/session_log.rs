use p2p_chat::log::{ChatMessage, SessionLog};

fn entry(content: &str) -> ChatMessage {
    ChatMessage {
        username: "alice".to_string(),
        content: content.to_string(),
        timestamp: "10:00".to_string(),
        is_own: false,
        is_system: false,
    }
}

#[test]
fn append_keeps_order() {
    let mut log = SessionLog::new();
    log.append(entry("a"));
    log.append(entry("b"));
    let snap = log.snapshot();
    assert_eq!(snap.len(), 2);
    assert_eq!(snap[0].content, "a");
    assert_eq!(snap[1].content, "b");
}

#[test]
fn snapshot_is_a_copy() {
    let mut log = SessionLog::new();
    log.append(entry("a"));
    let mut snap = log.snapshot();
    snap.push(entry("b"));
    assert_eq!(log.len(), 1);
}

#[test]
fn bulk_insert_splices_at_the_front() {
    let mut log = SessionLog::new();
    log.append(entry("local"));
    log.bulk_insert_history(vec![entry("h1"), entry("h2")], true);
    let snap = log.snapshot();
    assert_eq!(snap.len(), 3);
    assert_eq!(snap[0].content, "h1");
    assert_eq!(snap[1].content, "h2");
    assert_eq!(snap[2].content, "local");
}

#[test]
fn bulk_insert_can_append_instead() {
    let mut log = SessionLog::new();
    log.append(entry("local"));
    log.bulk_insert_history(vec![entry("h1"), entry("h2")], false);
    let snap = log.snapshot();
    assert_eq!(snap[0].content, "local");
    assert_eq!(snap[1].content, "h1");
    assert_eq!(snap[2].content, "h2");
}

#[test]
fn clear_empties_the_log() {
    let mut log = SessionLog::new();
    log.append(entry("a"));
    log.clear();
    assert_eq!(log.len(), 0);
    assert!(log.snapshot().is_empty());
}
