use nomadterm::protocol::{approval_session_id, handle_client_message, ClientAction, ClientMessage};
use nomadterm::session::{approval_response, inject_address, SessionEntry, SessionStatus, SessionTable};

fn entry(id: &str, status: SessionStatus, port: u16) -> SessionEntry<u32> {
    SessionEntry { id: id.to_string(), cli: "shell".to_string(), status, inject_port: port, handle: port as u32 }
}

#[test]
fn status_names() {
    assert_eq!(SessionStatus::Starting.as_str(), "starting");
    assert_eq!(SessionStatus::Running.as_str(), "running");
    assert_eq!(SessionStatus::Exited.as_str(), "exited");
}

#[test]
fn table_insert_get_remove() {
    let mut t: SessionTable<u32> = SessionTable::new();
    assert!(!t.contains("a"));
    t.insert(entry("a", SessionStatus::Running, 9001));
    t.insert(entry("b", SessionStatus::Starting, 9002));
    assert!(t.contains("a") && t.contains("b"));
    assert_eq!(t.get("a").map(|e| e.inject_port), Some(9001));
    assert_eq!(t.inject_port("b"), Ok(9002));
    assert_eq!(t.inject_port("zz"), Err("Session not found: zz".to_string()));
    // Replacing keeps one entry per id.
    t.insert(entry("a", SessionStatus::Running, 9100));
    assert_eq!(t.get("a").map(|e| e.handle), Some(9100));
    assert_eq!(t.list().len(), 2);
    // Kill removes and hands the session back.
    let removed = t.remove("a");
    assert_eq!(removed.map(|e| e.inject_port), Some(9100));
    assert!(!t.contains("a"));
    assert!(t.remove("a").is_none());
}

#[test]
fn list_skips_exited_sessions() {
    let mut t: SessionTable<u32> = SessionTable::new();
    t.insert(entry("a", SessionStatus::Running, 1));
    t.insert(entry("b", SessionStatus::Exited, 2));
    t.insert(entry("c", SessionStatus::Starting, 3));
    let mut ids: Vec<(String, String, u16)> =
        t.list().into_iter().map(|i| (i.id, i.status, i.inject_port)).collect();
    ids.sort();
    assert_eq!(
        ids,
        vec![("a".to_string(), "running".to_string(), 1), ("c".to_string(), "starting".to_string(), 3)]
    );
    let info = t.get("c").unwrap().info();
    assert_eq!((info.cli.as_str(), info.status.as_str()), ("shell", "starting"));
}

#[test]
fn approval_and_inject_texts() {
    assert_eq!(approval_response(true), "y\n");
    assert_eq!(approval_response(false), "n\n");
    assert_eq!(inject_address(40123), "127.0.0.1:40123");
    assert_eq!(approval_session_id("sess-1:nonce"), "sess-1");
    assert_eq!(approval_session_id("a:b:c"), "a");
    assert_eq!(approval_session_id("plain"), "plain");
    assert_eq!(approval_session_id(":x"), "");
}

#[test]
fn client_message_dispatch() {
    match handle_client_message(ClientMessage::Spawn { cli: "shell".into() }) {
        ClientAction::Spawn { cli } => assert_eq!(cli, "shell"),
        _ => panic!("expected spawn"),
    }
    match handle_client_message(ClientMessage::Input { session_id: "s".into(), data: "ls\n".into() }) {
        ClientAction::Inject { session_id, data } => assert_eq!((session_id.as_str(), data.as_str()), ("s", "ls\n")),
        _ => panic!("expected inject"),
    }
    match handle_client_message(ClientMessage::Approve { id: "s1:n0nce".into(), decision: true }) {
        ClientAction::Approve { session_id, approved } => assert_eq!((session_id.as_str(), approved), ("s1", true)),
        _ => panic!("expected approve"),
    }
    match handle_client_message(ClientMessage::Kill { session_id: "s".into() }) {
        ClientAction::Kill { session_id } => assert_eq!(session_id, "s"),
        _ => panic!("expected kill"),
    }
    assert!(matches!(handle_client_message(ClientMessage::ListSessions), ClientAction::SendSessionList));
    match handle_client_message(ClientMessage::Resize { session_id: "s".into(), cols: 80, rows: 24 }) {
        ClientAction::Resize { session_id, cols, rows } => assert_eq!((session_id.as_str(), cols, rows), ("s", 80, 24)),
        _ => panic!("expected resize"),
    }
}
