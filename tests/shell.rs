use mmm::content::Content;
use mmm::directory::{RoomDirectory, RoomHandle};
use mmm::history::{history_from_chunk, MessageEvent};
use mmm::shell::{parse_command, Command, Shell, ShellAction};

fn directory() -> RoomDirectory {
    let mut d = RoomDirectory::new();
    d.upsert("general".to_string(), RoomHandle(1));
    d.upsert("random".to_string(), RoomHandle(2));
    d
}

#[test]
fn parse_lines() {
    assert!(matches!(parse_command(&"/general".to_string()),
        Command::SelectRoom { name } if name == "general"));
    assert!(matches!(parse_command(&"/".to_string()), Command::RequestHistory));
    assert!(matches!(parse_command(&"hello /x".to_string()),
        Command::SendMessage { body } if body == "hello /x"));
    assert!(matches!(parse_command(&String::new()),
        Command::SendMessage { body } if body.is_empty()));
}

#[test]
fn select_then_send_issues_one_send() {
    let d = directory();
    let mut sh = Shell::new();
    let cursor = "s1".to_string();
    let mut sends = Vec::new();
    let mut fetches = 0;
    for line in ["/general", "hello world"] {
        match sh.handle_line(&d, &line.to_string(), &cursor) {
            ShellAction::Send { room, body } => sends.push((room, body)),
            ShellAction::FetchHistory { .. } => fetches += 1,
            ShellAction::Nothing => {}
        }
    }
    assert_eq!(sends, vec![(RoomHandle(1), "hello world".to_string())]);
    assert_eq!(fetches, 0);
}

#[test]
fn unresolved_room_is_silent() {
    let d = directory();
    let mut sh = Shell::new();
    let cursor = "s1".to_string();
    for line in ["/unknown", "hi", "/"] {
        assert!(matches!(sh.handle_line(&d, &line.to_string(), &cursor), ShellAction::Nothing));
    }
    assert_eq!(sh.selected.as_deref(), Some("unknown"));
}

#[test]
fn nothing_selected_is_silent() {
    let d = directory();
    let mut sh = Shell::new();
    let cursor = "s1".to_string();
    assert!(matches!(sh.handle_line(&d, &"hi".to_string(), &cursor), ShellAction::Nothing));
    assert!(matches!(sh.handle_line(&d, &"/".to_string(), &cursor), ShellAction::Nothing));
}

#[test]
fn prefix_alone_fetches_history_with_cursor() {
    let d = directory();
    let mut sh = Shell::new();
    let cursor = "s42".to_string();
    sh.handle_line(&d, &"/random".to_string(), &cursor);
    match sh.handle_line(&d, &"/".to_string(), &cursor) {
        ShellAction::FetchHistory { room, before } => {
            assert_eq!(room, RoomHandle(2));
            assert_eq!(before, "s42");
        }
        _ => panic!("expected a history fetch"),
    }
    assert_eq!(sh.selected.as_deref(), Some("random"));
}

#[test]
fn sent_body_comes_back_in_history() {
    let d = directory();
    let mut sh = Shell::new();
    let cursor = "s1".to_string();
    sh.handle_line(&d, &"/general".to_string(), &cursor);
    let sent = match sh.handle_line(&d, &"round trip".to_string(), &cursor) {
        ShellAction::Send { room, body } => {
            assert_eq!(room, RoomHandle(1));
            body
        }
        _ => panic!("expected a send"),
    };
    let room = match sh.handle_line(&d, &"/".to_string(), &cursor) {
        ShellAction::FetchHistory { room, .. } => room,
        _ => panic!("expected a history fetch"),
    };
    assert_eq!(room, RoomHandle(1));
    let chunk = vec![MessageEvent {
        timestamp: 5,
        sender: "@me:h".to_string(),
        content: Content::Text { body: sent },
    }];
    let h = history_from_chunk(&chunk);
    assert!(h.iter().any(|e| e.body == "round trip"));
}
