use mmm::content::Content;
use mmm::directory::{RoomDirectory, RoomHandle};
use mmm::history::{ClientError, MessageEvent};
use mmm::sync::{
    emit_events, Membership, RoomUpdate, SyncBatch, SyncEngine, SyncEvent, SyncRequest, SyncState,
};

fn room(h: u64, m: Membership, name: Option<&str>) -> RoomUpdate {
    RoomUpdate { handle: RoomHandle(h), membership: m, display_name: name.map(|n| n.to_string()) }
}

fn sync_event(m: Membership, room: &str, body: Content) -> SyncEvent {
    SyncEvent {
        membership: m,
        room_name: room.to_string(),
        event: MessageEvent { timestamp: 9, sender: "@al:h".to_string(), content: body },
    }
}

fn initial_rooms() -> Vec<RoomUpdate> {
    vec![
        room(1, Membership::Joined, Some("general")),
        room(2, Membership::Invited, Some("invite")),
        room(3, Membership::Joined, None),
        room(4, Membership::Joined, Some("random")),
    ]
}

fn position(e: &SyncEngine) -> u64 {
    match &e.state {
        SyncState::Streaming { cursor } => cursor.position,
        SyncState::Bootstrapping => panic!("not streaming"),
    }
}

#[test]
fn bootstrap_fills_directory_with_joined_named_rooms() {
    let mut e = SyncEngine::new();
    assert!(matches!(e.request(), SyncRequest::Initial));
    let mut d = RoomDirectory::new();
    assert!(e.bootstrap(&mut d, Ok((initial_rooms(), "t0".to_string()))).is_ok());
    assert_eq!(d.resolve(&"general".to_string()), Some(RoomHandle(1)));
    assert_eq!(d.resolve(&"random".to_string()), Some(RoomHandle(4)));
    assert_eq!(d.resolve(&"invite".to_string()), None);
    assert_eq!(d.snapshot().len(), 2);
    assert_eq!(e.token(), Some("t0".to_string()));
    assert!(matches!(e.request(), SyncRequest::Next { token } if token == "t0"));
    assert_eq!(position(&e), 0);
}

#[test]
fn failed_bootstrap_is_reported() {
    let mut e = SyncEngine::new();
    let mut d = RoomDirectory::new();
    assert_eq!(e.bootstrap(&mut d, Err(ClientError::Auth)), Err(ClientError::Auth));
    assert!(matches!(e.state, SyncState::Bootstrapping));
    assert_eq!(e.token(), None);
    assert!(d.snapshot().is_empty());
}

#[test]
fn bootstrap_twice_gives_same_directory() {
    let mut d1 = RoomDirectory::new();
    SyncEngine::new().bootstrap(&mut d1, Ok((initial_rooms(), "t0".to_string()))).unwrap();
    let mut first = d1.snapshot();
    let mut d2 = RoomDirectory::new();
    SyncEngine::new().bootstrap(&mut d2, Ok((initial_rooms(), "t0".to_string()))).unwrap();
    SyncEngine::new().bootstrap(&mut d2, Ok((initial_rooms(), "t0".to_string()))).unwrap();
    let mut second = d2.snapshot();
    first.sort();
    second.sort();
    assert_eq!(first, second);
}

#[test]
fn cursor_advances_on_success_only() {
    let mut e = SyncEngine::new();
    let mut d = RoomDirectory::new();
    e.bootstrap(&mut d, Ok((initial_rooms(), "t0".to_string()))).unwrap();
    let empty = || SyncBatch { rooms: Vec::new(), events: Vec::new() };
    e.next_batch(&mut d, Ok((empty(), "t1".to_string()))).unwrap();
    assert_eq!(position(&e), 1);
    assert_eq!(e.next_batch(&mut d, Err(ClientError::Network)).err(), Some(ClientError::Network));
    assert_eq!(position(&e), 1);
    assert_eq!(e.token(), Some("t1".to_string()));
    e.next_batch(&mut d, Ok((empty(), "t2".to_string()))).unwrap();
    assert_eq!(position(&e), 2);
    assert_eq!(e.token(), Some("t2".to_string()));
}

#[test]
fn batch_updates_directory_and_emits_joined_events() {
    let mut e = SyncEngine::new();
    let mut d = RoomDirectory::new();
    e.bootstrap(&mut d, Ok((initial_rooms(), "t0".to_string()))).unwrap();
    let batch = SyncBatch {
        rooms: vec![room(1, Membership::Joined, Some("renamed")), room(5, Membership::Left, Some("gone"))],
        events: vec![
            sync_event(Membership::Joined, "renamed", Content::Text { body: "hey".to_string() }),
            sync_event(Membership::Invited, "invite", Content::Text { body: "no".to_string() }),
            sync_event(Membership::Joined, "renamed", Content::Other),
            sync_event(Membership::Joined, "random", Content::Image { body: "i".to_string(), url: None }),
        ],
    };
    let out = e.next_batch(&mut d, Ok((batch, "t1".to_string()))).unwrap();
    assert_eq!(out.len(), 2);
    assert_eq!(out[0].room_name, "renamed");
    assert_eq!(out[0].sender, "@al:h");
    assert_eq!(out[0].body, "hey");
    assert_eq!(out[0].timestamp, 9);
    assert_eq!(out[1].room_name, "random");
    assert_eq!(out[1].body, "");
    assert_eq!(d.resolve(&"renamed".to_string()), Some(RoomHandle(1)));
    assert_eq!(d.resolve(&"general".to_string()), Some(RoomHandle(1)));
    assert_eq!(d.resolve(&"gone".to_string()), None);
}

#[test]
fn emit_filters_unrepresented_and_foreign_rooms() {
    let events = vec![
        sync_event(Membership::Left, "old", Content::Text { body: "x".to_string() }),
        sync_event(Membership::Joined, "r", Content::Other),
    ];
    assert!(emit_events(&events).is_empty());
}
