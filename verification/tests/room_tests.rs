use ma_world::room::{default_room_title, parse_room_inbox_symbol, Room, RoomState, DEFAULT_AVATAR_STATE_TTL_SECS};

#[test]
fn parses_room_inbox_symbol() {
    assert_eq!(parse_room_inbox_symbol("room.lobby.inbox"), Some("lobby"));
    assert_eq!(parse_room_inbox_symbol("room.abc-123.inbox"), Some("abc-123"));
}

#[test]
fn rejects_invalid_inbox_symbols() {
    assert_eq!(parse_room_inbox_symbol("room..inbox"), None);
    assert_eq!(parse_room_inbox_symbol("notaroom.lobby.inbox"), None);
    assert_eq!(parse_room_inbox_symbol("room.lobby"), None);
}

#[test]
fn default_title_capitalizes_words() {
    assert_eq!(default_room_title("lobby"), "Lobby");
    assert_eq!(default_room_title("great-hall_east"), "Great Hall East");
}

#[test]
fn new_room_is_open_and_empty() {
    let room = Room::new("lobby".to_string(), "did:ma:k51#lobby".to_string());
    assert!(room.acl.can_enter("did:ma:anyone#x"));
    assert_eq!(room.avatars.entries.len(), 0);
    assert_eq!(room.state.avatar_ttl_secs, DEFAULT_AVATAR_STATE_TTL_SECS);
    assert_eq!(room.description_or_default(), "(no description)");
    assert_eq!(room.title_or_default(), "Lobby");
}

#[test]
fn room_title_and_description_are_set() {
    let mut room = Room::new("hall".to_string(), "did:ma:k51#hall".to_string());
    room.set_title("The Hall".to_string());
    room.set_description("A big hall".to_string());
    assert_eq!(room.title_or_default(), "The Hall");
    assert_eq!(room.description_or_default(), "A big hall");
}

#[test]
fn room_state_event_log_is_bounded() {
    let mut state = RoomState::new(10);
    for i in 0..5u64 {
        state.push_event(3, ma_world::room::RoomEvent {
            sequence: i,
            room: "r".to_string(),
            kind: "k".to_string(),
            sender: None,
            sender_did: None,
            sender_endpoint: None,
            message: String::new(),
            message_cbor_b64: None,
            occurred_at: String::new(),
        });
    }
    assert_eq!(state.events.len(), 3);
    assert_eq!(state.events[0].sequence, 2);
    assert_eq!(state.events[2].sequence, 4);
}
