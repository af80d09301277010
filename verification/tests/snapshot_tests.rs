use ma_world::acl::EntryAcl;
use ma_world::world::World;

fn world() -> World {
    let mut w = World::new(
        EntryAcl {
            allow_all: true,
            allow_owner: true,
            allowed_dids: Vec::new(),
            source: "t".to_string(),
        },
        "http://k".to_string(),
        "pin".to_string(),
    );
    w.set_world_did("k51world", "did:ma:k51world");
    w
}

#[test]
fn snapshot_lists_rooms_and_avatars_in_order() {
    let mut w = world();
    for name in ["yard", "lobby", "attic"] {
        w.create_room(name.to_string(), "t0").unwrap();
    }
    w.ensure_avatar("did:ma:k51b", "did:ma:k51b#zed", Some("zed".to_string()), "en", "ep-z", "zKey", "lobby", [1u8; 32], 7, "t1")
        .unwrap();
    w.ensure_avatar("did:ma:k51a", "did:ma:k51a#amy", Some("amy".to_string()), "en", "ep-a", "zKey", "lobby", [1u8; 32], 9, "t2")
        .unwrap();
    let s = w.snapshot();
    let names: Vec<&str> = s.rooms.iter().map(|r| r.name.as_str()).collect();
    assert_eq!(names, vec!["attic", "lobby", "yard"]);
    let lobby = &s.rooms[1];
    assert_eq!(lobby.avatars.len(), 2);
    assert!(lobby.avatars[0].inbox <= lobby.avatars[1].inbox);
    let amy = lobby.avatars.iter().find(|a| a.agent_did == "did:ma:k51world#amy").unwrap();
    assert_eq!(amy.agent_endpoint, "ep-a");
    assert_eq!(amy.owner, "did:ma:k51a");
    assert_eq!(amy.description, "skeleton avatar");
    assert_eq!(amy.acl, "*");
    assert_eq!(amy.joined_at, 9);
    assert!(s.rooms[0].avatars.is_empty());
    assert_eq!(s.recent_events, w.events);
}
