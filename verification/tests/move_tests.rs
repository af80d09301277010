use ma_world::acl::EntryAcl;
use ma_world::avatar_move::MoveTarget;
use ma_world::world::World;

fn world() -> World {
    let mut w = World::new(
        EntryAcl {
            allow_all: true,
            allow_owner: true,
            allowed_dids: Vec::new(),
            source: "t".to_string(),
        },
        "http://k".to_string(),
        "pin".to_string(),
    );
    w.set_world_did("k51world", "did:ma:k51world");
    w.create_room("lobby".to_string(), "t0").unwrap();
    w.create_room("hall".to_string(), "t0").unwrap();
    w
}

fn handles(w: &World, room: &str) -> Vec<String> {
    for (k, r) in w.rooms.entries.iter() {
        let n: String = k.iter().collect();
        if n == room {
            return r.avatars.entries.iter().map(|(h, _)| h.iter().collect()).collect();
        }
    }
    panic!("no room {room}");
}

#[test]
fn avatars_move_through_exits() {
    let mut w = world();
    let (_, h, _) = w
        .ensure_avatar("did:ma:k51a", "did:ma:k51a#x", Some("x".to_string()), "en", "ep", "zKey", "lobby", [1u8; 32], 5, "t1")
        .unwrap();
    assert_eq!(
        w.execute_avatar_move("lobby", "ghost", "north", None, "hall", MoveTarget::Local("hall".to_string())),
        ("ghost goes north.".to_string(), "lobby".to_string())
    );
    assert_eq!(
        w.execute_avatar_move("lobby", &h, "north", None, "hall", MoveTarget::Local("hall".to_string())),
        (format!("{h} goes north."), "hall".to_string())
    );
    assert!(handles(&w, "lobby").is_empty());
    assert_eq!(handles(&w, "hall"), vec![h.clone()]);
    assert_eq!(w.avatar_room_for_did("did:ma:k51world#x"), Some("hall".to_string()));

    assert_eq!(
        w.execute_avatar_move("hall", &h, "up", None, "attic", MoveTarget::Local("attic".to_string())),
        ("Destination 'attic' no longer exists.".to_string(), "hall".to_string())
    );
    assert_eq!(
        w.execute_avatar_move("hall", &h, "out", Some("You climb.".to_string()), "did:ma:k51other#room",
            MoveTarget::External("did:ma:k51other#room".to_string())),
        ("You climb. go did:ma:k51other#room".to_string(), "hall".to_string())
    );
    assert_eq!(
        w.execute_avatar_move("hall", &h, "void", None, "did:ma:k51world", MoveTarget::MissingFragment),
        ("Destination 'did:ma:k51world' is not a room DID (missing fragment).".to_string(), "hall".to_string())
    );
    assert_eq!(handles(&w, "hall"), vec![h]);
}
