use ma_world::acl::EntryAcl;
use ma_world::avatar_entry::EntryError;
use ma_world::world::World;

fn world(open: bool) -> World {
    let mut w = World::new(
        EntryAcl {
            allow_all: open,
            allow_owner: true,
            allowed_dids: Vec::new(),
            source: "t".to_string(),
        },
        "http://k".to_string(),
        "pin".to_string(),
    );
    w.set_world_did("k51world", "did:ma:k51world");
    w.create_room("lobby".to_string(), "t0").unwrap();
    w
}

#[test]
fn new_agents_pass_the_entry_acl() {
    let mut w = world(false);
    match w.ensure_avatar("did:ma:k51a", "did:ma:k51a#x", Some("x".to_string()), "en", "ep", "zKey", "lobby", [1u8; 32], 5, "t1") {
        Err(EntryError::Denied(m)) => assert_eq!(m, "entry denied by ACL for did:ma:k51a#x"),
        other => panic!("unexpected {other:?}"),
    }
    w.allow_entry_did("did:ma:k51a#x");
    match w.ensure_avatar("did:ma:k51a", "did:ma:k51a#x", Some(" @x ".to_string()), "fr", "ep", "zKey", "lobby", [1u8; 32], 5, "t1") {
        Err(EntryError::NoLanguage(m)) => {
            assert_eq!(m, "no supported language found in ma.language='fr'. supported=en_UK, nb_NO")
        }
        other => panic!("unexpected {other:?}"),
    }
}

#[test]
fn avatars_are_made_once() {
    let mut w = world(true);
    let (did, handle, is_new) = w
        .ensure_avatar("did:ma:k51a", "did:ma:k51a#x", Some(" @x ".to_string()), "nb", "ep", "zKey", "lobby", [1u8; 32], 5, "t1")
        .unwrap();
    assert_eq!(did, "did:ma:k51world#x");
    assert!(is_new);
    let found = w.find_avatar_presence_by_did(&did).unwrap();
    assert_eq!(found.0, "lobby");
    assert_eq!(found.1, handle);
    assert_eq!(found.4, "skeleton avatar");
    assert_eq!(w.avatar_language_order_for_did("lobby", &did), Some("nb_NO".to_string()));

    let (did2, handle2, is_new2) = w
        .ensure_avatar("did:ma:k51a", "did:ma:k51a#x", Some("x".to_string()), "en", "ep2", "zKey", "lobby", [1u8; 32], 9, "t2")
        .unwrap();
    assert_eq!(did2, did);
    assert_eq!(handle2, handle);
    assert!(!is_new2);
    assert_eq!(w.avatar_language_order_for_did("lobby", &did), Some("en_UK".to_string()));

    match w.ensure_avatar("did:ma:k51b", "did:ma:k51b", None, "en", "ep", "zKey", "attic", [1u8; 32], 9, "t3") {
        Err(EntryError::Join(_)) => {}
        other => panic!("unexpected {other:?}"),
    }
}

fn last_seen(w: &World, room: &str, handle: &str) -> u64 {
    for (k, r) in w.rooms.entries.iter() {
        let n: String = k.iter().collect();
        if n == room {
            for (h, a) in r.avatars.entries.iter() {
                let hn: String = h.iter().collect();
                if hn == handle {
                    return a.last_seen_at;
                }
            }
        }
    }
    panic!("no avatar {handle} in {room}");
}

#[test]
fn owner_avatar_is_found_once_entered() {
    let mut w = world(true);
    assert_eq!(w.resolve_avatar_did_for_owner("did:ma:k51a"), None);
    w.ensure_avatar("did:ma:k51a", "did:ma:k51a#x", Some("x".to_string()), "en", "ep", "zKey", "lobby", [1u8; 32], 5, "t1")
        .unwrap();
    assert_eq!(w.resolve_avatar_did_for_owner("did:ma:k51a"), Some("did:ma:k51world#x".to_string()));
    assert_eq!(w.resolve_avatar_did_for_owner("did:ma:k51b"), None);
}

#[test]
fn derived_avatar_did_cleans_the_fragment() {
    let w = world(true);
    assert_eq!(
        w.derived_avatar_did(&Some("  @@pixie ".to_string())),
        ("did:ma:k51world#pixie".to_string(), "pixie".to_string())
    );
    assert_eq!(
        w.derived_avatar_did(&None),
        ("did:ma:k51world#avatar".to_string(), "avatar".to_string())
    );
}

#[test]
fn present_avatar_is_required() {
    let mut w = world(true);
    match w.require_present_avatar(&Some("x".to_string())) {
        Err(m) => assert_eq!(m, "avatar did:ma:k51world#x is not present; enter required"),
        Ok(_) => panic!("absent avatar found"),
    }
    let (_, handle, _) = w
        .ensure_avatar("did:ma:k51a", "did:ma:k51a#x", Some("x".to_string()), "en", "ep", "zKey", "lobby", [1u8; 32], 5, "t1")
        .unwrap();
    let p = w.require_present_avatar(&Some(" x".to_string())).unwrap();
    assert_eq!(p.url, "did:ma:k51world#x");
    assert_eq!(p.room_name, "lobby");
    assert_eq!(p.handle, handle);
    assert_eq!(last_seen(&w, "lobby", &handle), 5);
    let p2 = w.touch_present_avatar(&Some("x".to_string()), 42).unwrap();
    assert_eq!(p2.handle, handle);
    assert_eq!(last_seen(&w, "lobby", &handle), 42);
    assert!(w.touch_present_avatar(&Some("y".to_string()), 43).is_err());
}
