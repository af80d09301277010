use ma_world::acl::{EntryAcl, RoomAcl};
use ma_world::room::Room;
use ma_world::world::World;
use ma_world::world_load::check_room_acl_doc;

fn test_world() -> World {
    World::new(
        EntryAcl {
            allow_all: true,
            allow_owner: true,
            allowed_dids: Vec::new(),
            source: "test".to_string(),
        },
        "http://127.0.0.1:5001".to_string(),
        "test-world".to_string(),
    )
}

fn stored_acl() -> RoomAcl {
    RoomAcl {
        owner: None,
        allow: vec!["did:ma:alice".to_string()],
        deny: vec!["did:ma:owner".to_string(), "did:ma:mallory".to_string()],
    }
}

fn room_url(world: &World, name: &str) -> Option<String> {
    for (k, r) in world.rooms.entries.iter() {
        let n: String = k.iter().collect();
        if n == name {
            return Some(r.url.clone());
        }
    }
    None
}

fn room_acl<'a>(world: &'a World, name: &str) -> Option<&'a RoomAcl> {
    for (k, r) in world.rooms.entries.iter() {
        let n: String = k.iter().collect();
        if n == name {
            return Some(&r.acl);
        }
    }
    None
}

#[test]
fn acl_doc_of_known_kind_is_accepted() {
    assert_eq!(check_room_acl_doc("ma_room_acl", 1, "bafyacl", "lobby"), Ok(()));
}

#[test]
fn acl_doc_of_other_kind_or_version_is_refused() {
    let expected = "unsupported ACL doc kind/version at bafyacl for room 'lobby'".to_string();
    assert_eq!(check_room_acl_doc("ma_room", 1, "bafyacl", "lobby"), Err(expected.clone()));
    assert_eq!(check_room_acl_doc("ma_room_acl", 2, "bafyacl", "lobby"), Err(expected));
}

#[test]
fn loaded_room_takes_index_did_and_owner() {
    let mut world = test_world();
    assert_eq!(world.persisted_room_count(), 0);
    let loaded = Room::new("lobby".to_string(), "did:ma:snapshot#lobby".to_string());
    let ok = world.install_loaded_room(
        "lobby",
        loaded,
        Some("  did:ma:index#lobby ".to_string()),
        true,
        Some("did:ma:owner".to_string()),
        stored_acl(),
        "bafyroom",
    );
    assert!(ok);
    assert_eq!(world.persisted_room_count(), 1);
    assert_eq!(room_url(&world, "lobby"), Some("did:ma:index#lobby".to_string()));
    let acl = room_acl(&world, "lobby").unwrap();
    assert_eq!(acl.owner, Some("did:ma:owner".to_string()));
    assert!(acl.allow.contains(&"did:ma:owner".to_string()));
    assert!(acl.allow.contains(&"did:ma:alice".to_string()));
    assert!(!acl.deny.contains(&"did:ma:owner".to_string()));
    assert!(acl.deny.contains(&"did:ma:mallory".to_string()));
}

#[test]
fn loaded_room_keeps_snapshot_did_when_index_did_is_unusable() {
    let mut world = test_world();
    let loaded = Room::new("hall".to_string(), "did:ma:snapshot#hall".to_string());
    assert!(world.install_loaded_room("hall", loaded, Some("   ".to_string()), true, None, stored_acl(), "bafy1"));
    assert_eq!(room_url(&world, "hall"), Some("did:ma:snapshot#hall".to_string()));
    let loaded2 = Room::new("yard".to_string(), "did:ma:snapshot#yard".to_string());
    assert!(world.install_loaded_room("yard", loaded2, Some("did:ma:index#yard".to_string()), false, None, stored_acl(), "bafy2"));
    assert_eq!(room_url(&world, "yard"), Some("did:ma:snapshot#yard".to_string()));
    let acl = room_acl(&world, "yard").unwrap();
    assert_eq!(acl.owner, None);
    assert_eq!(acl.allow, vec!["did:ma:alice".to_string()]);
    assert_eq!(world.persisted_room_count(), 2);
}

#[test]
fn loaded_room_with_invalid_id_is_skipped() {
    let mut world = test_world();
    let loaded = Room::new("bad id".to_string(), "did:ma:x#bad".to_string());
    assert!(!world.install_loaded_room("bad id", loaded, None, false, None, stored_acl(), "bafy3"));
    assert_eq!(world.persisted_room_count(), 0);
    assert_eq!(room_url(&world, "bad id"), None);
}

fn registry_with(fragment: &str) -> ma_world::text_map::TextMap<ma_world::registry::AvatarRegistryEntry> {
    let mut m = ma_world::text_map::TextMap::new();
    m.insert(
        fragment.chars().collect(),
        ma_world::registry::AvatarRegistryEntry {
            did: format!("did:ma:k51world#{fragment}"),
            name: fragment.to_string(),
            description: "d".to_string(),
            owner: "did:ma:k51a".to_string(),
            fragment: fragment.to_string(),
            lang: "en_UK".to_string(),
            endpoint: "ep".to_string(),
            room: "lobby".to_string(),
            key_agreement: "zKey".to_string(),
            acl: "*".to_string(),
            shortcuts: ma_world::text_map::TextMap::new(),
            identity: ma_world::registry::IpldLink { cid: "/ipns/k51world".to_string() },
        },
    );
    m
}

#[test]
fn root_index_fields_prefer_the_newer_sections() {
    let mut world = test_world();
    world.adopt_root_index(
        ma_world::text_map::TextMap::new(),
        registry_with("old"),
        None,
        Some("bafystate-legacy".to_string()),
        Some("bafylang".to_string()),
        Some("bafylang-legacy".to_string()),
    );
    assert_eq!(world.avatar_registry.entries.len(), 1);
    assert_eq!(world.avatar_registry.entries[0].1.fragment, "old");
    assert_eq!(world.state_cid, Some("bafystate-legacy".to_string()));
    assert_eq!(world.lang_cid, Some("bafylang".to_string()));
    world.adopt_root_index(
        registry_with("new"),
        registry_with("old"),
        Some("bafystate".to_string()),
        None,
        None,
        None,
    );
    assert_eq!(world.avatar_registry.entries[0].1.fragment, "new");
    assert_eq!(world.state_cid, Some("bafystate".to_string()));
    assert_eq!(world.lang_cid, None);
    world.clear_avatar_registry();
    assert_eq!(world.avatar_registry.entries.len(), 0);
}

fn exit(id: &str, name: &str, to: &str) -> ma_world::room::Exit {
    ma_world::room::Exit { id: id.to_string(), name: name.to_string(), to: to.to_string() }
}

#[test]
fn exits_sort_by_name_keeping_ties_in_order() {
    let sorted = ma_world::world_load::sort_exits_by_name(vec![
        exit("e1", "west", "a"),
        exit("e2", "east", "b"),
        exit("e3", "west", "c"),
        exit("e4", "north", "d"),
        exit("e5", "east", "e"),
    ]);
    let ids: Vec<&str> = sorted.iter().map(|e| e.id.as_str()).collect();
    assert_eq!(ids, vec!["e2", "e5", "e4", "e1", "e3"]);
}

#[test]
fn exit_cids_are_fetched_in_id_order() {
    let mut cids = ma_world::text_map::TextMap::new();
    cids.insert("south".chars().collect(), "bafy-s".to_string());
    cids.insert("north".chars().collect(), "bafy-n".to_string());
    cids.insert("east".chars().collect(), "bafy-e".to_string());
    assert_eq!(
        ma_world::world_load::exit_fetch_order(&cids),
        vec![
            ("east".to_string(), "bafy-e".to_string()),
            ("north".to_string(), "bafy-n".to_string()),
            ("south".to_string(), "bafy-s".to_string()),
        ]
    );
}

#[test]
fn stored_rooms_keep_a_parsing_did_or_take_the_worlds() {
    let mut world = test_world();
    world.set_world_did("k51world", "did:ma:k51world");
    let (room, rewrite) = world.materialize_room_v2(
        "hall",
        "hall".to_string(),
        Some(" did:ma:k51other#hall ".to_string()),
        true,
        ma_world::text_map::TextMap::new(),
        ma_world::text_map::TextMap::new(),
        true,
        vec![exit("hall-w", "west", "yard"), exit("hall-e", "east", "lobby")],
        vec![exit("hall-x", "inline", "x")],
    );
    assert!(!rewrite);
    assert_eq!(room.url, "did:ma:k51other#hall");
    assert_eq!(room.name, "hall");
    let names: Vec<&str> = room.exits.iter().map(|e| e.name.as_str()).collect();
    assert_eq!(names, vec!["east", "west"]);

    let (room2, rewrite2) = world.materialize_room_v2(
        "yard",
        "yard".to_string(),
        None,
        false,
        ma_world::text_map::TextMap::new(),
        ma_world::text_map::TextMap::new(),
        false,
        Vec::new(),
        vec![exit("yard-x", "inline", "x")],
    );
    assert!(rewrite2);
    assert_eq!(room2.url, "did:ma:k51world#yard");
    assert_eq!(room2.exits.len(), 1);
    assert_eq!(room2.exits[0].name, "inline");

    let (old, rewrite3) = world.materialize_room_legacy(
        "cellar",
        "  ".to_string(),
        "  Dark Cellar ",
        "not a did",
        false,
        ma_world::text_map::TextMap::new(),
        vec![exit("c-up", "up", "lobby")],
    );
    assert!(rewrite3);
    assert_eq!(old.name, "cellar");
    assert_eq!(old.url, "did:ma:k51world#cellar");
    assert_eq!(old.title_or_default(), "Dark Cellar");
    assert_eq!(old.exits.len(), 1);
}

fn index_entry(name: &str, acl_doc: Result<Option<(String, u32, RoomAcl)>, String>, rewrite: bool, readable: bool) -> ma_world::world_load::IndexRoomEntry {
    ma_world::world_load::IndexRoomEntry {
        name: name.to_string(),
        cid: format!("bafy-{name}"),
        did: None,
        did_parses: false,
        owner: Some("did:ma:owner".to_string()),
        acl_cid: format!("bafyacl-{name}"),
        loaded: if readable {
            Some(ma_world::world_load::LoadedRoom {
                room: Room::new(name.to_string(), format!("did:ma:k51world#{name}")),
                needs_rewrite: rewrite,
                acl_doc,
            })
        } else {
            None
        },
    }
}

#[test]
fn root_index_rooms_are_counted_as_loaded() {
    let mut world = test_world();
    let entries = vec![
        index_entry("yard", Ok(None), true, true),
        index_entry("bad id", Ok(None), true, true),
        index_entry("attic", Ok(None), false, false),
        index_entry("hall", Ok(Some(("ma_room_acl".to_string(), 1, stored_acl()))), true, true),
        index_entry("cellar", Ok(None), false, true),
    ];
    let (count, rewrite) = world.install_loaded_rooms("bafyroot", entries).unwrap();
    assert_eq!(count, 3);
    assert_eq!(rewrite, vec!["hall".to_string(), "yard".to_string()]);
    assert_eq!(world.world_cid, Some("bafyroot".to_string()));
    assert_eq!(world.persisted_room_count(), 3);
    assert_eq!(room_acl(&world, "hall").unwrap().owner, Some("did:ma:owner".to_string()));
}

#[test]
fn a_bad_acl_document_stops_the_load() {
    let mut world = test_world();
    let entries = vec![
        index_entry("yard", Ok(None), false, true),
        index_entry("hall", Ok(Some(("ma_room".to_string(), 1, stored_acl()))), false, true),
        index_entry("cellar", Ok(None), false, true),
    ];
    assert_eq!(
        world.install_loaded_rooms("bafyroot", entries),
        Err("unsupported ACL doc kind/version at bafyacl-hall for room 'hall'".to_string())
    );
    assert_eq!(world.persisted_room_count(), 1);
    let entries2 = vec![index_entry("cellar", Err("failed loading acl x".to_string()), false, true)];
    assert_eq!(world.install_loaded_rooms("bafyroot", entries2), Err("failed loading acl x".to_string()));
}
