use ma_world::acl::EntryAcl;
use ma_world::inspect::{format_public_inspect_value, resolve_public_inspect_path, world_root_cid_from_ma_world, InspectValue};
use ma_world::world::World;

fn world() -> World {
    let mut w = World::new(
        EntryAcl {
            allow_all: true,
            allow_owner: true,
            allowed_dids: Vec::new(),
            source: "t".to_string(),
        },
        "http://k".to_string(),
        "pin".to_string(),
    );
    w.set_world_did("k51world", "did:ma:k51world");
    w.create_room("lobby".to_string(), "t0").unwrap();
    w
}

fn read(tree: &InspectValue, path: &str) -> Option<String> {
    resolve_public_inspect_path(tree, path).and_then(format_public_inspect_value)
}

#[test]
fn inspect_tree_answers_dotted_paths() {
    let mut w = world();
    let (_, handle, _) = w
        .ensure_avatar("did:ma:k51a", "did:ma:k51a#x", Some("x".to_string()), "en", "ep", "zKey", "lobby", [1u8; 32], 5, "t1")
        .unwrap();
    let tree = w.public_inspect_tree();
    assert_eq!(read(&tree, "did"), Some("did:ma:k51world".to_string()));
    assert_eq!(read(&tree, "owner.id"), Some("did:ma:k51world".to_string()));
    assert_eq!(read(&tree, "owner.ipns"), Some("/ipns/k51world".to_string()));
    assert_eq!(read(&tree, "owner.identity"), Some("/ipns/k51world".to_string()));
    assert_eq!(read(&tree, "lang_cid"), Some("(none)".to_string()));
    assert_eq!(read(&tree, " .rooms.lobby.title. "), Some("Lobby".to_string()));
    assert_eq!(read(&tree, "rooms.lobby.description"), Some("(no description)".to_string()));
    assert_eq!(read(&tree, "rooms.lobby.avatar_count"), Some("1".to_string()));
    assert_eq!(read(&tree, &format!("rooms.lobby.avatars.{handle}.fragment")), Some("x".to_string()));
    assert_eq!(read(&tree, &format!("rooms.lobby.avatars.{handle}.acl")), Some("*".to_string()));
    assert!(resolve_public_inspect_path(&tree, "rooms..lobby").is_none());
    assert!(resolve_public_inspect_path(&tree, "rooms.attic").is_none());
    assert!(resolve_public_inspect_path(&tree, "did.more").is_none());
    assert!(matches!(resolve_public_inspect_path(&tree, "_list"), Some(InspectValue::Object(_))));
    assert_eq!(read(&tree, ""), None);
    assert_eq!(read(&tree, "avatars"), None);
}

#[test]
fn inspect_paths_index_lists_and_read_leaves() {
    let tree = InspectValue::Object(vec![(
        "items".to_string(),
        InspectValue::List(vec![InspectValue::Text("a".to_string()), InspectValue::Number(5), InspectValue::Bool(true), InspectValue::Null]),
    )]);
    assert_eq!(read(&tree, "items.1"), Some("5".to_string()));
    assert_eq!(read(&tree, "items.+0"), Some("a".to_string()));
    assert_eq!(read(&tree, "items.2"), Some("true".to_string()));
    assert_eq!(read(&tree, "items.3"), Some("(null)".to_string()));
    assert!(resolve_public_inspect_path(&tree, "items.4").is_none());
    assert!(resolve_public_inspect_path(&tree, "items.x").is_none());
    assert_eq!(format_public_inspect_value(&InspectValue::Bool(false)), Some("false".to_string()));
}

fn obj(members: Vec<(&str, InspectValue)>) -> InspectValue {
    InspectValue::Object(members.into_iter().map(|(k, v)| (k.to_string(), v)).collect())
}

#[test]
fn world_root_link_is_read_from_the_did_document() {
    assert_eq!(world_root_cid_from_ma_world(&None), None);
    let direct = obj(vec![("/", InspectValue::Text(" bafyroot ".to_string()))]);
    assert_eq!(world_root_cid_from_ma_world(&Some(direct)), Some("bafyroot".to_string()));
    let projected = obj(vec![
        ("public", obj(vec![("/", InspectValue::Text("bafypub".to_string()))])),
        ("root", obj(vec![("/", InspectValue::Text("bafyroot2".to_string()))])),
    ]);
    assert_eq!(world_root_cid_from_ma_world(&Some(projected)), Some("bafyroot2".to_string()));
    let blank = obj(vec![("/", InspectValue::Text("  ".to_string()))]);
    assert_eq!(world_root_cid_from_ma_world(&Some(blank)), None);
    assert_eq!(world_root_cid_from_ma_world(&Some(InspectValue::Text("bafy".to_string()))), None);
}
