use ma_world::acl::EntryAcl;
use ma_world::avatar::{Avatar, AvatarRequest};
use ma_world::world::World;

fn world() -> World {
    World::new(
        EntryAcl {
            allow_all: true,
            allow_owner: true,
            allowed_dids: Vec::new(),
            source: "t".to_string(),
        },
        "http://k".to_string(),
        "pin".to_string(),
    )
}

#[test]
fn object_shortcuts() {
    let mut a = Avatar::new(
        "pix".to_string(),
        "did:ma:k#pix".to_string(),
        "ep".to_string(),
        "en_UK".to_string(),
        "did:ma:k".to_string(),
        [0u8; 32],
        None,
        7,
    );
    assert_eq!(a.object_shortcuts_summary(), "(none)");
    assert!(a.bind_object_shortcut(" @Lamp ", " obj-1 "));
    assert!(a.bind_object_shortcut("book", "obj-2"));
    assert!(!a.bind_object_shortcut("bad alias", "x"));
    assert!(!a.bind_object_shortcut("@", "x"));
    assert_eq!(a.resolve_object_shortcut("LAMP"), Some("obj-1".to_string()));
    assert_eq!(a.resolve_object_shortcut("chair"), None);
    assert_eq!(a.object_shortcuts_summary(), "@book->obj-2, @lamp->obj-1");
    assert!(a.remove_object_shortcut("@lamp"));
    assert!(!a.remove_object_shortcut("lamp"));
    assert_eq!(a.object_shortcuts_summary(), "@book->obj-2");
}

#[test]
fn world_settings_round_trip() {
    let mut w = world();
    assert_eq!(w.set_world_root_pin_name("  My World!! "), "my-world");
    assert_eq!(w.world_root_pin_name(), "my-world");
    w.set_lang_cid(Some("  bafylang \n".to_string()));
    assert_eq!(w.lang_cid(), Some("bafylang".to_string()));
    w.set_lang_cid(Some("   ".to_string()));
    assert_eq!(w.lang_cid(), None);
    w.mark_unlocked();
    w.lock();
    assert!(!w.is_unlocked());
}

#[test]
fn room_queries() {
    let mut w = world();
    w.create_room("lobby".to_string(), "t0").unwrap();
    w.create_room("hall".to_string(), "t0").unwrap();
    assert_eq!(w.room_names(), vec!["lobby".to_string(), "hall".to_string()]);
    assert_eq!(w.room_description("lobby"), "(no description)");
    assert_eq!(w.room_description("attic"), "");
    let req = AvatarRequest {
        did: "did:ma:k51a#x".to_string(),
        did_fragment: "x".to_string(),
        owner: "did:ma:k51a".to_string(),
        agent_endpoint: "ep".to_string(),
        language_order: "en_UK".to_string(),
        signing_secret: [0u8; 32],
        encryption_pubkey_multibase: None,
    };
    w.join_room("hall", req, Some("xen".to_string()), 1000, "t1").unwrap();
    assert_eq!(w.avatar_handle_for_did("hall", "did:ma:k51a#x"), Some("xen".to_string()));
    assert_eq!(w.avatar_handle_for_did("lobby", "did:ma:k51a#x"), None);
    w.configure_room_avatar_ttl(5);
    assert_eq!(w.avatar_presence_ttl_secs, 5);
    assert_eq!(w.prune_stale_avatars(5, 1003), Vec::<String>::new());
}

#[test]
fn knock_inbox_prunes_by_age() {
    let mut w = world();
    w.enqueue_knock("lobby", "did:ma:k51a", "ep", None, "t", 100);
    w.enqueue_knock("lobby", "did:ma:k51b", "ep", None, "t", 50_000);
    assert_eq!(w.prune_knock_inbox(100 + 86_400), 0);
    assert_eq!(w.prune_knock_inbox(100 + 86_401), 1);
    assert_eq!(w.list_knocks(true, 100 + 86_401).len(), 1);
}
