use ma_world::acl::{EntryAcl, RoomAcl};
use ma_world::lang::{collapse_world_language_order, world_lang_from_profile};
use ma_world::world::World;

fn world() -> World {
    World::new(
        EntryAcl {
            allow_all: false,
            allow_owner: true,
            allowed_dids: Vec::new(),
            source: "t".to_string(),
        },
        "http://k".to_string(),
        "pin".to_string(),
    )
}

#[test]
fn registration_binds_and_recovers() {
    let mut w = world();
    let h = w.register_handle("did:ma:k51a", Some("@Pixie".to_string()), "a");
    assert_eq!(w.register_handle("did:ma:k51a", Some("other".to_string()), "zzz"), h);
    let h2 = w.register_handle("did:ma:k51b", Some(h.clone()), "b");
    assert_ne!(h2, h);
    assert_eq!(w.register_handle("did:ma:k51b", None, "q"), h2);
}

#[test]
fn room_deny_wins_over_star() {
    let mut acl = RoomAcl::open();
    assert!(acl.can_enter("did:ma:k51x"));
    acl.deny_identity("did:ma:k51x".to_string()).unwrap();
    assert!(!acl.can_enter("did:ma:k51x"));
    acl.allow_identity("did:ma:k51x".to_string());
    assert!(acl.can_enter("did:ma:k51x"));
    assert!(acl.can_enter("did:ma:k51y"));
}

#[test]
fn entry_acl_admits_listed_and_owner() {
    let mut acl = EntryAcl {
        allow_all: false,
        allow_owner: true,
        allowed_dids: Vec::new(),
        source: "t".to_string(),
    };
    let owner = Some("did:ma:k51o".to_string());
    assert!(acl.can_enter("did:ma:k51o", &owner));
    assert!(!acl.can_enter("did:ma:k51z", &owner));
    acl.allow_did("did:ma:k51z".to_string());
    assert!(acl.can_enter("did:ma:k51z", &owner));
}

#[test]
fn world_language_is_always_supported() {
    for profile in ["", "de_DE", "nb;en", "  ,:;", "NB-no", "en_UK"] {
        let lang = world_lang_from_profile(profile);
        assert!(lang == "en_UK" || lang == "nb_NO", "{profile:?} gave {lang:?}");
    }
}

#[test]
fn collapsed_order_names_each_supported_language_once() {
    let out = collapse_world_language_order("nb_NO;nb;en;en_UK;de");
    let parts: Vec<&str> = out.split(';').collect();
    let mut seen = std::collections::HashSet::new();
    for p in &parts {
        assert!(*p == "en_UK" || *p == "nb_NO", "{out}");
        assert!(seen.insert(*p), "{out}");
    }
}

#[test]
fn handle_collisions_append_the_did_tail() {
    let mut w = world();
    assert_eq!(w.register_handle("did:ma:k51a#pixie", Some("pixie".to_string()), "pixie"), "pixie");
    let h = w.register_handle("did:ma:k51b#pixie", Some("pixie".to_string()), "pixie");
    assert_eq!(h, "pixieixie");
    assert!(h.starts_with("pixie") && h.ends_with("ixie") && h != "pixie");
    let h3 = w.register_handle("did:ma:k51c#pixie", Some("pixie".to_string()), "pixie");
    assert_eq!(h3, "did:ma:k51c#pixie");
}
