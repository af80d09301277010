use ma_world::acl::EntryAcl;
use ma_world::registry::{AvatarRegistryEntry, AvatarsQueryReply, IpldLink};
use ma_world::text_map::TextMap;
use ma_world::world::World;

fn world() -> World {
    let mut w = World::new(
        EntryAcl {
            allow_all: true,
            allow_owner: true,
            allowed_dids: Vec::new(),
            source: "t".to_string(),
        },
        "http://k".to_string(),
        "pin".to_string(),
    );
    w.set_world_did("k51world", "did:ma:k51world");
    w.create_room("lobby".to_string(), "t0").unwrap();
    w
}

fn entry(did: &str, fragment: &str, owner: &str, identity: &str) -> AvatarRegistryEntry {
    AvatarRegistryEntry {
        did: did.to_string(),
        name: fragment.to_string(),
        description: "d".to_string(),
        owner: owner.to_string(),
        fragment: fragment.to_string(),
        lang: "en_UK".to_string(),
        endpoint: "ep".to_string(),
        room: "lobby".to_string(),
        key_agreement: "zKey".to_string(),
        acl: "*".to_string(),
        shortcuts: TextMap::new(),
        identity: IpldLink { cid: identity.to_string() },
    }
}

fn text(r: AvatarsQueryReply) -> String {
    match r {
        AvatarsQueryReply::Text(t) => t,
        other => panic!("not text: {other:?}"),
    }
}

#[test]
fn registry_entry_is_built_from_the_avatar() {
    let mut w = world();
    match w.avatar_registry_entry_for_did("did:ma:k51world#x") {
        Err(e) => assert_eq!(e, "avatar 'did:ma:k51world#x' not found in world rooms"),
        Ok(_) => panic!("entry for an absent avatar"),
    }
    let (did, handle, _) = w
        .ensure_avatar("did:ma:k51a", "did:ma:k51a#x", Some("x".to_string()), "en", "ep", "zKey", "lobby", [1u8; 32], 5, "t1")
        .unwrap();
    match w.avatar_registry_entry_for_did(&did) {
        Err(e) => assert_eq!(e, "world signing key is not unlocked"),
        Ok(_) => panic!("entry while locked"),
    }
    w.set_world_master_key([3u8; 32]);
    let e = w.avatar_registry_entry_for_did(&did).unwrap();
    assert_eq!(e.did, "did:ma:k51world#x");
    assert_eq!(e.name, handle);
    assert_eq!(e.description, "skeleton avatar");
    assert_eq!(e.owner, "did:ma:k51a");
    assert_eq!(e.fragment, "x");
    assert_eq!(e.lang, "en_UK");
    assert_eq!(e.endpoint, "ep");
    assert_eq!(e.room, "lobby");
    assert_eq!(e.key_agreement, "zKey");
    assert_eq!(e.acl, "*");
    assert_eq!(e.identity.cid, "/ipns/k51world");
    assert!(w.upsert_avatar_registry_entry(e));
    let again = w.avatar_registry_entry_for_did(&did).unwrap();
    assert!(!w.upsert_avatar_registry_entry(again));
    let mut moved = w.avatar_registry_entry_for_did(&did).unwrap();
    moved.room = "hall".to_string();
    assert!(w.upsert_avatar_registry_entry(moved));
}

#[test]
fn owner_identity_link_prefers_registered_identities() {
    let mut w = world();
    assert_eq!(w.owner_identity_link(), Some("/ipns/k51world".to_string()));
    w.owner_did = None;
    assert_eq!(w.owner_identity_link(), None);
    w.owner_did = Some("did:ma:k51owner".to_string());
    assert_eq!(w.owner_identity_link(), Some("/ipns/k51owner".to_string()));
    w.upsert_avatar_registry_entry(entry("did:ma:k51other#a", "a", "did:ma:k51other", "/ipns/aaa"));
    w.upsert_avatar_registry_entry(entry("did:ma:k51owner#b", "b", "did:ma:k51owner", "  "));
    assert_eq!(w.owner_identity_link(), Some("/ipns/k51owner".to_string()));
    w.upsert_avatar_registry_entry(entry("did:ma:k51owner#c", "c", "did:ma:k51owner", " /ipns/zzz "));
    w.upsert_avatar_registry_entry(entry("did:ma:k51owner#d", "d", "did:ma:k51owner", "/ipns/mmm"));
    assert_eq!(w.owner_identity_link(), Some("/ipns/mmm".to_string()));
}

#[test]
fn owner_privilege_extends_to_registered_avatars() {
    let mut w = world();
    w.owner_did = None;
    assert!(!w.is_world_owner_caller("did:ma:k51owner", "did:ma:k51owner#me"));
    w.owner_did = Some("did:ma:k51owner".to_string());
    assert!(w.is_world_owner_caller("did:ma:k51owner", "did:ma:k51owner#me"));
    assert!(!w.is_world_owner_caller("did:ma:k51guest", "did:ma:k51world#pet"));
    w.upsert_avatar_registry_entry(entry("did:ma:k51world#pet", "pet", "did:ma:k51owner", "/ipns/p"));
    assert!(w.is_world_owner_caller("did:ma:k51guest", "did:ma:k51world#pet"));
    w.upsert_avatar_registry_entry(entry("did:ma:k51world#stray", "stray", "did:ma:k51guest", "/ipns/s"));
    assert!(!w.is_world_owner_caller("did:ma:k51guest", "did:ma:k51world#stray"));
}

#[test]
fn avatar_queries_read_the_registry() {
    let mut w = world();
    assert_eq!(text(w.world_avatars_query("avatars")), "avatars: (none)");
    let mut e = entry("did:ma:k51world#yo", "yo", "did:ma:k51a", "/ipns/k51world");
    e.shortcuts.insert("lamp".chars().collect(), "obj-2".to_string());
    e.shortcuts.insert("door".chars().collect(), "obj-1".to_string());
    w.upsert_avatar_registry_entry(e);
    w.upsert_avatar_registry_entry(entry("did:ma:k51world#al", "al", "did:ma:k51a", "/ipns/k51world"));
    assert_eq!(text(w.world_avatars_query("avatars._list")), "avatars:\nal\nyo");
    assert_eq!(text(w.world_avatars_query("avatars.yo.did")), "did:ma:k51world#yo");
    assert_eq!(text(w.world_avatars_query("avatars. yo .language")), "en_UK");
    assert_eq!(text(w.world_avatars_query("avatars.yo.doc")), "/ipns/k51world");
    assert_eq!(text(w.world_avatars_query("avatars.yo.shortcuts")), "door -> obj-1\nlamp -> obj-2");
    assert_eq!(text(w.world_avatars_query("avatars.al.shortcuts")), "(none)");
    assert_eq!(
        text(w.world_avatars_query("avatars.yo.color")),
        "unknown avatar attribute 'color'. Allowed: did, name, description, owner, fragment, lang, endpoint, room, key_agreement, acl, shortcuts, identity"
    );
    assert_eq!(text(w.world_avatars_query("avatars.nobody.did")), "avatar 'nobody' not found");
    assert_eq!(text(w.world_avatars_query("avatars. .did")), "avatar path usage: @world.avatars.<fragment>.<field>");
    match w.world_avatars_query("avatars.yo") {
        AvatarsQueryReply::Attributes(a) => {
            assert_eq!(a.len(), 11);
            assert_eq!(a[0], ("avatars.yo.did".to_string(), "did:ma:k51world#yo".to_string()));
            assert_eq!(a[10], ("avatars.yo.identity".to_string(), "/ipns/k51world".to_string()));
        }
        other => panic!("not attributes: {other:?}"),
    }
}
