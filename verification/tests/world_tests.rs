use ma_world::acl::EntryAcl;
use ma_world::avatar::AvatarRequest;
use ma_world::room::RoomDispatchTask;
use ma_world::world::{World, WorldError};

fn test_world() -> World {
    World::new(
        EntryAcl {
            allow_all: true,
            allow_owner: true,
            allowed_dids: Vec::new(),
            source: "test".to_string(),
        },
        "http://127.0.0.1:5001".to_string(),
        "test-world".to_string(),
    )
}

fn request(did: &str, fragment: &str, owner: &str, endpoint: &str) -> AvatarRequest {
    AvatarRequest {
        did: did.to_string(),
        did_fragment: fragment.to_string(),
        owner: owner.to_string(),
        agent_endpoint: endpoint.to_string(),
        language_order: "nb_NO:en_UK".to_string(),
        signing_secret: [0u8; 32],
        encryption_pubkey_multibase: None,
    }
}

fn room_avatar_count(world: &World, room: &str) -> usize {
    for (k, r) in world.rooms.entries.iter() {
        let name: String = k.iter().collect();
        if name == room {
            return r.avatars.entries.len();
        }
    }
    panic!("no room {room}");
}

#[test]
fn join_room_keeps_avatar_in_single_room() {
    let mut world = test_world();
    world.create_room("lobby".to_string(), "t0").unwrap();
    world.create_room("hall".to_string(), "t0").unwrap();

    let req = request("did:ma:k51test#pixie", "pixie", "did:ma:k51test", "ep-1");
    world.join_room("lobby", req, Some("pixie".to_string()), 100, "t1").unwrap();

    let req2 = request("did:ma:k51test#pixie", "pixie", "did:ma:k51test", "ep-2");
    let out = world.join_room("hall", req2, Some("pixie".to_string()), 101, "t2").unwrap();
    assert_eq!(out.handle, "pixie");
    assert_eq!(out.moved_from, Some("lobby".to_string()));
    assert!(out.refresh_registry);

    assert_eq!(world.avatar_room_for_did("did:ma:k51test#pixie"), Some("hall".to_string()));
    assert_eq!(room_avatar_count(&world, "lobby"), 0);
    assert_eq!(room_avatar_count(&world, "hall"), 1);
}

#[test]
fn prune_stale_avatars_clears_membership_index() {
    let mut world = test_world();
    world.create_room("lobby".to_string(), "t0").unwrap();
    let req = request("did:ma:k51stale#agent", "agent", "did:ma:k51stale", "ep-stale");
    world.join_room("lobby", req, Some("agent".to_string()), 1000, "t1").unwrap();

    // Last seen 90 seconds before the prune, with a 25 second limit.
    let changed = world.prune_stale_avatars(25, 1090);
    assert!(changed.iter().any(|room| room == "lobby"));
    assert_eq!(world.avatar_room_for_did("did:ma:k51stale#agent"), None);
}

#[test]
fn prune_keeps_fresh_avatars() {
    let mut world = test_world();
    world.create_room("lobby".to_string(), "t0").unwrap();
    let req = request("did:ma:k51fresh#agent", "agent", "did:ma:k51fresh", "ep");
    world.join_room("lobby", req, None, 1000, "t1").unwrap();
    let changed = world.prune_stale_avatars(25, 1020);
    assert!(changed.is_empty());
    assert_eq!(world.avatar_room_for_did("did:ma:k51fresh#agent"), Some("lobby".to_string()));
}

#[test]
fn rejoin_in_same_room_keeps_handle() {
    let mut world = test_world();
    world.create_room("lobby".to_string(), "t0").unwrap();
    let out = world.join_room("lobby", request("did:ma:k51a#a", "a", "o", "ep-1"), None, 1, "t").unwrap();
    assert_eq!(out.handle, "a");
    assert!(out.refresh_registry);
    let again = world.join_room("lobby", request("did:ma:k51a#a", "a", "o", "ep-1"), None, 2, "t").unwrap();
    assert_eq!(again.handle, "a");
    assert!(!again.refresh_registry);
    assert_eq!(again.moved_from, None);
    let changed = world.join_room("lobby", request("did:ma:k51a#a", "a", "o", "ep-2"), None, 3, "t").unwrap();
    assert!(changed.refresh_registry);
    assert_eq!(room_avatar_count(&world, "lobby"), 1);
}

#[test]
fn handle_collision_falls_back_to_fragment_then_did_tail() {
    let mut world = test_world();
    world.create_room("lobby".to_string(), "t0").unwrap();
    let a = world.join_room("lobby", request("did:ma:k51a#x", "x", "o", "ep"), Some("@pixie".to_string()), 1, "t").unwrap();
    assert_eq!(a.handle, "pixie");
    let b = world.join_room("lobby", request("did:ma:k51b#y", "y", "o", "ep"), Some("pixie".to_string()), 1, "t").unwrap();
    assert_eq!(b.handle, "y");
    let c = world.join_room("lobby", request("did:ma:k51c#y", "y", "o", "ep"), Some("pixie".to_string()), 1, "t").unwrap();
    assert_eq!(c.handle, "pixie1c#y");
}

#[test]
fn join_errors() {
    let mut world = test_world();
    assert!(matches!(
        world.join_room("nowhere", request("did:ma:k#a", "a", "o", "ep"), None, 1, "t"),
        Err(WorldError::RoomNotFound(_))
    ));
    world.create_room("lobby".to_string(), "t0").unwrap();
    let mut denied = World::new(
        EntryAcl { allow_all: true, allow_owner: true, allowed_dids: Vec::new(), source: "t".to_string() },
        String::new(),
        String::new(),
    );
    denied.create_room("vault".to_string(), "t").unwrap();
    let _ = denied.update_room_acl("vault", ma_world::world_admin::AclOp::Close);
    assert!(matches!(
        denied.join_room("vault", request("did:ma:k#a", "a", "o", "ep"), None, 1, "t"),
        Err(WorldError::RoomAclDenied(_))
    ));
}

#[test]
fn create_room_rejects_bad_and_duplicate_ids() {
    let mut world = test_world();
    assert!(matches!(world.create_room("bad id".to_string(), "t"), Err(WorldError::InvalidRoomId(_))));
    assert!(matches!(world.create_room(String::new(), "t"), Err(WorldError::InvalidRoomId(_))));
    world.create_room("lobby".to_string(), "t").unwrap();
    assert!(matches!(world.create_room("lobby".to_string(), "t"), Err(WorldError::RoomExists(_))));
    assert_eq!(world.events.last().unwrap(), "t room created: lobby");
}

#[test]
fn room_dids_follow_world_ipns() {
    let mut world = test_world();
    world.create_room("lobby".to_string(), "t").unwrap();
    assert_eq!(world.room_did("lobby"), "did:ma:unconfigured#lobby");
    world.set_world_did("k51world", "did:ma:k51world");
    assert_eq!(world.room_did("lobby"), "did:ma:k51world#lobby");
    assert_eq!(world.owner_did, Some("did:ma:k51world".to_string()));
    assert!(world.is_world_target_did(" did:ma:k51world "));
    assert!(!world.is_world_target_did("did:ma:other"));
    assert!(world.is_local_world_ipns("k51world"));
}

#[test]
fn leave_room_and_chat() {
    let mut world = test_world();
    world.create_room("lobby".to_string(), "t0").unwrap();
    world.join_room("lobby", request("did:ma:k51a#a", "a", "o", "ep"), None, 1, "t1").unwrap();
    world.send_chat("lobby", "a", "did:ma:k51a#a", &vec![1u8, 2, 3], "t2").unwrap();
    let (events, latest) = world.room_events_since("lobby", 0);
    assert_eq!(latest, 2);
    assert_eq!(events.len(), 2);
    assert_eq!(events[0].message, "a entered lobby");
    assert_eq!(events[1].kind, "chat");
    assert_eq!(events[1].message_cbor_b64, Some("AQID".to_string()));
    assert!(matches!(world.send_chat("lobby", "zed", "d", &vec![], "t"), Err(WorldError::SenderNotInRoom(_))));
    world.leave_room("lobby", "a", "t3").unwrap();
    assert_eq!(room_avatar_count(&world, "lobby"), 0);
    assert_eq!(world.latest_room_event_sequence("lobby"), 3);
    let queued = world.drain_room_dispatch_queue("lobby");
    assert!(queued.iter().any(|t| matches!(t, RoomDispatchTask::PresenceSnapshot)));
    assert!(world.drain_room_dispatch_queue("lobby").is_empty());
}

#[test]
fn set_kubo_url_trims_and_rejects_blank() {
    let mut world = test_world();
    assert_eq!(world.set_kubo_url("  http://k:5001 ").unwrap(), "http://k:5001");
    assert_eq!(world.kubo_url, "http://k:5001");
    assert_eq!(world.set_kubo_url("   ").unwrap_err(), "kubo api url cannot be empty");
}

#[test]
fn room_avatars_are_sorted_by_handle() {
    let mut world = test_world();
    world.create_room("lobby".to_string(), "t0").unwrap();
    world.join_room("lobby", request("did:ma:k#zed", "zed", "o", "ep"), None, 1, "t").unwrap();
    world.join_room("lobby", request("did:ma:k#amy", "amy", "o", "ep"), None, 1, "t").unwrap();
    let list = world.room_avatars("lobby");
    let handles: Vec<&str> = list.iter().map(|p| p.handle.as_str()).collect();
    assert_eq!(handles, vec!["amy", "zed"]);
    assert_eq!(list[0].did, "did:ma:k#amy");
}
