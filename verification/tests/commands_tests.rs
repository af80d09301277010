use ma_world::acl::EntryAcl;
use ma_world::avatar::AvatarRequest;
use ma_world::lang::world_lang_catalogs;
use ma_world::room_command::{room_ping_reply, RoomAction};
use ma_world::world::World;
use ma_world::world_admin::{parse_world_room_command, WorldRoomCommand};

fn closed_world() -> World {
    World::new(
        EntryAcl {
            allow_all: false,
            allow_owner: true,
            allowed_dids: Vec::new(),
            source: "test".to_string(),
        },
        "http://127.0.0.1:5001".to_string(),
        "test-world".to_string(),
    )
}

fn request(did: &str, fragment: &str, owner: &str) -> AvatarRequest {
    AvatarRequest {
        did: did.to_string(),
        did_fragment: fragment.to_string(),
        owner: owner.to_string(),
        agent_endpoint: "ep".to_string(),
        language_order: "en_UK".to_string(),
        signing_secret: [0u8; 32],
        encryption_pubkey_multibase: None,
    }
}

#[test]
fn claim_sets_owner_once() {
    let mut world = closed_world();
    assert_eq!(world.claim_world("did:ma:k51owner"), "claimed by did:ma:k51owner");
    assert_eq!(world.owner_did(), Some("did:ma:k51owner".to_string()));
    assert!(world.can_enter("did:ma:k51owner"));
    assert_eq!(world.claim_world("did:ma:k51other"), "already claimed by did:ma:k51owner");
    assert_eq!(world.owner_did(), Some("did:ma:k51owner".to_string()));
}

#[test]
fn ping_touches_the_named_room() {
    let mut world = closed_world();
    world.set_world_did("k51world", "did:ma:k51world");
    world.create_room("lobby".to_string(), "t0").unwrap();
    world.create_room("hall".to_string(), "t0").unwrap();
    world
        .join_room("hall", request("did:ma:k51a#x", "x", "did:ma:k51a"), None, 10, "t1")
        .unwrap();
    assert_eq!(
        world.world_ping("lobby", " #hall ", "did:ma:k51a#x", 20),
        "pong room_did=did:ma:k51world#hall touched=true"
    );
    assert_eq!(
        world.world_ping("lobby", "", "did:ma:k51a#x", 21),
        "pong room_did=did:ma:k51world#lobby touched=false"
    );
    assert_eq!(
        world.world_ping("lobby", "nowhere", "did:ma:k51a#x", 22),
        "pong room_did=did:ma:k51world#lobby touched=false"
    );
}

#[test]
fn invite_allowlists_the_did() {
    let mut world = closed_world();
    assert_eq!(world.world_invite("  ", Err("x".to_string())), "usage: @world.invite <did> [note]");
    assert_eq!(
        world.world_invite("nope", Err("bad did".to_string())),
        "invalid DID 'nope': bad did"
    );
    assert!(!world.can_enter("did:ma:k51guest"));
    assert_eq!(
        world.world_invite("did:ma:k51guest#a", Ok("did:ma:k51guest".to_string())),
        "invited did:ma:k51guest (allowlisted). note='Your knock request was accepted. You may enter now.'"
    );
    assert!(world.can_enter("did:ma:k51guest"));
    assert_eq!(
        world.world_invite("did:ma:k51b   welcome   aboard", Ok("did:ma:k51b".to_string())),
        "invited did:ma:k51b (allowlisted). note='welcome aboard'"
    );
}

#[test]
fn flush_empties_the_knock_inbox() {
    let mut world = closed_world();
    world.enqueue_knock("lobby", "did:ma:k51a", "ep", None, "t", 100);
    world.enqueue_knock("lobby", "did:ma:k51b", "ep", None, "t", 100);
    assert_eq!(world.world_flush("bogus"), "usage: @world.flush [knock|all]");
    assert_eq!(world.world_flush(" KNOCKS "), "flush knock: removed=2");
    assert_eq!(world.world_flush(""), "flush all: knocks=0");
}

#[test]
fn knock_command_lists_and_decides() {
    let mut world = closed_world();
    let catalogs = world_lang_catalogs("world-knock-empty = nothing knocked\n", "");
    let (a, _) = world.enqueue_knock("lobby", "did:ma:k51a", "ep", None, "t1", 100);
    let (b, _) = world.enqueue_knock("hall", "did:ma:k51b", "ep", None, "t2", 100);
    assert_eq!(
        world.world_knock_command("", &catalogs, "en_UK", "t3", 200),
        format!("knock inbox:\nid={a} status=Pending room=lobby did=did:ma:k51a at=t1\nid={b} status=Pending room=hall did=did:ma:k51b at=t2")
    );
    assert_eq!(
        world.world_knock_command(&format!("accept {a}"), &catalogs, "en_UK", "t4", 200),
        format!("knock accepted id={a} did=did:ma:k51a room=lobby (entry allowlist updated)")
    );
    assert!(world.can_enter("did:ma:k51a"));
    assert_eq!(
        world.world_knock_command(&format!("accept {a}"), &catalogs, "en_UK", "t4", 200),
        format!("knock accept failed: knock id {a} is not pending")
    );
    assert_eq!(
        world.world_knock_command(&format!("reject {b} not   today"), &catalogs, "en_UK", "t5", 200),
        format!("knock rejected id={b} did=did:ma:k51b room=hall")
    );
    assert!(!world.can_enter("did:ma:k51b"));
    assert_eq!(
        world.world_knock_command("list", &catalogs, "en_UK", "t6", 200),
        "@world knock inbox is empty"
    );
    assert_eq!(
        world.world_knock_command("list ALL", &catalogs, "en_UK", "t6", 200),
        format!("knock inbox:\nid={a} status=Accepted room=lobby did=did:ma:k51a at=t1\nid={b} status=Rejected room=hall did=did:ma:k51b at=t2")
    );
    assert_eq!(
        world.world_knock_command(&format!("delete {b}"), &catalogs, "en_UK", "t7", 200),
        format!("knock deleted id={b}")
    );
    assert_eq!(
        world.world_knock_command("delete 999", &catalogs, "en_UK", "t7", 200),
        "knock delete failed: knock id 999 not found"
    );
    assert_eq!(
        world.world_knock_command("accept x1", &catalogs, "en_UK", "t7", 200),
        "invalid knock id 'x1'"
    );
    assert_eq!(
        world.world_knock_command("reject", &catalogs, "en_UK", "t7", 200),
        "usage: @world.knock reject <id> [note]"
    );
    assert_eq!(
        world.world_knock_command("frob", &catalogs, "en_UK", "t7", 200),
        "usage: @world.knock list [all] | @world.knock accept <id> | @world.knock reject <id> [note] | @world.knock delete <id>"
    );
}

#[test]
fn room_admin_commands_parse() {
    assert!(matches!(parse_world_room_command(""), WorldRoomCommand::Usage));
    assert!(matches!(parse_world_room_command("lobby"), WorldRoomCommand::Usage));
    assert!(matches!(parse_world_room_command("lobby frob"), WorldRoomCommand::Usage));
    match parse_world_room_command("lobby OWNER did:ma:k51a#x") {
        WorldRoomCommand::Owner(room, did) => {
            assert_eq!(room, "lobby");
            assert_eq!(did, "did:ma:k51a#x");
        }
        other => panic!("unexpected {other:?}"),
    }
    assert!(matches!(
        parse_world_room_command("lobby owner did:ma:k51a"),
        WorldRoomCommand::OwnerMissingFragment(_, _)
    ));
    assert!(matches!(parse_world_room_command("lobby acl"), WorldRoomCommand::AclShow(_)));
    assert!(matches!(parse_world_room_command("lobby acl allow"), WorldRoomCommand::AclAllowUsage(_)));
    match parse_world_room_command("lobby acl deny did:ma:k51b") {
        WorldRoomCommand::AclDeny(room, did) => {
            assert_eq!(room, "lobby");
            assert_eq!(did, "did:ma:k51b");
        }
        other => panic!("unexpected {other:?}"),
    }
    match parse_world_room_command("lobby acl zap") {
        WorldRoomCommand::AclUnknown(_, sub) => assert_eq!(sub, "zap"),
        other => panic!("unexpected {other:?}"),
    }
}

#[test]
fn room_admin_commands_run() {
    let mut world = closed_world();
    world.create_room("lobby".to_string(), "t0").unwrap();
    let show = parse_world_room_command("lobby acl show");
    assert_eq!(
        world.run_world_room_command(show, Err(String::new())),
        ("room 'lobby' acl: * owner=(none)".to_string(), false)
    );
    let close = parse_world_room_command("lobby acl close");
    assert_eq!(
        world.run_world_room_command(close, Err(String::new())),
        ("room 'lobby' acl closed (private)".to_string(), true)
    );
    let owner = parse_world_room_command("lobby owner did:ma:k51a#x");
    assert_eq!(
        world.run_world_room_command(owner, Ok(("did:ma:k51a".to_string(), true))),
        ("room 'lobby' owner set to did:ma:k51a".to_string(), true)
    );
    let deny = parse_world_room_command("lobby acl deny did:ma:k51a");
    assert_eq!(
        world.run_world_room_command(deny, Ok(("did:ma:k51a".to_string(), false))),
        ("room 'lobby' owner cannot be denied".to_string(), false)
    );
    let missing = parse_world_room_command("attic acl open");
    assert_eq!(
        world.run_world_room_command(missing, Err(String::new())),
        ("room 'attic' not found".to_string(), false)
    );
}

#[test]
fn room_actions_change_rooms() {
    let mut world = closed_world();
    world.create_room("lobby".to_string(), "t0").unwrap();
    let out = world.apply_room_action(
        "lobby",
        RoomAction::SetTitle("Great Hall".to_string()),
        "ok".to_string(),
        "alice",
        None,
        "t1",
    );
    assert_eq!(out.response, "ok");
    assert_eq!(out.changed_rooms, vec!["lobby".to_string()]);
    assert_eq!(world.room_title("lobby"), "Great Hall");
    let (events, _) = world.room_events_since("lobby", 0);
    assert_eq!(events.last().unwrap().message, "room title updated by alice");

    world.apply_room_action("lobby", RoomAction::SetOwner("did:ma:k51o".to_string()), "ok".to_string(), "o", None, "t2");
    let out = world.apply_room_action(
        "lobby",
        RoomAction::Deny("did:ma:k51o".to_string()),
        "denied".to_string(),
        "o",
        None,
        "t3",
    );
    assert_eq!(out.response, "@here owner cannot be denied");
    assert!(out.changed_rooms.is_empty());

    let out = world.apply_room_action("attic", RoomAction::Kick("x".to_string()), "r".to_string(), "o", None, "t4");
    assert_eq!(out.response, "r");
    assert!(out.changed_rooms.is_empty());
}

#[test]
fn say_and_emote() {
    let mut world = closed_world();
    world.create_room("lobby".to_string(), "t0").unwrap();
    assert_eq!(world.room_say("lobby", "alice", None, "", "t1"), "@here say what?");
    assert_eq!(world.room_say("lobby", "alice", None, "hello", "t1"), "alice: hello");
    assert_eq!(world.events.last().unwrap(), "t1 [lobby] alice: hello");
    assert_eq!(world.room_emote("lobby", "alice", None, "waves", "t2"), "* alice waves");
    assert_eq!(world.room_emote("lobby", "alice", None, "", "t2"), "@here emote what?");
    assert_eq!(room_ping_reply("lobby", "alice"), "@here pong room=lobby by=alice");
}

#[test]
fn world_attributes() {
    let mut world = closed_world();
    assert_eq!(world.world_attribute("rooms"), Some("(none)".to_string()));
    world.create_room("zoo".to_string(), "t0").unwrap();
    world.create_room("lobby".to_string(), "t0").unwrap();
    assert_eq!(world.world_attribute("rooms"), Some("lobby\nzoo".to_string()));
    assert_eq!(world.world_attribute("did"), Some("did:ma:unconfigured".to_string()));
    assert_eq!(world.world_attribute("owner_did"), Some("(none)".to_string()));
    assert_eq!(world.world_attribute("lang_cid"), Some("(none)".to_string()));
    assert_eq!(world.world_attribute("color"), None);
}
