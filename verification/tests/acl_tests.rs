use ma_world::acl::{entry_acl_tokens, parse_entry_acl, ActorAcl, EntryAclError, RoomAcl};
use ma_world::world_admin::{parse_world_room_command, WorldRoomCommand};
use ma_world::acl::EntryAcl;
use ma_world::world::World;

#[test]
fn entry_acl_tokens_are_trimmed_and_non_empty() {
    assert_eq!(entry_acl_tokens(" *, owner ,, did:ma:k#a "), vec!["*", "owner", "did:ma:k#a"]);
    assert!(entry_acl_tokens(" , ").is_empty());
}

#[test]
fn parse_entry_acl_cases() {
    let acl = parse_entry_acl("*", &vec![None]).ok().unwrap();
    assert!(acl.allow_all);
    assert!(!acl.allow_owner);
    assert!(acl.can_enter("did:ma:x#y", &None));

    let raw = "owner, did:ma:k51#a";
    let acl = parse_entry_acl(raw, &vec![None, Some("did:ma:k51#a".to_string())]).ok().unwrap();
    assert!(!acl.allow_all);
    assert!(acl.allow_owner);
    assert_eq!(acl.allowed_dids, vec!["did:ma:k51#a".to_string()]);
    assert!(acl.can_enter("did:ma:k51#a", &None));
    assert!(acl.can_enter("did:ma:owner", &Some("did:ma:owner".to_string())));
    assert!(!acl.can_enter("did:ma:other", &Some("did:ma:owner".to_string())));

    assert!(matches!(parse_entry_acl("  ", &vec![]), Err(EntryAclError::Empty)));
    match parse_entry_acl("bogus", &vec![None]) {
        Err(EntryAclError::InvalidDid(t)) => assert_eq!(t, "bogus"),
        _ => panic!("expected an invalid DID"),
    }
}

#[test]
fn allow_did_marks_runtime_source() {
    let mut acl = parse_entry_acl("owner", &vec![None]).ok().unwrap();
    acl.allow_did("did:ma:k#z".to_string());
    assert_eq!(acl.source, "runtime:private(+allowlist)");
    assert!(acl.can_enter("did:ma:k#z", &None));
}

#[test]
fn room_acl_summary_and_entry() {
    let mut acl = RoomAcl::open();
    assert_eq!(acl.summary(), "*");
    acl.allow_identity("did:ma:a".to_string());
    assert!(acl.deny_identity("did:ma:b".to_string()).is_ok());
    assert_eq!(acl.summary(), "*, did:ma:a, !did:ma:b");
    assert!(!acl.can_enter("did:ma:b"));
    acl.close_access();
    assert!(!acl.can_enter("did:ma:c"));
    assert!(acl.can_enter("did:ma:a"));
    acl.set_owner("did:ma:b".to_string());
    assert!(acl.can_enter("did:ma:b"));
    assert!(acl.deny_identity("did:ma:b".to_string()).is_err());
}

#[test]
fn actor_acl_summary() {
    let acl = ActorAcl::open();
    assert_eq!(acl.summary(), "*");
    let empty = ActorAcl { allow_all: false, allow: vec![], deny: vec![] };
    assert_eq!(empty.summary(), "(none)");
    let mixed = ActorAcl { allow_all: false, allow: vec!["a".to_string()], deny: vec!["b".to_string()] };
    assert_eq!(mixed.summary(), "a, !b");
}

fn admin_world() -> World {
    let mut w = World::new(
        EntryAcl { allow_all: true, allow_owner: true, allowed_dids: vec![], source: "t".to_string() },
        String::new(),
        String::new(),
    );
    w.create_room("lobby".to_string(), "t").unwrap();
    let _ = w.set_owner_did("did:ma:k51admin#owner");
    w
}

#[test]
fn world_room_owner_admin_override_sets_owner() {
    let mut world = admin_world();
    let cmd = parse_world_room_command("lobby owner did:ma:k51recovered#hero");
    assert!(matches!(cmd, WorldRoomCommand::Owner(_, _)));
    let (response, changed) = world.run_world_room_command(cmd, Ok(("did:ma:k51recovered#hero".to_string(), true)));
    assert!(response.contains("owner set to did:ma:k51recovered#hero"));
    assert!(changed);
    let lobby = &world.rooms.entries[0].1;
    assert_eq!(lobby.acl.owner.as_deref(), Some("did:ma:k51recovered#hero"));
    assert!(lobby.acl.allow.contains(&"did:ma:k51recovered#hero".to_string()));
    assert!(!lobby.acl.deny.contains(&"did:ma:k51recovered#hero".to_string()));
}

#[test]
fn world_room_owner_admin_override_rejects_fragmentless_did() {
    let mut world = admin_world();
    let cmd = parse_world_room_command("lobby owner did:ma:k51recovered");
    let (response, changed) = world.run_world_room_command(cmd, Err(String::new()));
    assert!(response.contains("missing #fragment"));
    assert!(!changed);
    let lobby = &world.rooms.entries[0].1;
    assert_ne!(lobby.acl.owner.as_deref(), Some("did:ma:k51recovered"));
}

#[test]
fn world_room_acl_commands() {
    let mut world = admin_world();
    let (r, _) = world.run_world_room_command(parse_world_room_command("lobby acl close"), Err(String::new()));
    assert_eq!(r, "room 'lobby' acl closed (private)");
    let (r, _) = world.run_world_room_command(parse_world_room_command("lobby acl"), Err(String::new()));
    assert_eq!(r, "room 'lobby' acl:  owner=(none)");
    let (r, changed) = world.run_world_room_command(parse_world_room_command("lobby acl allow did:ma:k#a"), Ok(("did:ma:k#a".to_string(), true)));
    assert_eq!(r, "room 'lobby' acl: allowed did:ma:k#a");
    assert!(changed);
    let (r, _) = world.run_world_room_command(parse_world_room_command("hall acl open"), Err(String::new()));
    assert_eq!(r, "room 'hall' not found");
    let (r, _) = world.run_world_room_command(parse_world_room_command("lobby acl frob"), Err(String::new()));
    assert_eq!(r, "unknown acl subcommand 'frob'. usage: @world.room lobby acl show|open|close|allow <did>|deny <did>");
    let (r, _) = world.run_world_room_command(parse_world_room_command("lobby"), Err(String::new()));
    assert!(r.starts_with("usage: @world.room <name>"));
    let (r, _) = world.run_world_room_command(parse_world_room_command("lobby acl deny did:ma:x"), Err("bad did".to_string()));
    assert_eq!(r, "invalid DID 'did:ma:x': bad did");
}
