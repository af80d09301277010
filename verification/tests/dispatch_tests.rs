use ma_world::acl::EntryAcl;
use ma_world::lang::world_lang_catalogs;
use ma_world::world::World;
use ma_world::world_dispatch::{
    parse_world_command_text, world_broadcast_reply, world_help, world_owner_required, world_unknown_command, WorldCommandText,
    WorldRoute,
};

fn test_world() -> World {
    World::new(
        EntryAcl {
            allow_all: true,
            allow_owner: true,
            allowed_dids: Vec::new(),
            source: "test".to_string(),
        },
        "http://127.0.0.1:5001".to_string(),
        "test-world".to_string(),
    )
}

fn method(text: &str) -> (String, String) {
    match parse_world_command_text(text) {
        WorldCommandText::Method { method, arg } => (method, arg),
        other => panic!("not a method: {other:?}"),
    }
}

#[test]
fn world_commands_split_into_method_and_argument() {
    assert!(matches!(parse_world_command_text("  HeLp "), WorldCommandText::Help));
    assert!(matches!(parse_world_command_text(" \t "), WorldCommandText::Summary));
    assert_eq!(method("  PING   lobby  "), ("ping".to_string(), "lobby".to_string()));
    assert_eq!(method("knock accept 3"), ("knock".to_string(), "accept 3".to_string()));
    assert_eq!(method("claim"), ("claim".to_string(), String::new()));
    assert_eq!(method("Broadcast\thello  world"), ("broadcast".to_string(), "hello  world".to_string()));
    assert_eq!(method("help me"), ("help".to_string(), "me".to_string()));
}

#[test]
fn broadcast_needs_a_message() {
    assert_eq!(world_broadcast_reply("lobby", ""), "usage: @world.broadcast <message>");
    assert_eq!(world_broadcast_reply("lobby", "hi all"), "broadcast sent to room 'lobby'");
}

#[test]
fn help_is_localized_with_fallback() {
    let cats = world_lang_catalogs("", "world.help.commands = hjelp\n");
    assert_eq!(world_help(&cats, "nb_NO"), "hjelp");
    assert!(world_help(&cats, "en_UK").starts_with("@world commands: help | ping [room] | list | claim"));
}

#[test]
fn world_list_shows_rooms_in_id_order() {
    let cats = world_lang_catalogs("", "world.list.empty = ingen rom\n");
    let mut w = test_world();
    assert_eq!(w.world_list(&cats, "en_UK"), "@world objects: (none)");
    assert_eq!(w.world_list(&cats, "nb_NO"), "ingen rom");
    w.create_room("yard".to_string(), "t0").unwrap();
    w.create_room("great-hall".to_string(), "t0").unwrap();
    assert_eq!(w.world_list(&cats, "en_UK"), "objects:\ngreat-hall => Great Hall\nyard => Yard");
}

fn route(w: &World, text: &str, base: &str, did: &str) -> ma_world::world_dispatch::WorldRoute {
    let tree = w.public_inspect_tree();
    w.route_world_command(text, base, did, &tree)
}

#[test]
fn world_commands_are_routed_with_the_owner_gate() {
    let mut w = test_world();
    w.owner_did = Some("did:ma:k51owner".to_string());
    w.create_room("lobby".to_string(), "t0").unwrap();
    let guest = ("did:ma:k51guest", "did:ma:k51guest#g");
    let owner = ("did:ma:k51owner", "did:ma:k51owner#o");
    assert!(matches!(route(&w, " HeLp ", guest.0, guest.1), WorldRoute::Help));
    assert!(matches!(route(&w, "  ", guest.0, guest.1), WorldRoute::Summary));
    assert!(matches!(route(&w, "broadcast hi all", guest.0, guest.1), WorldRoute::Broadcast(a) if a == "hi all"));
    assert!(matches!(route(&w, "rooms.lobby.title", guest.0, guest.1), WorldRoute::Inspect(p) if p == "rooms.lobby.title"));
    assert!(matches!(route(&w, "LIST", guest.0, guest.1), WorldRoute::List));
    assert!(matches!(route(&w, "ping #lobby", guest.0, guest.1), WorldRoute::Ping(a) if a == "#lobby"));
    assert!(matches!(route(&w, "claim", guest.0, guest.1), WorldRoute::Claim));
    assert!(matches!(route(&w, "knock list", guest.0, guest.1), WorldRoute::OwnerRequired));
    assert!(matches!(route(&w, "frobnicate", guest.0, guest.1), WorldRoute::OwnerRequired));
    assert!(matches!(route(&w, "knock list all", owner.0, owner.1), WorldRoute::Knock(a) if a == "list all"));
    assert!(matches!(route(&w, "room lobby acl show", owner.0, owner.1), WorldRoute::Room(a) if a == "lobby acl show"));
    assert!(matches!(route(&w, "save", owner.0, owner.1), WorldRoute::Save));
    assert!(matches!(route(&w, "frobnicate now", owner.0, owner.1), WorldRoute::Unknown(a) if a == "frobnicate now"));
    let cats = world_lang_catalogs("", "");
    assert_eq!(world_owner_required(&cats, "en_UK"), "@world only the world owner can run that command.");
    assert_eq!(world_unknown_command("frobnicate now"), "unknown command: frobnicate now");
}
