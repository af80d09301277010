use ma_world::avatar_commands::{
    cmd_go, cmd_go_exit, cmd_inspect, cmd_look, cmd_look_at, parse_avatar_world_command, AvatarAction,
    AvatarCommandContext, AvatarWorldCommand, ExitView,
};
use ma_world::lang::world_lang_catalogs;

fn exit(id: &str, name: &str, hidden: bool, locked: bool, usable: bool) -> ExitView {
    ExitView {
        id: id.to_string(),
        name: name.to_string(),
        display_name: name.to_string(),
        names: vec![("nb".to_string(), format!("{name}-nb"))],
        to: "hall".to_string(),
        aliases: vec!["n".to_string(), "up".to_string()],
        hidden,
        locked,
        one_way: false,
        travel_texts: Vec::new(),
        usable,
    }
}

fn ctx() -> AvatarCommandContext {
    AvatarCommandContext {
        room_name: "lobby".to_string(),
        room_title: String::new(),
        room_description: "(no description)".to_string(),
        exits: vec![
            exit("lobby-north", "north", false, false, true),
            exit("lobby-cellar", "cellar", true, false, true),
            exit("lobby-vault", "vault", false, true, true),
            exit("lobby-gate", "gate", false, false, false),
        ],
        avatars: vec!["did:ma:me#a".to_string(), "Bob".to_string()],
        things: vec!["Lamp".to_string()],
        sender_profile: "en_UK; nb_NO ;".to_string(),
        caller_did: "did:ma:me#a".to_string(),
    }
}

#[test]
fn avatar_commands_are_read() {
    assert!(matches!(parse_avatar_world_command("  "), AvatarWorldCommand::NotMine));
    assert!(matches!(parse_avatar_world_command(" LOOK "), AvatarWorldCommand::Look));
    assert!(matches!(parse_avatar_world_command("l  lamp "), AvatarWorldCommand::LookAt(t) if t == "lamp"));
    assert!(matches!(parse_avatar_world_command("Look at bob"), AvatarWorldCommand::LookAt(t) if t == "at bob"));
    assert!(matches!(parse_avatar_world_command("GO north"), AvatarWorldCommand::Go(t) if t == "north"));
    assert!(matches!(parse_avatar_world_command("gO north"), AvatarWorldCommand::Go(t) if t.is_empty()));
    assert!(matches!(parse_avatar_world_command("go"), AvatarWorldCommand::Go(t) if t.is_empty()));
    assert!(matches!(parse_avatar_world_command("inspect  vault"), AvatarWorldCommand::Inspect(t) if t == "vault"));
    assert!(matches!(parse_avatar_world_command("inspect"), AvatarWorldCommand::Inspect(t) if t.is_empty()));
    assert!(matches!(parse_avatar_world_command("north"), AvatarWorldCommand::Bare(t) if t == "north"));
    assert!(matches!(parse_avatar_world_command("dance wildly"), AvatarWorldCommand::NotMine));
    assert_eq!(ctx().lang_prefs(), vec!["en_UK".to_string(), "nb_NO".to_string()]);
}

#[test]
fn look_describes_the_room() {
    let cats = world_lang_catalogs("", "");
    let r = cmd_look(&ctx(), &cats);
    assert_eq!(
        r.response,
        "── lobby ──\nNothing special here.\nExits: north, vault 🔒, gate\nPresent: Bob\nYou see: Lamp"
    );
    assert!(matches!(r.action, AvatarAction::Stay));
    let mut bare = ctx();
    bare.exits.clear();
    bare.avatars.truncate(1);
    bare.things.clear();
    bare.room_title = "The Lobby".to_string();
    bare.room_description = "Quiet.".to_string();
    assert_eq!(cmd_look(&bare, &cats).response, "── The Lobby ──\nQuiet.\nThere are no obvious exits.");
}

#[test]
fn look_at_exits_things_and_avatars() {
    let cats = world_lang_catalogs("", "");
    let c = ctx();
    assert_eq!(cmd_look_at("vault", &c, Some(2), &cats).response, "vault — It is locked.");
    assert_eq!(cmd_look_at("north", &c, Some(0), &cats).response, "north — It is open.");
    assert_eq!(cmd_look_at("lamp", &c, None, &cats).response, "lamp");
    assert_eq!(cmd_look_at("BOB", &c, None, &cats).response, "BOB");
    assert_eq!(cmd_look_at("moon", &c, None, &cats).response, "You see nothing called 'moon'");
    assert_eq!(cmd_look_at("", &c, None, &cats).response, cmd_look(&c, &cats).response);
}

#[test]
fn go_takes_usable_open_exits() {
    let cats = world_lang_catalogs("", "");
    let c = ctx();
    assert_eq!(cmd_go("", &c, None, &cats).response, "Go where?");
    assert_eq!(cmd_go("south", &c, None, &cats).response, "No exit 'south'");
    let r = cmd_go("north", &c, Some(0), &cats);
    assert_eq!(r.response, "");
    assert!(matches!(r.action, AvatarAction::Move { exit: 0 }));
    assert_eq!(cmd_go_exit(2, &c, &cats).response, "The way is locked: vault");
    let denied = cmd_go_exit(3, &c, &cats);
    assert_eq!(denied.response, "You cannot use exit 'gate'");
    assert!(matches!(denied.action, AvatarAction::Stay));
}

#[test]
fn inspect_shows_exit_fields() {
    let cats = world_lang_catalogs("", "");
    let c = ctx();
    assert_eq!(cmd_inspect("", &c, None, &cats).response, "Inspect what?");
    assert_eq!(
        cmd_inspect("north", &c, Some(0), &cats).response,
        "@inspect exit id=lobby-north\n  name=north\n  name.nb=north-nb\n  to=hall\n  aliases=n, up\n  hidden=false\n  locked=false\n  one_way=false"
    );
    assert_eq!(cmd_inspect("lamp", &c, None, &cats).response, "@inspect object name=lamp room=lobby");
    assert_eq!(cmd_inspect("bob", &c, None, &cats).response, "@inspect avatar handle=bob room=lobby");
    assert_eq!(cmd_inspect("moon", &c, None, &cats).response, "Nothing to inspect: 'moon'");
}
