use ma_world::acl::EntryAcl;
use ma_world::actor_route::{avatar_debug_reply, ActorCommand, ActorRoute, TargetDid};
use ma_world::avatar::AvatarRequest;
use ma_world::messaging::sender_presence_required;
use ma_world::room_query::{parse_room_command_text, RoomCommandText};
use ma_world::world::World;

fn world() -> World {
    let mut w = World::new(
        EntryAcl {
            allow_all: true,
            allow_owner: true,
            allowed_dids: Vec::new(),
            source: "t".to_string(),
        },
        "http://k".to_string(),
        "pin".to_string(),
    );
    w.set_world_did("k51world", "did:ma:k51world");
    w.create_room("lobby".to_string(), "t0").unwrap();
    let req = AvatarRequest {
        did: "did:ma:k51user#pix".to_string(),
        did_fragment: "pix".to_string(),
        owner: "did:ma:k51user".to_string(),
        agent_endpoint: "ep".to_string(),
        language_order: "en_UK".to_string(),
        signing_secret: [0u8; 32],
        encryption_pubkey_multibase: None,
    };
    w.join_room("lobby", req, Some("pix".to_string()), 10, "t1").unwrap();
    w
}

fn target(id: &str, ipns: &str, fragment: Option<&str>, base: &str) -> Option<TargetDid> {
    Some(TargetDid {
        id: id.to_string(),
        ipns: ipns.to_string(),
        fragment: fragment.map(|f| f.to_string()),
        base_id: base.to_string(),
    })
}

#[test]
fn actor_commands_are_routed() {
    let w = world();
    let say = ActorCommand::Say("  hi  ".to_string());
    match w.route_actor_command("lobby", "pix", "did:ma:k51user#pix", " @Here ", &None, &say) {
        ActorRoute::LocalAlias(m) => {
            assert_eq!(m, "actor-local aliases (@here/@world/@me/@avatar) must be resolved to DID before send")
        }
        _ => panic!("expected alias refusal"),
    }
    match w.route_actor_command(
        "lobby",
        "pix",
        "did:ma:k51user#pix",
        "did:ma:k51world",
        &target("did:ma:k51world", "k51world", None, "did:ma:k51world"),
        &ActorCommand::Raw("  ".to_string()),
    ) {
        ActorRoute::World(c) => assert_eq!(c, "_list"),
        _ => panic!("expected world route"),
    }
    match w.route_actor_command(
        "lobby",
        "pix",
        "did:ma:k51user#pix",
        "did:ma:k51world#lobby",
        &target("did:ma:k51world#lobby", "k51world", Some("lobby"), "did:ma:k51world"),
        &say,
    ) {
        ActorRoute::Room(room, c) => {
            assert_eq!(room, "lobby");
            assert_eq!(c, "say hi");
        }
        _ => panic!("expected room route"),
    }
    assert!(matches!(
        w.route_actor_command(
            "lobby",
            "pix",
            "did:ma:k51user#pix",
            "did:ma:k51user",
            &target("did:ma:k51user", "k51user", None, "did:ma:k51user"),
            &say,
        ),
        ActorRoute::Avatar
    ));
    assert!(matches!(
        w.route_actor_command(
            "lobby",
            "pix",
            "did:ma:k51user#pix",
            "did:ma:k51other",
            &target("did:ma:k51other", "k51other", None, "did:ma:k51other"),
            &say,
        ),
        ActorRoute::Other
    ));
    assert!(matches!(
        w.route_actor_command("lobby", "pix", "did:ma:k51user#pix", "lamp", &None, &say),
        ActorRoute::Other
    ));
}

#[test]
fn debug_reply_lines() {
    assert_eq!(
        avatar_debug_reply("lobby", "pix", "did:ma:k#pix", "ep", "tall"),
        "@debug kind=avatar\n@debug did=did:ma:k#pix\n@debug room=lobby\n@debug handle=pix\n@debug endpoint=ep\n@debug description=tall"
    );
}

#[test]
fn room_command_words() {
    assert!(matches!(parse_room_command_text(" PING? "), RoomCommandText::Ping));
    match parse_room_command_text("say   hello there ") {
        RoomCommandText::Say(s) => assert_eq!(s, "hello there"),
        other => panic!("{other:?}"),
    }
    match parse_room_command_text("say") {
        RoomCommandText::Say(s) => assert_eq!(s, ""),
        other => panic!("{other:?}"),
    }
    assert!(matches!(parse_room_command_text("sayhello"), RoomCommandText::Actor));
    match parse_room_command_text("emote waves") {
        RoomCommandText::Emote(s) => assert_eq!(s, "waves"),
        other => panic!("{other:?}"),
    }
    match parse_room_command_text("l  did:ma:k#x ") {
        RoomCommandText::Look(s) => assert_eq!(s, "did:ma:k#x"),
        other => panic!("{other:?}"),
    }
    match parse_room_command_text("id @@lamp") {
        RoomCommandText::Id(s) => assert_eq!(s, "lamp"),
        other => panic!("{other:?}"),
    }
    assert!(matches!(parse_room_command_text("kick bob"), RoomCommandText::Actor));
}

#[test]
fn id_and_look_replies() {
    let w = world();
    let caller = Some("did:ma:k51user".to_string());
    assert_eq!(w.room_id_reply("lobby", "", "pix", &caller, &None), "@here usage: @here id <thing|avatar|room|me>");
    assert_eq!(
        w.room_id_reply("lobby", "HERE", "pix", &caller, &None),
        "did=did:ma:k51world#lobby source=room room=lobby"
    );
    assert_eq!(w.room_id_reply("attic", "room", "pix", &caller, &None), "@here room DID unavailable");
    assert_eq!(
        w.room_id_reply("lobby", "me", "pix", &caller, &None),
        "did=did:ma:k51user source=caller handle=pix"
    );
    assert_eq!(w.room_id_reply("lobby", "avatar", "pix", &None, &None), "@here caller DID unavailable");
    assert_eq!(
        w.room_id_reply("lobby", "lamp", "pix", &caller, &Some("obj1".to_string())),
        "did=did:ma:k51world#obj1 source=object room=lobby object_id=obj1 token=lamp"
    );
    assert_eq!(
        w.room_id_reply("lobby", "pix", "pix", &caller, &None),
        "did=did:ma:k51user#pix source=avatar handle=pix"
    );
    assert_eq!(w.room_id_reply("lobby", "ghost", "pix", &caller, &None), "@here id 'ghost' not found");

    assert_eq!(w.room_look_reply("", Err(String::new()), None), "@here usage: l <did:ma:...[#fragment]>");
    assert_eq!(w.room_look_reply("x", Err("bad".to_string()), None), "@here invalid DID 'x': bad");
    assert_eq!(
        w.room_look_reply("did:ma:k51user#pix", Ok("did:ma:k51user#pix".to_string()), None),
        "(unset)"
    );
    assert_eq!(
        w.room_look_reply("did:ma:k51z", Ok("did:ma:k51z".to_string()), Some("known".to_string())),
        "known"
    );
    assert_eq!(
        w.room_look_reply("did:ma:k51z", Ok("did:ma:k51z".to_string()), None),
        "@here no avatar found for did:ma:k51z"
    );
}

#[test]
fn message_senders_resolve_to_handles() {
    let w = world();
    assert!(sender_presence_required(None));
    assert!(sender_presence_required(Some(" Me ")));
    assert!(!sender_presence_required(Some("lamp")));
    assert_eq!(w.resolve_message_sender("lobby", " @pix ", "did:ma:k51user#pix", true), Ok("pix".to_string()));
    assert_eq!(w.resolve_message_sender("lobby", "bob", "did:ma:k51user#pix", true), Ok("pix".to_string()));
    assert_eq!(
        w.resolve_message_sender("lobby", "pix", "did:ma:k51other", true),
        Err("sender DID mismatch for @pix in room lobby".to_string())
    );
    assert_eq!(
        w.resolve_message_sender("lobby", "bob", "did:ma:k51other", true),
        Err("unknown avatar @bob in room lobby".to_string())
    );
    assert_eq!(w.resolve_message_sender("lobby", "bob", "did:ma:k51other", false), Ok("bob".to_string()));
    assert_eq!(w.resolve_message_sender("lobby", "", "did:ma:k51other", false), Ok("did:ma:k51other".to_string()));
    assert_eq!(w.resolve_message_sender("lobby", "bob", "did:ma:k51user#pix", false), Ok("pix".to_string()));
    assert_eq!(
        w.resolve_message_sender("attic", "bob", "did:ma:k51other", false),
        Err("Room attic not found".to_string())
    );
}
