use ma_world::acl::EntryAcl;
use ma_world::avatar::AvatarRequest;
use ma_world::avatar_self::{avatar_ping_reply, parse_avatar_command_text, parse_use_args, AvatarCommandText};
use ma_world::world::World;

fn world() -> World {
    let mut w = World::new(
        EntryAcl {
            allow_all: true,
            allow_owner: true,
            allowed_dids: Vec::new(),
            source: "t".to_string(),
        },
        "http://k".to_string(),
        "pin".to_string(),
    );
    w.create_room("lobby".to_string(), "t0").unwrap();
    let req = AvatarRequest {
        did: "did:ma:k51world#pix".to_string(),
        did_fragment: "pix".to_string(),
        owner: "did:ma:k51user".to_string(),
        agent_endpoint: "ep".to_string(),
        language_order: "en_UK".to_string(),
        signing_secret: [0u8; 32],
        encryption_pubkey_multibase: None,
    };
    w.join_room("lobby", req, Some("pix".to_string()), 10, "t1").unwrap();
    w
}

#[test]
fn avatar_command_words() {
    assert!(matches!(parse_avatar_command_text(" PING "), AvatarCommandText::Ping));
    match parse_avatar_command_text("prop .name x") {
        AvatarCommandText::Prop(r) => assert_eq!(r, ".name x"),
        other => panic!("{other:?}"),
    }
    match parse_avatar_command_text("unuse   @lamp  ") {
        AvatarCommandText::Unuse(a) => assert_eq!(a, "@lamp"),
        other => panic!("{other:?}"),
    }
    match parse_avatar_command_text("lang nb; en") {
        AvatarCommandText::Language(l) => assert_eq!(l, "nb; en"),
        other => panic!("{other:?}"),
    }
    assert!(matches!(parse_avatar_command_text("Language Show"), AvatarCommandText::LanguageShow));
    assert!(matches!(parse_avatar_command_text("WHO"), AvatarCommandText::Show));
    assert!(matches!(parse_avatar_command_text("look"), AvatarCommandText::Other));
    assert_eq!(avatar_ping_reply("lobby", "pix"), "pong room=lobby handle=pix");
}

#[test]
fn use_arguments() {
    assert_eq!(parse_use_args(" lamp  as  @l "), Ok(("lamp".to_string(), "@l".to_string())));
    assert_eq!(parse_use_args("lamp as l"), Err("usage: use <object|did:ma:...#object> as @alias".to_string()));
    assert_eq!(parse_use_args("lamp"), Err("usage: use <object|did:ma:...#object> as @alias".to_string()));
}

#[test]
fn describing_and_showing() {
    let mut w = world();
    assert_eq!(w.avatar_describe("lobby", "pix", "   "), "@avatar describe requires text");
    assert_eq!(w.avatar_describe("lobby", "bob", "tall"), "@avatar 'bob' not found");
    assert_eq!(w.avatar_describe("attic", "pix", "tall"), "@here room 'attic' not found");
    assert_eq!(w.avatar_describe("lobby", "pix", " tall and green "), "@avatar owner=did:ma:k51user desc=tall and green");
    assert_eq!(
        w.avatar_show("lobby", "pix", &Some("pix".to_string())),
        "@ .avatar.name pix\n@ .avatar.description tall and green\n@ .avatar.owner did:ma:k51user\n@ .avatar.fragment #pix\n@ .avatar.acl *\n@ .avatar.shortcuts (none)"
    );
    assert_eq!(w.avatar_language_show("lobby", "pix"), "@avatar language=en_UK");
}

#[test]
fn languages_and_shortcuts() {
    let mut w = world();
    assert_eq!(
        w.avatar_set_language("lobby", "pix", ""),
        "@avatar usage: language <ordered-list> (example: nb_NO; en_UK, en; nn_NO)"
    );
    assert_eq!(
        w.avatar_set_language("lobby", "pix", "fr"),
        "@avatar language rejected. supported=en_UK, nb_NO. Set language here, or leave."
    );
    assert_eq!(w.avatar_set_language("lobby", "pix", "nb, en"), "@avatar language set to nb_NO;en_UK");
    assert_eq!(w.avatar_language_show("lobby", "pix"), "@avatar language=nb_NO;en_UK");

    assert_eq!(
        w.avatar_bind_shortcut("lobby", "pix", "@Lamp", "obj1", "did:ma:k51world#obj1"),
        "bound @Lamp -> did:ma:k51world#obj1 (object_id=obj1) shortcuts=[@lamp->obj1]"
    );
    assert_eq!(
        w.avatar_bind_shortcut("lobby", "pix", "@bad alias", "obj1", "did:ma:k51world#obj1"),
        "invalid alias '@bad alias'. Use @alias with [A-Za-z0-9_-]."
    );
    assert_eq!(w.avatar_unuse("lobby", "pix", ""), "usage: unuse @alias");
    assert_eq!(w.avatar_unuse("lobby", "pix", "@lamp"), "removed shortcut @lamp shortcuts=[(none)]");
    assert_eq!(w.avatar_unuse("lobby", "pix", "@lamp"), "shortcut @lamp not found");
}

#[test]
fn avatar_properties() {
    let mut w = world();
    let base = "did:ma:k51user";
    assert_eq!(
        w.avatar_property("lobby", "pix", base, "  ", ""),
        "@avatar usage: @avatar.<name|description|owner|fragment|lang> [value] | @avatar.#<selector>.<name|description|owner|fragment|lang>"
    );
    assert_eq!(w.avatar_property("lobby", "pix", base, "name", ""), "pix");
    assert_eq!(w.avatar_property("lobby", "pix", base, "#PIX.Lang", ""), "en_UK");
    assert_eq!(w.avatar_property("lobby", "pix", base, "#nobody.name", ""), "@avatar selector '#nobody' not found in room");
    assert_eq!(w.avatar_property("attic", "pix", base, "#pix.name", ""), "@here room 'attic' not found");
    assert_eq!(w.avatar_property("lobby", "bob", base, "name", ""), "@avatar 'bob' not found");
    assert_eq!(w.avatar_property("lobby", "pix", base, "fragment", ""), "#pix");
    assert_eq!(
        w.avatar_property("lobby", "pix", base, "color", ""),
        "@avatar unknown attribute 'color'. Allowed: name, description, owner, fragment, lang"
    );
    assert_eq!(w.avatar_property("lobby", "pix", "did:ma:k51other", "description", "hi"), "You don't have access to this.");
    assert_eq!(w.avatar_property("lobby", "pix", base, "description", "hello"), "@avatar.description hello");
    assert_eq!(w.avatar_property("lobby", "pix", base, "description", ""), "hello");
    assert_eq!(w.avatar_property("lobby", "pix", base, "lang", "nb"), "nb_NO");
    assert_eq!(w.avatar_property("lobby", "pix", base, "language", ""), "nb_NO");
    assert_eq!(
        w.avatar_property("lobby", "pix", base, "name", "x"),
        "@avatar.name is read-only in runtime; set alias/fragment at identity bootstrap."
    );
    assert_eq!(
        w.avatar_property("lobby", "pix", base, "#pix.name", "x"),
        "@avatar.name update requires self target (@avatar.name <value>)"
    );
    assert_eq!(w.avatar_property("lobby", "pix", base, "owner", "x"), "@avatar.owner is read-only");
    assert_eq!(
        w.avatar_property("lobby", "pix", base, "_list", ""),
        "@ .avatar.name pix\n@ .avatar.description hello\n@ .avatar.owner did:ma:k51user\n@ .avatar.fragment #pix\n@ .avatar.lang nb_NO\n@ .avatar.acl *\n@ .avatar.shortcuts (none)"
    );
}
