use ma_world::acl::EntryAcl;
use ma_world::room::Exit;
use ma_world::world::World;

fn test_world() -> World {
    World::new(
        EntryAcl {
            allow_all: true,
            allow_owner: true,
            allowed_dids: Vec::new(),
            source: "test".to_string(),
        },
        "http://127.0.0.1:5001".to_string(),
        "test-world".to_string(),
    )
}

fn add_exit(world: &mut World, room: &str, id: &str, name: &str, to: &str) {
    for (k, r) in world.rooms.entries.iter_mut() {
        let n: String = k.iter().collect();
        if n == room {
            r.exits.push(Exit { id: id.to_string(), name: name.to_string(), to: to.to_string() });
            return;
        }
    }
    panic!("no room {room}");
}

fn incoming_sources(world: &World, room: &str) -> Vec<(String, String)> {
    for (k, refs) in world.exit_reverse_index.entries.iter() {
        let n: String = k.iter().collect();
        if n == room {
            return refs.iter().map(|r| (r.from_room.clone(), r.exit_name.clone())).collect();
        }
    }
    Vec::new()
}

fn dug_world() -> World {
    let mut world = test_world();
    for name in ["yard", "lobby", "hall"] {
        world.create_room(name.to_string(), "t0").unwrap();
    }
    add_exit(&mut world, "yard", "yard-in", "in", "hall");
    add_exit(&mut world, "lobby", "lobby-north", "north", " hall ");
    add_exit(&mut world, "lobby", "lobby-east", "east", "yard");
    add_exit(&mut world, "lobby", "lobby-void", "void", "   ");
    add_exit(&mut world, "hall", "hall-back", "back", "lobby");
    add_exit(&mut world, "lobby", "lobby-arch", "arch", "hall");
    world
}

#[test]
fn incoming_exits_are_counted_after_rebuild() {
    let mut world = dug_world();
    assert_eq!(world.incoming_exit_count("hall"), 0);
    world.rebuild_exit_reverse_index();
    assert_eq!(world.incoming_exit_count("hall"), 3);
    assert_eq!(world.incoming_exit_count("yard"), 1);
    assert_eq!(world.incoming_exit_count("lobby"), 1);
    assert_eq!(world.incoming_exit_count("nowhere"), 0);
    assert_eq!(world.incoming_exit_count(""), 0);
}

#[test]
fn incoming_exits_are_sorted_by_source_then_name() {
    let mut world = dug_world();
    world.rebuild_exit_reverse_index();
    assert_eq!(
        incoming_sources(&world, "hall"),
        vec![
            ("lobby".to_string(), "arch".to_string()),
            ("lobby".to_string(), "north".to_string()),
            ("yard".to_string(), "in".to_string()),
        ]
    );
    for (_, refs) in world.exit_reverse_index.entries.iter() {
        for r in refs.iter() {
            assert_eq!(r.to, r.to.trim());
        }
    }
}

#[test]
fn index_is_stale_until_rebuilt() {
    let mut world = dug_world();
    world.rebuild_exit_reverse_index();
    add_exit(&mut world, "yard", "yard-up", "up", "lobby");
    assert_eq!(world.incoming_exit_count("lobby"), 1);
    world.rebuild_exit_reverse_index();
    assert_eq!(world.incoming_exit_count("lobby"), 2);
}
