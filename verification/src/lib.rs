//! Rooms, avatars, access control and language handling of a `did:ma` world.
pub mod text;
pub mod text_map;
pub mod acl;
pub mod avatar;
pub mod room;
pub mod world;
pub mod codec;
pub mod room_command;
pub mod knock;
pub mod lang;
pub mod paths;
pub mod schema;
pub mod content;
pub mod cli;
pub mod world_settings;
pub mod keys;
pub mod world_admin;
pub mod world_commands;
pub mod world_secrets;
pub mod actor_route;
pub mod room_query;
pub mod cli_parse;
pub mod startup;
pub mod avatar_entry;
pub mod messaging;
pub mod avatar_self;
pub mod avatar_prop;
pub mod world_load;
pub mod exits;
pub mod publish;
pub mod world_dispatch;
pub mod registry;
pub mod snapshot;
pub mod inspect;
pub mod avatar_commands;
pub mod avatar_move;
