//! Where a command sent to an actor goes: the world, a room, the sender's own avatar, or
//! the objects and avatars of the room.
use vstd::prelude::*;
use crate::text::{append_lit, chars_eq_lit, chars_of, lower_chars, lower_seq, string_of, trim, trim_white};
use crate::world::World;

verus! {

/// A command to an actor, as the sender wrote it.
pub enum ActorCommand {
    Say(String),
    Emote(String),
    Raw(String),
}

/// A target that parsed as a DID: its canonical id, IPNS name, fragment and root id.
pub struct TargetDid {
    pub id: String,
    pub ipns: String,
    pub fragment: Option<String>,
    pub base_id: String,
}

pub enum ActorRoute {
    /// `@here`, `@me` and the like reached the world unresolved: the reply.
    LocalAlias(String),
    /// A world command.
    World(String),
    /// A command for the named room.
    Room(String, String),
    /// A command for the sender's own avatar.
    Avatar,
    /// Anything else: debug queries, objects and other avatars of the room.
    Other,
}

pub open spec fn local_alias_reply() -> Seq<char> {
    "actor-local aliases (@here/@world/@me/@avatar) must be resolved to DID before send"@
}

/// The aliases an actor resolves on its side, in lower case.
pub open spec fn is_local_alias(t: Seq<char>) -> bool {
    let l = lower_seq(t);
    ||| l == "@here"@ ||| l == "here"@ ||| l == "room"@
    ||| l == "@world"@ ||| l == "world"@
    ||| l == "@me"@ ||| l == "me"@ ||| l == "self"@
    ||| l == "@avatar"@ ||| l == "avatar"@
}

/// The command text a world or a room receives.
pub open spec fn command_text(c: ActorCommand) -> Seq<char> {
    match c {
        ActorCommand::Say(p) => "say "@ + trim(p@),
        ActorCommand::Emote(p) => "emote "@ + trim(p@),
        ActorCommand::Raw(c) => trim(c@),
    }
}

pub open spec fn or_default(s: Seq<char>, d: Seq<char>) -> Seq<char> {
    if s.len() == 0 { d } else { s }
}

/// The route of a command from `from` (handle) with DID `caller_did` in `room_name` to
/// `target`, which parsed as `did` where it is a DID.
pub open spec fn actor_route_spec(
    w: World,
    room_name: Seq<char>,
    from: Seq<char>,
    caller_did: Seq<char>,
    target: Seq<char>,
    did: Option<TargetDid>,
    cmd: ActorCommand,
    r: ActorRoute,
) -> bool {
    let t = trim(target);
    if is_local_alias(t) {
        r matches ActorRoute::LocalAlias(m) && m@ == local_alias_reply()
    } else {
        match did {
            None => r is Other,
            Some(d) => {
                let local = w.world_ipns is Some && w.world_ipns->Some_0@ == d.ipns@;
                let names_world = t.len() > 0 && w.world_did is Some
                    && (w.world_did->Some_0@ == t
                        || crate::text::before_first(w.world_did->Some_0@, crate::text::class_pred(crate::text::CharClass::Is('#'))) == t);
                let room_target = d.fragment is Some && w.rooms@.dom().contains(d.fragment->Some_0@);
                let owner_match = w.rooms@.dom().contains(room_name) && w.rooms@[room_name].avatars@.dom().contains(from)
                    && w.rooms@[room_name].avatars@[from].owner@ == d.base_id@;
                if local && (d.fragment is None || names_world) {
                    r matches ActorRoute::World(c) && c@ == or_default(command_text(cmd), "_list"@)
                } else if local && room_target {
                    r matches ActorRoute::Room(rm, c) && rm@ == d.fragment->Some_0@
                        && c@ == or_default(command_text(cmd), "show"@)
                } else if d.id@ == caller_did || owner_match {
                    r is Avatar
                } else {
                    r is Other
                }
            },
        }
    }
}

fn is_alias(t: &Vec<char>) -> (r: bool)
    ensures
        r == is_local_alias(t@),
{
    let l = lower_chars(t);
    chars_eq_lit(&l, "@here") || chars_eq_lit(&l, "here") || chars_eq_lit(&l, "room")
        || chars_eq_lit(&l, "@world") || chars_eq_lit(&l, "world")
        || chars_eq_lit(&l, "@me") || chars_eq_lit(&l, "me") || chars_eq_lit(&l, "self")
        || chars_eq_lit(&l, "@avatar") || chars_eq_lit(&l, "avatar")
}

/// What a world or a room receives of a spoken line keeps its verb: an emote arrives as
/// `emote ` and the trimmed payload, a saying as `say ` and the trimmed payload, never as
/// the default word.
pub proof fn law_speech_keeps_its_verb(c: ActorCommand, default: Seq<char>)
    ensures
        c is Emote ==> or_default(command_text(c), default) == "emote "@ + trim(c->Emote_0@),
        c is Say ==> or_default(command_text(c), default) == "say "@ + trim(c->Say_0@),
{
    reveal_strlit("emote ");
    reveal_strlit("say ");
    assert(("emote "@ + trim(c->Emote_0@)).len() >= 6);
    assert(("say "@ + trim(c->Say_0@)).len() >= 4);
}

fn command_string(cmd: &ActorCommand, default: &str) -> (r: String)
    ensures
        r@ == or_default(command_text(*cmd), default@),
        *cmd is Emote ==> r@ == "emote "@ + trim(cmd->Emote_0@),
        *cmd is Say ==> r@ == "say "@ + trim(cmd->Say_0@),
        *cmd is Raw ==> r@ == (if trim(cmd->Raw_0@).len() == 0 { default@ } else { trim(cmd->Raw_0@) }),
{
    proof {
        law_speech_keeps_its_verb(*cmd, default@);
    }
    let mut v: Vec<char> = Vec::new();
    match cmd {
        ActorCommand::Say(p) => {
            append_lit(&mut v, "say ");
            let t = trim_white(&chars_of(p.as_str()));
            crate::text::append_chars(&mut v, &t);
        },
        ActorCommand::Emote(p) => {
            append_lit(&mut v, "emote ");
            let t = trim_white(&chars_of(p.as_str()));
            crate::text::append_chars(&mut v, &t);
        },
        ActorCommand::Raw(c) => {
            let t = trim_white(&chars_of(c.as_str()));
            crate::text::append_chars(&mut v, &t);
        },
    }
    if v.len() == 0 {
        return String::from_str(default);
    }
    string_of(&v)
}

impl World {
    /// Decides where a command to `target` goes (see `actor_route_spec`).
    pub fn route_actor_command(
        &self,
        room_name: &str,
        from: &str,
        caller_did: &str,
        target: &str,
        did: &Option<TargetDid>,
        cmd: &ActorCommand,
    ) -> (r: ActorRoute)
        requires
            self.wf(),
        ensures
            actor_route_spec(*self, room_name@, from@, caller_did@, target@, *did, *cmd, r),
            (r is World && *cmd is Emote) ==> r->World_0@ == "emote "@ + trim(cmd->Emote_0@),
            (r is World && *cmd is Say) ==> r->World_0@ == "say "@ + trim(cmd->Say_0@),
            (r is Room && *cmd is Emote) ==> r->Room_1@ == "emote "@ + trim(cmd->Emote_0@),
            (r is Room && *cmd is Say) ==> r->Room_1@ == "say "@ + trim(cmd->Say_0@),
            (r is World && *cmd is Raw) ==> r->World_0@ == (if trim(cmd->Raw_0@).len() == 0 {
                "_list"@
            } else {
                trim(cmd->Raw_0@)
            }),
            (r is Room && *cmd is Raw) ==> r->Room_1@ == (if trim(cmd->Raw_0@).len() == 0 {
                "show"@
            } else {
                trim(cmd->Raw_0@)
            }),
    {
        let t = trim_white(&chars_of(target));
        if is_alias(&t) {
            return ActorRoute::LocalAlias(String::from_str(
                "actor-local aliases (@here/@world/@me/@avatar) must be resolved to DID before send",
            ));
        }
        let d = match did {
            None => {
                return ActorRoute::Other;
            },
            Some(d) => d,
        };
        let local = self.is_local_world_ipns(d.ipns.as_str());
        if local {
            let names_world = self.is_world_target_did(target);
            if d.fragment.is_none() || names_world {
                proof {
                    reveal_strlit("_list");
                }
                return ActorRoute::World(command_string(cmd, "_list"));
            }
            match &d.fragment {
                Some(f) => {
                    let fk = chars_of(f.as_str());
                    if self.rooms.contains_key(&fk) {
                        proof {
                            reveal_strlit("show");
                        }
                        return ActorRoute::Room(f.clone(), command_string(cmd, "show"));
                    }
                },
                None => {},
            }
        }
        if crate::text::str_eq(d.id.as_str(), caller_did) {
            return ActorRoute::Avatar;
        }
        let rk = chars_of(room_name);
        match self.rooms.get(&rk) {
            Some(room) => {
                proof {
                    assert(room.wf());
                }
                let fk = chars_of(from);
                match room.avatars.get(&fk) {
                    Some(a) => {
                        if crate::text::str_eq(a.owner.as_str(), d.base_id.as_str()) {
                            return ActorRoute::Avatar;
                        }
                    },
                    None => {},
                }
            },
            None => {},
        }
        ActorRoute::Other
    }
}

/// The reply of a `debug` command to an avatar: its DID, room, handle, endpoint and
/// description, one `@debug` line each.
pub fn avatar_debug_reply(room: &str, handle: &str, did: &str, endpoint: &str, description: &str) -> (r: String)
    ensures
        r@ == "@debug kind=avatar\n@debug did="@ + did@ + "\n@debug room="@ + room@ + "\n@debug handle="@ + handle@
            + "\n@debug endpoint="@ + endpoint@ + "\n@debug description="@ + description@,
{
    let mut v: Vec<char> = Vec::new();
    append_lit(&mut v, "@debug kind=avatar\n@debug did=");
    append_lit(&mut v, did);
    append_lit(&mut v, "\n@debug room=");
    append_lit(&mut v, room);
    append_lit(&mut v, "\n@debug handle=");
    append_lit(&mut v, handle);
    append_lit(&mut v, "\n@debug endpoint=");
    append_lit(&mut v, endpoint);
    append_lit(&mut v, "\n@debug description=");
    append_lit(&mut v, description);
    string_of(&v)
}

} // verus!
