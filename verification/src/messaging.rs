//! Who speaks in a room: the handle a message is sent under.
use vstd::prelude::*;
use crate::text::{
    append_lit, chars_eq_lit, chars_of, class_pred, lower_chars, lower_seq, string_of, trim, trim_start_by,
    trim_start_class, trim_white, CharClass,
};
use crate::world::{handle_of, World};

verus! {

/// Targets whose commands need the sender to be present in the room under its handle.
pub open spec fn presence_target(t: Seq<char>) -> bool {
    let l = lower_seq(trim(t));
    l == "avatar"@ || l == "me"@ || l == "self"@ || l == "here"@ || l == "room"@ || l == "world"@
}

/// Whether the sender of a message must be present under the handle it gives: always,
/// but for an actor command whose target (`Some`) is not one of the local aliases.
pub fn sender_presence_required(actor_target: Option<&str>) -> (r: bool)
    ensures
        r == match actor_target {
            Some(t) => presence_target(t@),
            None => true,
        },
{
    match actor_target {
        None => true,
        Some(t) => {
            let l = lower_chars(&trim_white(&chars_of(t)));
            chars_eq_lit(&l, "avatar") || chars_eq_lit(&l, "me") || chars_eq_lit(&l, "self")
                || chars_eq_lit(&l, "here") || chars_eq_lit(&l, "room") || chars_eq_lit(&l, "world")
        },
    }
}

/// The handle `from` as written: trimmed, without leading `@`.
pub open spec fn from_handle(from: Seq<char>) -> Seq<char> {
    trim_start_by(trim(from), class_pred(CharClass::Is('@')))
}

/// The handle a message from `from` with DID `sender` is sent under in `room_name`, or
/// why it cannot be: the room is missing, the handle belongs to another DID, or (where
/// presence is required) the sender has no avatar there.
pub open spec fn sender_key(w: World, room_name: Seq<char>, from: Seq<char>, sender: Seq<char>, presence: bool) -> Result<Seq<char>, Seq<char>> {
    let f = from_handle(from);
    if !w.rooms@.dom().contains(room_name) {
        Err("Room "@ + room_name + " not found"@)
    } else {
        let room = w.rooms@[room_name];
        if !presence {
            if room.has_did(sender) {
                Ok(handle_of(room, sender))
            } else if f.len() > 0 {
                Ok(f)
            } else {
                Ok(sender)
            }
        } else if room.avatars@.dom().contains(f) {
            if room.avatars@[f].agent_did@ == sender {
                Ok(f)
            } else {
                Err("sender DID mismatch for @"@ + f + " in room "@ + room_name)
            }
        } else if room.has_did(sender) {
            Ok(handle_of(room, sender))
        } else {
            Err("unknown avatar @"@ + f + " in room "@ + room_name)
        }
    }
}

impl World {
    /// The handle a message is sent under (see `sender_key`).
    pub fn resolve_message_sender(&self, room_name: &str, from: &str, sender_did: &str, presence_required: bool) -> (r: Result<String, String>)
        requires
            self.wf(),
        ensures
            match r {
                Ok(k) => sender_key(*self, room_name@, from@, sender_did@, presence_required) == Ok::<Seq<char>, Seq<char>>(k@),
                Err(e) => sender_key(*self, room_name@, from@, sender_did@, presence_required) == Err::<Seq<char>, Seq<char>>(e@),
            },
    {
        let f = trim_start_class(&trim_white(&chars_of(from)), &CharClass::Is('@'));
        let rk = chars_of(room_name);
        let room = match self.rooms.get(&rk) {
            None => {
                let mut m: Vec<char> = Vec::new();
                append_lit(&mut m, "Room ");
                append_lit(&mut m, room_name);
                append_lit(&mut m, " not found");
                return Err(string_of(&m));
            },
            Some(room) => room,
        };
        proof {
            assert(room.wf());
        }
        let d = chars_of(sender_did);
        if presence_required {
            match room.avatars.get(&f) {
                Some(a) => {
                    if crate::text::str_eq(a.agent_did.as_str(), sender_did) {
                        return Ok(string_of(&f));
                    }
                    let mut m: Vec<char> = Vec::new();
                    append_lit(&mut m, "sender DID mismatch for @");
                    crate::text::append_chars(&mut m, &f);
                    append_lit(&mut m, " in room ");
                    append_lit(&mut m, room_name);
                    return Err(string_of(&m));
                },
                None => {},
            }
        }
        match World::room_has_did(room, &d) {
            Some(j) => {
                let (h, _) = room.avatars.entry_at(j);
                proof {
                    crate::text_map::lemma_wf_index(room.avatars, j as int);
                    crate::world::lemma_handle_of(*room, d@, h@);
                }
                Ok(string_of(h))
            },
            None => {
                if !presence_required {
                    if f.len() > 0 {
                        Ok(string_of(&f))
                    } else {
                        Ok(String::from_str(sender_did))
                    }
                } else {
                    let mut m: Vec<char> = Vec::new();
                    append_lit(&mut m, "unknown avatar @");
                    crate::text::append_chars(&mut m, &f);
                    append_lit(&mut m, " in room ");
                    append_lit(&mut m, room_name);
                    Err(string_of(&m))
                }
            },
        }
    }
}

} // verus!
