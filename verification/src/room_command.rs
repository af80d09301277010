//! Room commands: replies and the changes an accepted room action makes.
use vstd::prelude::*;
use crate::room::{Room, RoomDispatchTask};
use crate::text::{append_lit, chars_of, seq_added, string_of};
use crate::world::{rooms_same_except, World, MAX_EVENTS};

verus! {

/// A room change that the command interpreter accepted.
pub enum RoomAction {
    /// Allow a DID (canonical id) and lift its denial.
    Invite(String),
    /// Deny a DID and remove its avatar from the room.
    Deny(String),
    /// Remove the avatar with this handle.
    Kick(String),
    /// Make a DID (canonical id) the owner.
    SetOwner(String),
    SetTitle(String),
    SetDescription(String),
}

/// The reply to a room command and the rooms whose stored form changed.
pub struct RoomActionOutcome {
    pub response: String,
    pub changed_rooms: Vec<String>,
}

pub open spec fn owner_cannot_be_denied() -> Seq<char> {
    "@here owner cannot be denied"@
}

/// `@here pong room=<room> by=<who>`.
pub fn room_ping_reply(room_name: &str, who: &str) -> (r: String)
    ensures
        r@ == "@here pong room="@ + room_name@ + " by="@ + who@,
{
    let mut v: Vec<char> = Vec::new();
    append_lit(&mut v, "@here pong room=");
    append_lit(&mut v, room_name);
    append_lit(&mut v, " by=");
    append_lit(&mut v, who);
    string_of(&v)
}

/// The announcement a title or description change makes, by `from`.
pub open spec fn update_announcement(action: RoomAction, from: Seq<char>) -> Option<Seq<char>> {
    match action {
        RoomAction::SetTitle(_) => Some("room title updated by "@ + from),
        RoomAction::SetDescription(_) => Some("room description updated by "@ + from),
        _ => None,
    }
}

/// The room `o` after `action` (the deny of the owner changes nothing).
pub open spec fn acted_room(o: Room, n: Room, action: RoomAction) -> bool {
    match action {
        RoomAction::Invite(d) => {
            &&& n.acl.allow_set() == seq_added(o.acl.allow_set(), d@)
            &&& n.acl.deny_set() == o.acl.deny_set().filter(|e: Seq<char>| e != d@)
            &&& n.acl.owner == o.acl.owner
            &&& n == (Room { acl: n.acl, ..o })
        },
        RoomAction::Deny(d) => if o.acl.owner is Some && o.acl.owner->Some_0@ == d@ {
            n == o
        } else {
            &&& n.acl.deny_set() == seq_added(o.acl.deny_set(), d@)
            &&& n.acl.allow_set() == o.acl.allow_set().filter(|e: Seq<char>| e != d@)
            &&& n.acl.owner == o.acl.owner
            &&& forall|h: Seq<char>| #[trigger] n.avatars@.dom().contains(h) <==> (o.avatars@.dom().contains(h)
                && o.avatars@[h].agent_did@ != d@)
            &&& forall|h: Seq<char>| #[trigger] n.avatars@.dom().contains(h) ==> n.avatars@[h] == o.avatars@[h]
            &&& n == (Room { acl: n.acl, avatars: n.avatars, ..o })
        },
        RoomAction::Kick(h) => {
            &&& n.avatars@ == o.avatars@.remove(h@)
            &&& n == (Room { avatars: n.avatars, ..o })
        },
        RoomAction::SetOwner(d) => {
            &&& n.acl.owner == Some(d)
            &&& n.acl.allow_set() == seq_added(o.acl.allow_set(), d@)
            &&& n.acl.deny_set() == o.acl.deny_set().filter(|e: Seq<char>| e != d@)
            &&& n == (Room { acl: n.acl, ..o })
        },
        RoomAction::SetTitle(t) => {
            &&& n.titles@ == o.titles@.insert(seq!['u', 'n', 'd'], t)
            &&& n == (Room { titles: n.titles, ..o })
        },
        RoomAction::SetDescription(t) => {
            &&& n.descriptions@ == o.descriptions@.insert(seq!['u', 'n', 'd'], t)
            &&& n == (Room { descriptions: n.descriptions, ..o })
        },
    }
}

/// Whether the action changes what is stored of the room.
pub open spec fn action_changes_room(o: Room, action: RoomAction) -> bool {
    match action {
        RoomAction::Kick(_) => false,
        RoomAction::Deny(d) => !(o.acl.owner is Some && o.acl.owner->Some_0@ == d@),
        _ => true,
    }
}


/// Applies `action` to `room`; returns `false` only when it asked to deny the owner.
pub fn apply_to_room(room: &mut Room, action: RoomAction) -> (r: bool)
    requires
        old(room).wf(),
    ensures
        final(room).wf(),
        acted_room(*old(room), *final(room), action),
        r == !(action matches RoomAction::Deny(d) && old(room).acl.owner is Some && old(room).acl.owner->Some_0@ == d@),
        old(room).acl.distinct() ==> final(room).acl.distinct(),
{
    let ghost a = action;
    match action {
        RoomAction::Invite(d) => {
            room.acl.allow_identity(d);
            true
        },
        RoomAction::Deny(d) => {
            let dk = chars_of(d.as_str());
            match room.acl.deny_identity(d) {
                Err(_) => false,
                Ok(()) => {
                    let ghost o = room.avatars;
                    match World::room_has_did(room, &dk) {
                        None => {
                            proof {
                                assert forall|h: Seq<char>| #[trigger] o@.dom().contains(h) implies o@[h].agent_did@ != dk@ by {
                                    if o@[h].agent_did@ == dk@ {
                                        assert(room.has_did(dk@));
                                    }
                                }
                            }
                        },
                        Some(j) => {
                            let (hk0, _av) = room.avatars.entry_at(j);
                            let hk = chars_of(string_of(hk0).as_str());
                            let _ = room.avatars.remove(&hk);
                            proof {
                                assert forall|h: Seq<char>| o@.dom().contains(h) && h != hk@ implies #[trigger] o@[h].agent_did@ != dk@ by {
                                    assert(o@[h].agent_did@ != o@[hk@].agent_did@);
                                }
                                let n = room.avatars@;
                                assert forall|h1: Seq<char>, h2: Seq<char>|
                                    n.dom().contains(h1) && n.dom().contains(h2) && h1 != h2
                                    implies #[trigger] n[h1].agent_did@ != #[trigger] n[h2].agent_did@ by {
                                    assert(o@[h1].agent_did@ != o@[h2].agent_did@);
                                }
                            }
                        },
                    }
                    true
                },
            }
        },
        RoomAction::Kick(h) => {
            let hk = chars_of(h.as_str());
            let ghost o = room.avatars;
            let _ = room.avatars.remove(&hk);
            proof {
                let n = room.avatars@;
                assert forall|h1: Seq<char>, h2: Seq<char>|
                    n.dom().contains(h1) && n.dom().contains(h2) && h1 != h2
                    implies #[trigger] n[h1].agent_did@ != #[trigger] n[h2].agent_did@ by {
                    assert(o@[h1].agent_did@ != o@[h2].agent_did@);
                }
            }
            true
        },
        RoomAction::SetOwner(d) => {
            room.acl.set_owner(d);
            true
        },
        RoomAction::SetTitle(t) => {
            room.set_title(t);
            true
        },
        RoomAction::SetDescription(t) => {
            room.set_description(t);
            true
        },
    }
}


impl World {
    /// Applies an accepted room action to `room_name`; `response` is the reply the
    /// command interpreter chose. Title and description changes are announced in the
    /// room by `from`.
    pub fn apply_room_action(
        &mut self,
        room_name: &str,
        action: RoomAction,
        response: String,
        from: &str,
        caller_did: Option<String>,
        now_text: &str,
    ) -> (r: RoomActionOutcome)
        requires
            old(self).wf(),
            old(self).rooms@.dom().contains(room_name@) ==> old(self).rooms@[room_name@].state.next_event_sequence < u64::MAX,
        ensures
            final(self).wf(),
            !old(self).rooms@.dom().contains(room_name@) ==> {
                &&& final(self).rooms@ == old(self).rooms@
                &&& r.response == response
                &&& r.changed_rooms@.len() == 0
            },
            old(self).rooms@.dom().contains(room_name@) ==> {
                let o = old(self).rooms@[room_name@];
                let n = final(self).rooms@[room_name@];
                &&& rooms_same_except(old(self).rooms@, final(self).rooms@, room_name@)
                &&& r.response@ == if action matches RoomAction::Deny(d) && o.acl.owner is Some && o.acl.owner->Some_0@ == d@ {
                    owner_cannot_be_denied()
                } else {
                    response@
                }
                &&& action_changes_room(o, action) ==> r.changed_rooms@.len() == 1 && r.changed_rooms@[0]@ == room_name@
                &&& !action_changes_room(o, action) ==> r.changed_rooms@.len() == 0
                &&& update_announcement(action, from@) is None ==> acted_room(o, n, action)
                &&& update_announcement(action, from@) is Some ==> {
                    let e = n.state.events@.last();
                    &&& acted_room(o, Room { state: o.state, ..n }, action)
                    &&& n.state.next_event_sequence == o.state.next_event_sequence + 1
                    &&& n.state.events@ == crate::world::pushed_events(o.state.events@, MAX_EVENTS, e)
                    &&& n.state.dispatch_queue@ == o.state.dispatch_queue@.push(
                        RoomDispatchTask::RoomEventsSince(o.state.next_event_sequence))
                    &&& n.state.avatars == o.state.avatars
                    &&& n.state.avatar_ttl_secs == o.state.avatar_ttl_secs
                    &&& e.sequence == n.state.next_event_sequence
                    &&& e.kind@ == "room.update"@
                    &&& e.sender is Some && e.sender->Some_0@ == from@
                    &&& e.sender_did == caller_did
                    &&& e.message@ == update_announcement(action, from@)->Some_0
                }
            },
            final(self).entry_acl == old(self).entry_acl,
            final(self).owner_did == old(self).owner_did,
            final(self).handle_to_did == old(self).handle_to_did,
            final(self).did_to_handle == old(self).did_to_handle,
            final(self).avatar_room_index == old(self).avatar_room_index,
            final(self).world_ipns == old(self).world_ipns,
            final(self).knock_inbox == old(self).knock_inbox,
            final(self).room_cids == old(self).room_cids,
            final(self).exit_reverse_index == old(self).exit_reverse_index,
            final(self).avatar_registry == old(self).avatar_registry,
            final(self).events == old(self).events,
            final(self).avatar_presence_ttl_secs == old(self).avatar_presence_ttl_secs,
    {
        let rk = chars_of(room_name);
        let i = match self.rooms.find(&rk) {
            None => {
                return RoomActionOutcome { response, changed_rooms: Vec::new() };
            },
            Some(i) => i,
        };
        let ghost a = action;
        let (announce, kind_changes) = match &action {
            RoomAction::SetTitle(_) => (1u8, true),
            RoomAction::SetDescription(_) => (2u8, true),
            RoomAction::Kick(_) => (0u8, false),
            _ => (0u8, true),
        };
        let ghost orooms = self.rooms@;
        let (k, mut room) = self.rooms.take_at(i);
        let ghost ro = room;
        let applied = apply_to_room(&mut room, action);
        let ghost nr = room;
        proof {
            assert(orooms.remove(rk@).insert(rk@, nr) =~= orooms.insert(rk@, nr));
            assert forall|d: Seq<char>| #[trigger] nr.has_did(d) implies orooms[rk@].has_did(d) by {
                let h = choose|h: Seq<char>| #[trigger] nr.avatars@.dom().contains(h) && nr.avatars@[h].agent_did@ == d;
                assert(ro.avatars@.dom().contains(h));
            }
            crate::world::lemma_single_membership_shrink(orooms, rk@, nr);
        }
        self.rooms.insert_at(i, k, room);
        let mut changed: Vec<String> = Vec::new();
        let out_response = if applied {
            response
        } else {
            proof {
                reveal_strlit("@here owner cannot be denied");
            }
            String::from_str("@here owner cannot be denied")
        };
        if kind_changes && applied {
            changed.push(String::from_str(room_name));
        }
        if announce != 0 {
            let mut msg: Vec<char> = Vec::new();
            if announce == 1 {
                append_lit(&mut msg, "room title updated by ");
            } else {
                append_lit(&mut msg, "room description updated by ");
            }
            append_lit(&mut msg, from);
            let ms = string_of(&msg);
            proof {
                reveal_strlit("room.update");
            }
            let _ = self.record_room_event(room_name, "room.update", Some(String::from_str(from)), caller_did, None, ms, now_text);
        }
        RoomActionOutcome { response: out_response, changed_rooms: changed }
    }

    /// `say`: records `speech` (already normalized) as a speech event of `from` in the
    /// room; an empty speech gets `@here say what?`.
    pub fn room_say(&mut self, room_name: &str, from: &str, caller_did: Option<String>, speech: &str, now_text: &str) -> (r: String)
        requires
            old(self).wf(),
            old(self).rooms@.dom().contains(room_name@) ==> old(self).rooms@[room_name@].state.next_event_sequence < u64::MAX,
        ensures
            final(self).wf(),
            speech@.len() == 0 ==> r@ == "@here say what?"@ && final(self).rooms@ == old(self).rooms@
                && final(self).events == old(self).events,
            speech@.len() > 0 ==> {
                &&& r@ == from@ + ": "@ + speech@
                &&& final(self).events@.last()@ == now_text@ + seq![' '] + ("["@ + room_name@ + "] "@ + from@ + ": "@ + speech@)
                &&& rooms_same_except(old(self).rooms@, final(self).rooms@, room_name@)
                &&& old(self).rooms@.dom().contains(room_name@) ==> {
                    let e = final(self).rooms@[room_name@].state.events@.last();
                    &&& e.kind@ == "speech"@
                    &&& e.sender is Some && e.sender->Some_0@ == from@
                    &&& e.sender_did == caller_did
                    &&& e.message@ == speech@
                    &&& e.sequence == old(self).rooms@[room_name@].state.next_event_sequence + 1
                }
            },
            final(self).entry_acl == old(self).entry_acl,
            final(self).owner_did == old(self).owner_did,
            final(self).handle_to_did == old(self).handle_to_did,
            final(self).did_to_handle == old(self).did_to_handle,
            final(self).knock_inbox == old(self).knock_inbox,
            final(self).room_cids == old(self).room_cids,
            final(self).exit_reverse_index == old(self).exit_reverse_index,
            final(self).avatar_registry == old(self).avatar_registry,
    {
        self.room_speak(room_name, from, caller_did, speech, now_text, false)
    }

    /// `emote`: records `action` (already normalized) as an emote event of `from`; an
    /// empty action gets `@here emote what?`.
    pub fn room_emote(&mut self, room_name: &str, from: &str, caller_did: Option<String>, action: &str, now_text: &str) -> (r: String)
        requires
            old(self).wf(),
            old(self).rooms@.dom().contains(room_name@) ==> old(self).rooms@[room_name@].state.next_event_sequence < u64::MAX,
        ensures
            final(self).wf(),
            action@.len() == 0 ==> r@ == "@here emote what?"@ && final(self).rooms@ == old(self).rooms@
                && final(self).events == old(self).events,
            action@.len() > 0 ==> {
                &&& r@ == "* "@ + from@ + " "@ + action@
                &&& final(self).events@.last()@ == now_text@ + seq![' '] + ("["@ + room_name@ + "] * "@ + from@ + " "@ + action@)
                &&& rooms_same_except(old(self).rooms@, final(self).rooms@, room_name@)
                &&& old(self).rooms@.dom().contains(room_name@) ==> {
                    let e = final(self).rooms@[room_name@].state.events@.last();
                    &&& e.kind@ == "emote"@
                    &&& e.sender is Some && e.sender->Some_0@ == from@
                    &&& e.sender_did == caller_did
                    &&& e.message@ == action@
                    &&& e.sequence == old(self).rooms@[room_name@].state.next_event_sequence + 1
                }
            },
            final(self).entry_acl == old(self).entry_acl,
            final(self).owner_did == old(self).owner_did,
            final(self).handle_to_did == old(self).handle_to_did,
            final(self).did_to_handle == old(self).did_to_handle,
            final(self).knock_inbox == old(self).knock_inbox,
            final(self).room_cids == old(self).room_cids,
            final(self).exit_reverse_index == old(self).exit_reverse_index,
            final(self).avatar_registry == old(self).avatar_registry,
    {
        self.room_speak(room_name, from, caller_did, action, now_text, true)
    }

    fn room_speak(&mut self, room_name: &str, from: &str, caller_did: Option<String>, text: &str, now_text: &str, emote: bool) -> (r: String)
        requires
            old(self).wf(),
            old(self).rooms@.dom().contains(room_name@) ==> old(self).rooms@[room_name@].state.next_event_sequence < u64::MAX,
        ensures
            final(self).wf(),
            text@.len() == 0 ==> r@ == (if emote { "@here emote what?"@ } else { "@here say what?"@ })
                && final(self).rooms@ == old(self).rooms@ && final(self).events == old(self).events,
            text@.len() > 0 ==> {
                &&& r@ == (if emote { "* "@ + from@ + " "@ + text@ } else { from@ + ": "@ + text@ })
                &&& final(self).events@.last()@ == now_text@ + seq![' '] + (if emote {
                    "["@ + room_name@ + "] * "@ + from@ + " "@ + text@
                } else {
                    "["@ + room_name@ + "] "@ + from@ + ": "@ + text@
                })
                &&& rooms_same_except(old(self).rooms@, final(self).rooms@, room_name@)
                &&& old(self).rooms@.dom().contains(room_name@) ==> {
                    let e = final(self).rooms@[room_name@].state.events@.last();
                    &&& e.kind@ == (if emote { "emote"@ } else { "speech"@ })
                    &&& e.sender is Some && e.sender->Some_0@ == from@
                    &&& e.sender_did == caller_did
                    &&& e.message@ == text@
                    &&& e.sequence == old(self).rooms@[room_name@].state.next_event_sequence + 1
                }
            },
            final(self).entry_acl == old(self).entry_acl,
            final(self).owner_did == old(self).owner_did,
            final(self).handle_to_did == old(self).handle_to_did,
            final(self).did_to_handle == old(self).did_to_handle,
            final(self).knock_inbox == old(self).knock_inbox,
            final(self).room_cids == old(self).room_cids,
            final(self).exit_reverse_index == old(self).exit_reverse_index,
            final(self).avatar_registry == old(self).avatar_registry,
    {
        if text.unicode_len() == 0 {
            if emote {
                return String::from_str("@here emote what?");
            } else {
                return String::from_str("@here say what?");
            }
        }
        let mut line: Vec<char> = Vec::new();
        append_lit(&mut line, "[");
        append_lit(&mut line, room_name);
        if emote {
            append_lit(&mut line, "] * ");
            append_lit(&mut line, from);
            append_lit(&mut line, " ");
        } else {
            append_lit(&mut line, "] ");
            append_lit(&mut line, from);
            append_lit(&mut line, ": ");
        }
        append_lit(&mut line, text);
        let ls = string_of(&line);
        self.record_event(now_text, ls.as_str());
        proof {
            reveal_strlit("[");
            reveal_strlit("] * ");
            reveal_strlit("] ");
            reveal_strlit(" ");
            reveal_strlit(": ");
            assert(ls@ =~= (if emote {
                "["@ + room_name@ + "] * "@ + from@ + " "@ + text@
            } else {
                "["@ + room_name@ + "] "@ + from@ + ": "@ + text@
            }));
        }
        let kind = if emote { "emote" } else { "speech" };
        let _ = self.record_room_event(room_name, kind, Some(String::from_str(from)), caller_did, None, String::from_str(text), now_text);
        let mut reply: Vec<char> = Vec::new();
        if emote {
            append_lit(&mut reply, "* ");
            append_lit(&mut reply, from);
            append_lit(&mut reply, " ");
        } else {
            append_lit(&mut reply, from);
            append_lit(&mut reply, ": ");
        }
        append_lit(&mut reply, text);
        proof {
            reveal_strlit("* ");
            assert(reply@ =~= (if emote { "* "@ + from@ + " "@ + text@ } else { from@ + ": "@ + text@ }));
        }
        string_of(&reply)
    }
}

} // verus!
