//! Moving an avatar through an exit.
use vstd::prelude::*;
use crate::avatar::Avatar;
use crate::room::Room;
use crate::text::{append_lit, chars_of, string_of};
use crate::text_map::lemma_wf_index;
use crate::world::{any_room_has_did, lemma_single_membership_replace, lemma_single_membership_shrink, World};

verus! {

/// Where an exit leads, as its destination reads.
#[derive(Debug)]
pub enum MoveTarget {
    /// A room of this world: the fragment of a local room DID, or the destination itself
    /// when it is not a DID.
    Local(String),
    /// A room of another world: its DID.
    External(String),
    /// A DID of this world without a fragment.
    MissingFragment,
}

impl World {
    /// Takes the avatar under `handle` out of room `room_name` (its presence entry stays).
    fn take_avatar(&mut self, room_name: &Vec<char>, handle: &Vec<char>) -> (r: Option<Avatar>)
        requires
            old(self).wf(),
        ensures
            final(self).wf(),
            match r {
                Some(a) => {
                    let o = old(self).rooms@[room_name@];
                    &&& old(self).rooms@.dom().contains(room_name@)
                    &&& o.avatars@.dom().contains(handle@)
                    &&& a == o.avatars@[handle@]
                    &&& a.wf()
                    &&& final(self).rooms@ == old(self).rooms@.insert(room_name@, Room { avatars: final(self).rooms@[room_name@].avatars, ..o })
                    &&& final(self).rooms@[room_name@].avatars@ == o.avatars@.remove(handle@)
                    &&& !any_room_has_did(final(self).rooms@, a.agent_did@)
                },
                None => {
                    &&& !(old(self).rooms@.dom().contains(room_name@) && old(self).rooms@[room_name@].avatars@.dom().contains(handle@))
                    &&& final(self).rooms@ == old(self).rooms@
                },
            },
            *final(self) == (World { rooms: final(self).rooms, ..*old(self) }),
    {
        let i = match self.rooms.find(room_name) {
            Some(i) => i,
            None => return None,
        };
        let ghost orooms = self.rooms@;
        proof {
            lemma_wf_index(self.rooms, i as int);
        }
        if !self.rooms.entries[i].1.avatars.contains_key(handle) {
            return None;
        }
        let (k, mut room) = self.rooms.take_at(i);
        let ghost ro = room;
        let a = room.avatars.remove(handle).unwrap();
        let ghost nr = room;
        proof {
            assert(ro.avatars@.dom().contains(handle@));
            assert(ro.avatars@[handle@].wf());
            assert forall|h1: Seq<char>, h2: Seq<char>|
                nr.avatars@.dom().contains(h1) && nr.avatars@.dom().contains(h2) && h1 != h2
                implies #[trigger] nr.avatars@[h1].agent_did@ != #[trigger] nr.avatars@[h2].agent_did@ by {
                assert(ro.avatars@[h1] == nr.avatars@[h1]);
                assert(ro.avatars@[h2] == nr.avatars@[h2]);
            }
            assert forall|x: Seq<char>| #[trigger] nr.has_did(x) implies orooms[room_name@].has_did(x) by {
                let hh = choose|hh: Seq<char>| #[trigger] nr.avatars@.dom().contains(hh) && nr.avatars@[hh].agent_did@ == x;
                assert(ro.avatars@.dom().contains(hh));
            }
        }
        self.rooms.insert_at(i, k, room);
        proof {
            assert(orooms.remove(room_name@).insert(room_name@, nr) =~= orooms.insert(room_name@, nr));
            lemma_single_membership_shrink(orooms, room_name@, nr);
            assert(nr == (Room { avatars: nr.avatars, ..ro }));
            let d = a.agent_did@;
            assert forall|rn: Seq<char>| #[trigger] self.rooms@.dom().contains(rn) implies !self.rooms@[rn].has_did(d) by {
                if rn == room_name@ {
                    if nr.has_did(d) {
                        let hh = choose|hh: Seq<char>| #[trigger] nr.avatars@.dom().contains(hh) && nr.avatars@[hh].agent_did@ == d;
                        assert(ro.avatars@.dom().contains(hh) && hh != handle@);
                        assert(ro.avatars@[hh].agent_did@ == ro.avatars@[handle@].agent_did@);
                    }
                } else {
                    assert(orooms[room_name@].has_did(d)) by {
                        assert(ro.avatars@.dom().contains(handle@));
                    }
                    assert(orooms.dom().contains(rn));
                    assert(self.rooms@[rn] == orooms[rn]);
                }
            }
        }
        Some(a)
    }

    /// Adds `avatar` to room `room_name` under its own handle; `false` (and the avatar is
    /// dropped) when there is no such room.
    fn place_avatar(&mut self, room_name: &Vec<char>, avatar: Avatar) -> (r: bool)
        requires
            old(self).wf(),
            avatar.wf(),
            !any_room_has_did(old(self).rooms@, avatar.agent_did@),
        ensures
            final(self).wf(),
            r == old(self).rooms@.dom().contains(room_name@),
            !r ==> final(self).rooms@ == old(self).rooms@,
            r ==> {
                let o = old(self).rooms@[room_name@];
                let n = final(self).rooms@[room_name@];
                &&& final(self).rooms@ == old(self).rooms@.insert(room_name@, n)
                &&& n.avatars@ == o.avatars@.insert(avatar.inbox@, avatar)
                &&& n == (Room { avatars: n.avatars, state: n.state, ..o })
            },
            *final(self) == (World { rooms: final(self).rooms, ..*old(self) }),
    {
        let i = match self.rooms.find(room_name) {
            Some(i) => i,
            None => return false,
        };
        let ghost orooms = self.rooms@;
        let ghost a = avatar;
        let (k, mut room) = self.rooms.take_at(i);
        let ghost ro = room;
        proof {
            assert(orooms.dom().contains(room_name@));
            assert(!ro.has_did(a.agent_did@));
        }
        room.add_avatar(avatar);
        let ghost nr = room;
        proof {
            assert forall|r: Seq<char>, d: Seq<char>|
                orooms.dom().contains(r) && r != room_name@ && #[trigger] nr.has_did(d) implies !#[trigger] orooms[r].has_did(d) by {
                let hh = choose|hh: Seq<char>| #[trigger] nr.avatars@.dom().contains(hh) && nr.avatars@[hh].agent_did@ == d;
                if hh == a.inbox@ {
                } else {
                    assert(ro.avatars@.dom().contains(hh) && ro.avatars@[hh] == nr.avatars@[hh]);
                    assert(ro.has_did(d));
                }
            }
            lemma_single_membership_replace(orooms, room_name@, nr);
        }
        self.rooms.insert_at(i, k, room);
        proof {
            assert(orooms.remove(room_name@).insert(room_name@, nr) =~= orooms.insert(room_name@, nr));
        }
        true
    }

    /// Moves the avatar under handle `from` in room `room_name` through an exit called
    /// `exit_name` (in the avatar's languages) that leads to `target` (read from the
    /// exit's destination `destination`), with the exit's travel text if it has one.
    /// Returns the message and the room the avatar is in afterwards. An avatar that is
    /// not there, or bound for another world, a DID without a room, or a room that no
    /// longer exists, stays (the last three back under its own handle).
    pub fn execute_avatar_move(
        &mut self,
        room_name: &str,
        from: &str,
        exit_name: &str,
        travel_text: Option<String>,
        destination: &str,
        target: MoveTarget,
    ) -> (r: (String, String))
        requires
            old(self).wf(),
        ensures
            final(self).wf(),
            ({
                let base = match travel_text {
                    Some(t) => t@,
                    None => from@ + " goes "@ + exit_name@ + "."@,
                };
                let o = old(self).rooms@;
                let present = o.dom().contains(room_name@) && o[room_name@].avatars@.dom().contains(from@);
                if !present {
                    r.0@ == base && r.1@ == room_name@ && final(self).rooms@ == o
                } else {
                    let a = o[room_name@].avatars@[from@];
                    let dest = match target { MoveTarget::Local(d) => d@, _ => Seq::empty() };
                    let moved = target is Local && o.dom().contains(dest);
                    let home = if moved { dest } else { room_name@ };
                    let n = final(self).rooms@;
                    &&& r.1@ == home
                    &&& r.0@ == match target {
                        MoveTarget::External(did) => base + " go "@ + did@,
                        MoveTarget::MissingFragment => "Destination '"@ + destination@ + "' is not a room DID (missing fragment)."@,
                        MoveTarget::Local(d) => if moved { base } else { "Destination '"@ + d@ + "' no longer exists."@ },
                    }
                    &&& n.dom() == o.dom()
                    &&& n[home].avatars@.contains_key(a.inbox@) && n[home].avatars@[a.inbox@] == a
                    &&& home != room_name@ ==> n[room_name@].avatars@ == o[room_name@].avatars@.remove(from@)
                        && n[home].avatars@ == o[home].avatars@.insert(a.inbox@, a)
                    &&& home == room_name@ ==> n[room_name@].avatars@ == o[room_name@].avatars@.remove(from@).insert(a.inbox@, a)
                    &&& forall|k: Seq<char>| #[trigger] o.dom().contains(k) && k != room_name@ && k != home ==> n[k] == o[k]
                }
            }),
            *final(self) == (World { rooms: final(self).rooms, ..*old(self) }),
    {
        let base: String = match &travel_text {
            Some(t) => t.clone(),
            None => {
                let mut v: Vec<char> = Vec::new();
                append_lit(&mut v, from);
                append_lit(&mut v, " goes ");
                append_lit(&mut v, exit_name);
                append_lit(&mut v, ".");
                string_of(&v)
            },
        };
        let rk = chars_of(room_name);
        let ghost o = self.rooms@;
        let avatar = match self.take_avatar(&rk, &chars_of(from)) {
            Some(a) => a,
            None => return (base, String::from_str(room_name)),
        };
        let ghost a = avatar;
        let ghost mid = self.rooms@;
        match target {
            MoveTarget::External(did) => {
                let _ = self.place_avatar(&rk, avatar);
                let mut v: Vec<char> = chars_of(base.as_str());
                append_lit(&mut v, " go ");
                append_lit(&mut v, did.as_str());
                (string_of(&v), String::from_str(room_name))
            },
            MoveTarget::MissingFragment => {
                let _ = self.place_avatar(&rk, avatar);
                let mut v: Vec<char> = chars_of("Destination '");
                append_lit(&mut v, destination);
                append_lit(&mut v, "' is not a room DID (missing fragment).");
                (string_of(&v), String::from_str(room_name))
            },
            MoveTarget::Local(dest) => {
                let dk = chars_of(dest.as_str());
                if self.rooms.contains_key(&dk) {
                    let _ = self.place_avatar(&dk, avatar);
                    (base, dest)
                } else {
                    let _ = self.place_avatar(&rk, avatar);
                    let mut v: Vec<char> = chars_of("Destination '");
                    append_lit(&mut v, dest.as_str());
                    append_lit(&mut v, "' no longer exists.");
                    (string_of(&v), String::from_str(room_name))
                }
            },
        }
    }
}

} // verus!
