//! First contact of an agent with the world: the entry decision and the avatar it gets.
use vstd::prelude::*;
use crate::avatar::{und, AvatarRequest};
use crate::lang::{collapse_strict_spec, collapse_world_language_order_strict, supported_langs, supported_world_languages_text};
use crate::text::{append_lit, chars_of, class_pred, join, string_of, trim, trim_start_by, trim_start_class, trim_white, CharClass};
use crate::world::{any_room_has_did, handle_of, rooms_same_except, unconfigured, world_did_text, World, WorldError};
use crate::avatar::Avatar;

verus! {

#[derive(Debug)]
pub enum EntryError {
    /// The world's entry ACL refuses a new agent: the message.
    Denied(String),
    /// The agent's language profile names no language of the world: the message.
    NoLanguage(String),
    /// Joining the room failed.
    Join(WorldError),
}

/// Some room holds an avatar owned by `owner`.
pub open spec fn owner_has_avatar(w: World, owner: Seq<char>) -> bool {
    exists|r: Seq<char>, h: Seq<char>| #[trigger] w.rooms@.dom().contains(r) && #[trigger] w.rooms@[r].avatars@.dom().contains(h)
        && w.rooms@[r].avatars@[h].owner@ == owner
}

/// The fragment of an agent's avatar: the agent's own fragment (or `avatar`), trimmed and
/// without leading `@`.
pub open spec fn avatar_fragment(f: Option<Seq<char>>) -> Seq<char> {
    let base = match f {
        Some(x) => x,
        None => "avatar"@,
    };
    trim_start_by(trim(base), class_pred(CharClass::Is('@')))
}

pub open spec fn avatar_did_text(w: World, f: Option<Seq<char>>) -> Seq<char> {
    let ipns = match w.world_ipns { Some(i) => i@, None => unconfigured() };
    world_did_text(ipns, avatar_fragment(f))
}

pub open spec fn no_language_text(profile: Seq<char>) -> Seq<char> {
    "no supported language found in ma.language='"@ + profile + "'. supported="@ + join(supported_langs(), ", "@)
}

impl World {
    /// The DID of an avatar owned by `owner`, from the first room (in the map's order) that
    /// holds one, or `None` when the owner has not entered.
    pub fn resolve_avatar_did_for_owner(&self, owner: &str) -> (r: Option<String>)
        requires
            self.wf(),
        ensures
            r is None <==> !owner_has_avatar(*self, owner@),
            r matches Some(d) ==> exists|rn: Seq<char>, h: Seq<char>| #[trigger] self.rooms@.dom().contains(rn)
                && #[trigger] self.rooms@[rn].avatars@.dom().contains(h)
                && self.rooms@[rn].avatars@[h].owner@ == owner@ && self.rooms@[rn].avatars@[h].agent_did@ == d@,
    {
        let mut i: usize = 0;
        while i < self.rooms.entries.len()
            invariant
                self.wf(),
                0 <= i <= self.rooms.entries@.len(),
                forall|k: int, h: Seq<char>| 0 <= k < i && #[trigger] self.rooms.entries@[k].1.avatars@.dom().contains(h)
                    ==> self.rooms.entries@[k].1.avatars@[h].owner@ != owner@,
            decreases self.rooms.entries.len() - i,
        {
            let room = &self.rooms.entries[i].1;
            proof {
                crate::text_map::lemma_wf_index(self.rooms, i as int);
            }
            let mut j: usize = 0;
            while j < room.avatars.entries.len()
                invariant
                    self.wf(),
                    0 <= i < self.rooms.entries@.len(),
                    *room == self.rooms.entries@[i as int].1,
                    room.wf(),
                    0 <= j <= room.avatars.entries@.len(),
                    forall|k: int| 0 <= k < j ==> room.avatars.entries@[k].1.owner@ != owner@,
                decreases room.avatars.entries.len() - j,
            {
                if crate::text::str_eq(room.avatars.entries[j].1.owner.as_str(), owner) {
                    proof {
                        crate::text_map::lemma_wf_index(self.rooms, i as int);
                        crate::text_map::lemma_wf_index(room.avatars, j as int);
                        let rk = self.rooms.entries@[i as int].0@;
                        let hk = room.avatars.entries@[j as int].0@;
                        assert(self.rooms@.dom().contains(rk) && self.rooms@[rk].avatars@.dom().contains(hk)
                            && self.rooms@[rk].avatars@[hk].owner@ == owner@);
                    }
                    return Some(room.avatars.entries[j].1.agent_did.clone());
                }
                j = j + 1;
            }
            proof {
                crate::text_map::lemma_wf_dom(room.avatars);
                assert forall|h: Seq<char>| #[trigger] room.avatars@.dom().contains(h) implies room.avatars@[h].owner@ != owner@ by {
                    let k = choose|k: int| 0 <= k < room.avatars.entries@.len() && room.avatars.entries@[k].0@ == h;
                    crate::text_map::lemma_wf_index(room.avatars, k);
                }
            }
            i = i + 1;
        }
        proof {
            assert forall|r: Seq<char>, h: Seq<char>| #[trigger] self.rooms@.dom().contains(r) && #[trigger] self.rooms@[r].avatars@.dom().contains(h)
                implies self.rooms@[r].avatars@[h].owner@ != owner@ by {
                crate::text_map::lemma_wf_dom(self.rooms);
                let k = choose|k: int| 0 <= k < self.rooms.entries@.len() && self.rooms.entries@[k].0@ == r;
                crate::text_map::lemma_wf_index(self.rooms, k);
            }
        }
        None
    }
}

pub open spec fn opt_seq(o: Option<String>) -> Option<Seq<char>> {
    match o {
        Some(s) => Some(s@),
        None => None,
    }
}

impl World {
    /// Gives the agent `sender_id` (root `sender_base`) an avatar in `room`, or refreshes
    /// the one it has: a new agent must pass the entry ACL, and its language profile must
    /// name a language of the world. A new avatar is described as a skeleton avatar.
    /// Returns the avatar DID, its handle, and whether the agent is new.
    pub fn ensure_avatar(
        &mut self,
        sender_base: &str,
        sender_id: &str,
        sender_fragment: Option<String>,
        sender_profile: &str,
        agent_endpoint: &str,
        encryption_pubkey_multibase: &str,
        room: &str,
        signing_secret: [u8; 32],
        now: u64,
        now_text: &str,
    ) -> (r: Result<(String, String, bool), EntryError>)
        requires
            old(self).wf(),
            old(self).rooms@.dom().contains(room@) ==> old(self).rooms@[room@].state.next_event_sequence < u64::MAX,
        ensures
            final(self).wf(),
            ({
                let is_new = !owner_has_avatar(*old(self), sender_base@);
                let did = avatar_did_text(*old(self), opt_seq(sender_fragment));
                if is_new && !old(self).entry_acl.admits(sender_id@, old(self).owner_view()) {
                    &&& (r matches Err(EntryError::Denied(m)) && m@ == "entry denied by ACL for "@ + sender_id@)
                    &&& *final(self) == *old(self)
                } else if collapse_strict_spec(sender_profile@) is None {
                    &&& (r matches Err(EntryError::NoLanguage(m)) && m@ == no_language_text(sender_profile@))
                    &&& *final(self) == *old(self)
                } else {
                    &&& r is Ok <==> old(self).rooms@.dom().contains(room@) && old(self).rooms@[room@].acl.admits(did)
                    &&& r is Err ==> (r matches Err(EntryError::Join(_))) && final(self).rooms@ == old(self).rooms@
                    &&& r matches Ok(t) ==> {
                        let a = final(self).rooms@[room@].avatars@[t.1@];
                        &&& t.0@ == did
                        &&& t.2 == is_new
                        &&& final(self).rooms@.dom() == old(self).rooms@.dom()
                        &&& final(self).rooms@[room@].avatars@.dom().contains(t.1@)
                        &&& a.agent_did@ == did
                        &&& a.owner@ == sender_base@
                        &&& a.agent_endpoint@ == agent_endpoint@
                        &&& a.language_order@ == collapse_strict_spec(sender_profile@)->Some_0
                        &&& a.encryption_pubkey_multibase matches Some(k) && k@ == encryption_pubkey_multibase@
                        &&& t.2 ==> a.descriptions@.dom().contains(und()) && a.descriptions@[und()]@ == "skeleton avatar"@
                    }
                }
            }),
            final(self).entry_acl == old(self).entry_acl,
            final(self).owner_did == old(self).owner_did,
            final(self).world_ipns == old(self).world_ipns,
            final(self).knock_inbox == old(self).knock_inbox,
            final(self).room_cids == old(self).room_cids,
            final(self).exit_reverse_index == old(self).exit_reverse_index,
            final(self).avatar_registry == old(self).avatar_registry,
    {
        let is_new = self.resolve_avatar_did_for_owner(sender_base).is_none();
        if is_new && !self.can_enter(sender_id) {
            let mut m: Vec<char> = Vec::new();
            append_lit(&mut m, "entry denied by ACL for ");
            append_lit(&mut m, sender_id);
            return Err(EntryError::Denied(string_of(&m)));
        }
        let language_order = match collapse_world_language_order_strict(sender_profile) {
            Some(l) => l,
            None => {
                let mut m: Vec<char> = Vec::new();
                append_lit(&mut m, "no supported language found in ma.language='");
                append_lit(&mut m, sender_profile);
                append_lit(&mut m, "'. supported=");
                let s = supported_world_languages_text();
                append_lit(&mut m, s.as_str());
                return Err(EntryError::NoLanguage(string_of(&m)));
            },
        };
        let base: Vec<char> = match &sender_fragment {
            Some(f) => chars_of(f.as_str()),
            None => chars_of("avatar"),
        };
        let fragment = string_of(&trim_start_class(&trim_white(&base), &CharClass::Is('@')));
        let did = self.build_room_did(fragment.as_str());
        let req = AvatarRequest {
            did: did.clone(),
            did_fragment: fragment,
            owner: String::from_str(sender_base),
            agent_endpoint: String::from_str(agent_endpoint),
            language_order,
            signing_secret,
            encryption_pubkey_multibase: Some(String::from_str(encryption_pubkey_multibase)),
        };
        let ghost orooms = self.rooms@;
        let ghost dv = did@;
        let ghost rq = req;
        let out = match self.join_room(room, req, None, now, now_text) {
            Err(e) => {
                return Err(EntryError::Join(e));
            },
            Ok(o) => o,
        };
        let ghost mid = self.rooms@[room@];
        proof {
            let rn = room@;
            if crate::world::any_room_has_did(orooms, dv) && crate::world::room_of(orooms, dv) != rn {
            } else if orooms[rn].has_did(dv) {
            } else {
                if crate::world::any_room_has_did(orooms, dv) {
                    let p = crate::world::room_of(orooms, dv);
                    assert(orooms.dom().contains(p) && orooms[p].has_did(dv));
                }
            }
            assert(mid.avatars@.dom().contains(out.handle@) && mid.avatars@[out.handle@].agent_did@ == dv);
        }
        if is_new {
            let _ = self.set_avatar_description_for_did(room, did.as_str(), "skeleton avatar");
            proof {
                let h = handle_of(mid, dv);
                crate::world::lemma_handle_of(mid, dv, out.handle@);
                assert(h == out.handle@);
            }
        }
        Ok((did, out.handle, is_new))
    }
}

/// An avatar found present in a room: its DID, the room and its handle there.
pub struct PresentAvatar {
    pub url: String,
    pub room_name: String,
    pub handle: String,
}

pub open spec fn not_present_text(did: Seq<char>) -> Seq<char> {
    "avatar "@ + did + " is not present; enter required"@
}

impl World {
    /// The avatar DID the world gives a sender whose DID has fragment `sender_fragment`,
    /// with that fragment cleaned (trimmed, `@` dropped at its start, `avatar` when absent).
    pub fn derived_avatar_did(&self, sender_fragment: &Option<String>) -> (r: (String, String))
        ensures
            r.0@ == avatar_did_text(*self, opt_seq(*sender_fragment)),
            r.1@ == avatar_fragment(opt_seq(*sender_fragment)),
    {
        let base: Vec<char> = match sender_fragment {
            Some(f) => chars_of(f.as_str()),
            None => chars_of("avatar"),
        };
        let fragment = string_of(&trim_start_class(&trim_white(&base), &CharClass::Is('@')));
        let did = self.build_room_did(fragment.as_str());
        (did, fragment)
    }

    /// The sender's avatar, which must be present in some room: its derived DID, the room,
    /// and its handle there (the cleaned fragment when the room has no handle for it).
    pub fn require_present_avatar(&mut self, sender_fragment: &Option<String>) -> (r: Result<PresentAvatar, String>)
        requires
            old(self).wf(),
        ensures
            final(self).wf(),
            final(self).rooms == old(self).rooms,
            ({
                let did = avatar_did_text(*old(self), opt_seq(*sender_fragment));
                match r {
                    Err(e) => !any_room_has_did(old(self).rooms@, did) && e@ == not_present_text(did),
                    Ok(p) => {
                        &&& p.url@ == did
                        &&& old(self).rooms@.dom().contains(p.room_name@)
                        &&& old(self).rooms@[p.room_name@].has_did(did)
                        &&& p.handle@ == handle_of(old(self).rooms@[p.room_name@], did)
                    },
                }
            }),
            r is Err <==> !any_room_has_did(old(self).rooms@, avatar_did_text(*old(self), opt_seq(*sender_fragment))),
            final(self).entry_acl == old(self).entry_acl,
            final(self).owner_did == old(self).owner_did,
            final(self).world_ipns == old(self).world_ipns,
            final(self).knock_inbox == old(self).knock_inbox,
            final(self).room_cids == old(self).room_cids,
            final(self).exit_reverse_index == old(self).exit_reverse_index,
            final(self).avatar_registry == old(self).avatar_registry,
    {
        let (did, fragment) = self.derived_avatar_did(sender_fragment);
        let room_name = match self.avatar_room_for_did(did.as_str()) {
            Some(n) => n,
            None => {
                let mut m: Vec<char> = Vec::new();
                append_lit(&mut m, "avatar ");
                append_lit(&mut m, did.as_str());
                append_lit(&mut m, " is not present; enter required");
                return Err(string_of(&m));
            },
        };
        let handle = match self.avatar_handle_for_did(room_name.as_str(), did.as_str()) {
            Some(h) => h,
            None => fragment,
        };
        Ok(PresentAvatar { url: did, room_name, handle })
    }

    /// As `require_present_avatar`, and marks the avatar as seen at `now`.
    pub fn touch_present_avatar(&mut self, sender_fragment: &Option<String>, now: u64) -> (r: Result<PresentAvatar, String>)
        requires
            old(self).wf(),
        ensures
            final(self).wf(),
            ({
                let did = avatar_did_text(*old(self), opt_seq(*sender_fragment));
                match r {
                    Err(e) => !any_room_has_did(old(self).rooms@, did) && e@ == not_present_text(did)
                        && final(self).rooms == old(self).rooms,
                    Ok(p) => {
                        let o = old(self).rooms@[p.room_name@];
                        let h = handle_of(o, did);
                        let a = o.avatars@[h];
                        &&& p.url@ == did
                        &&& old(self).rooms@.dom().contains(p.room_name@)
                        &&& o.has_did(did)
                        &&& p.handle@ == h
                        &&& rooms_same_except(old(self).rooms@, final(self).rooms@, p.room_name@)
                        &&& final(self).rooms@[p.room_name@].avatars@ == o.avatars@.insert(h, Avatar { last_seen_at: now, ..a })
                    },
                }
            }),
            r is Err <==> !any_room_has_did(old(self).rooms@, avatar_did_text(*old(self), opt_seq(*sender_fragment))),
            final(self).entry_acl == old(self).entry_acl,
            final(self).owner_did == old(self).owner_did,
            final(self).world_ipns == old(self).world_ipns,
            final(self).knock_inbox == old(self).knock_inbox,
            final(self).room_cids == old(self).room_cids,
            final(self).exit_reverse_index == old(self).exit_reverse_index,
            final(self).avatar_registry == old(self).avatar_registry,
    {
        let p = self.require_present_avatar(sender_fragment)?;
        let _ = self.touch_avatar_presence_for_did(p.room_name.as_str(), p.url.as_str(), now);
        Ok(p)
    }
}

} // verus!
