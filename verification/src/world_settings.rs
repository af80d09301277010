//! World settings and queries: the IPNS identity, the Kubo endpoint, locking, and
//! lookups of rooms and avatars.
use vstd::prelude::*;
use crate::avatar::Avatar;
use crate::room::Room;
use crate::text::{chars_eq, chars_of, class_pred, before_first, sort_chars, sorted_lex, string_of, trim, trim_white, views, CharClass};
use crate::text_map::{lemma_wf_dom, lemma_wf_index};
use crate::world::{
    any_room_has_did, handle_of, rooms_same_except, world_did_string, world_did_text,
    World,
};

verus! {

pub open spec fn empty_kubo_url() -> Seq<char> {
    "kubo api url cannot be empty"@
}

impl World {
    /// Sets the Kubo API URL to `new_url` trimmed; an empty one is refused.
    pub fn set_kubo_url(&mut self, new_url: &str) -> (r: Result<String, String>)
        ensures
            trim(new_url@).len() == 0 ==> r is Err && r->Err_0@ == empty_kubo_url() && *final(self) == *old(self),
            trim(new_url@).len() > 0 ==> r is Ok && r->Ok_0@ == trim(new_url@)
                && *final(self) == (World { kubo_url: r->Ok_0, ..*old(self) }),
    {
        let c = chars_of(new_url);
        let t = trim_white(&c);
        if t.len() == 0 {
            return Err(String::from_str("kubo api url cannot be empty"));
        }
        let s = string_of(&t);
        self.kubo_url = s.clone();
        Ok(s)
    }

    /// Sets the name the world root is pinned under to the key name of `new_slug`; the
    /// caller pins the current world root CID under it.
    pub fn set_world_root_pin_name(&mut self, new_slug: &str) -> (r: String)
        ensures
            r@ == crate::schema::world_key_name_spec(new_slug@),
            *final(self) == (World { world_root_pin_name: r, ..*old(self) }),
    {
        let n = crate::schema::normalize_world_key_name(new_slug);
        self.world_root_pin_name = n.clone();
        n
    }

    pub fn lock(&mut self)
        ensures
            *final(self) == (World { unlocked: false, ..*old(self) }),
    {
        self.unlocked = false;
    }

    pub fn is_unlocked(&self) -> (r: bool)
        ensures
            r == self.unlocked,
    {
        self.unlocked
    }

    /// Sets the language catalog CID, trimmed; blank means none.
    pub fn set_lang_cid(&mut self, cid: Option<String>)
        ensures
            *final(self) == (World { lang_cid: final(self).lang_cid, ..*old(self) }),
            match cid {
                Some(c) => if trim(c@).len() > 0 {
                    final(self).lang_cid is Some && final(self).lang_cid->Some_0@ == trim(c@)
                } else {
                    final(self).lang_cid is None
                },
                None => final(self).lang_cid is None,
            },
    {
        self.lang_cid = match cid {
            Some(c) => {
                let v = chars_of(c.as_str());
                let t = trim_white(&v);
                if t.len() > 0 {
                    Some(string_of(&t))
                } else {
                    None
                }
            },
            None => None,
        };
    }

    /// Whether `ipns` is the configured world IPNS name.
    pub fn is_local_world_ipns(&self, ipns: &str) -> (r: bool)
        ensures
            r == (self.world_ipns is Some && self.world_ipns->Some_0@ == ipns@),
    {
        match &self.world_ipns {
            Some(local) => crate::text::str_eq(local.as_str(), ipns),
            None => false,
        }
    }

    /// Whether `target` (trimmed) names this world: the configured world DID, or the part
    /// of it before `#`.
    pub fn is_world_target_did(&self, target: &str) -> (r: bool)
        ensures
            r == ({
                let t = trim(target@);
                &&& t.len() > 0
                &&& self.world_did is Some
                &&& (self.world_did->Some_0@ == t
                    || before_first(self.world_did->Some_0@, class_pred(CharClass::Is('#'))) == t)
            }),
    {
        let c = chars_of(target);
        let t = trim_white(&c);
        if t.len() == 0 {
            return false;
        }
        match &self.world_did {
            None => false,
            Some(full) => {
                let f = chars_of(full.as_str());
                if chars_eq(&f, &t) {
                    return true;
                }
                let (root, _, _) = crate::text::split_first(&f, &CharClass::Is('#'));
                chars_eq(&root, &t)
            },
        }
    }

    /// Sets the world IPNS name and DID (parsed by the caller), moves every room DID under
    /// the new name, and makes the world DID the owner when there is none yet.
    pub fn set_world_did(&mut self, ipns: &str, bare: &str)
        requires
            old(self).wf(),
        ensures
            final(self).wf(),
            final(self).world_ipns is Some && final(self).world_ipns->Some_0@ == ipns@,
            final(self).world_did is Some && final(self).world_did->Some_0@ == bare@,
            final(self).rooms@.dom() == old(self).rooms@.dom(),
            forall|k: Seq<char>| #[trigger] old(self).rooms@.dom().contains(k) ==> final(self).rooms@[k] == (Room {
                url: final(self).rooms@[k].url,
                ..old(self).rooms@[k]
            }) && final(self).rooms@[k].url@ == world_did_text(ipns@, k),
            old(self).owner_did is Some ==> final(self).owner_did == old(self).owner_did
                && final(self).entry_acl == old(self).entry_acl,
            old(self).owner_did is None ==> final(self).owner_view() == Some(bare@)
                && final(self).entry_acl.did_set().contains(bare@)
                && final(self).entry_acl.allow_all == old(self).entry_acl.allow_all
                && final(self).entry_acl.allow_owner == old(self).entry_acl.allow_owner,
            final(self).handle_to_did == old(self).handle_to_did,
            final(self).did_to_handle == old(self).did_to_handle,
            final(self).knock_inbox == old(self).knock_inbox,
            final(self).room_cids == old(self).room_cids,
            final(self).exit_reverse_index == old(self).exit_reverse_index,
            final(self).avatar_registry == old(self).avatar_registry,
            final(self).events == old(self).events,
    {
        self.world_ipns = Some(String::from_str(ipns));
        self.world_did = Some(String::from_str(bare));
        let ghost o = self.rooms;
        let n = self.rooms.len();
        let mut i: usize = 0;
        while i < n
            invariant
                0 <= i <= n,
                n == o.entries@.len(),
                o.wf(),
                self.wf(),
                self.rooms.entries@.len() == n,
                self.world_ipns is Some && self.world_ipns->Some_0@ == ipns@,
                self.world_did is Some && self.world_did->Some_0@ == bare@,
                forall|k: int| 0 <= k < n ==> #[trigger] self.rooms.entries@[k].0@ == o.entries@[k].0@,
                forall|k: int| 0 <= k < i ==> #[trigger] self.rooms.entries@[k].1 == (Room {
                    url: self.rooms.entries@[k].1.url,
                    ..o.entries@[k].1
                }) && self.rooms.entries@[k].1.url@ == world_did_text(ipns@, o.entries@[k].0@),
                forall|k: int| i <= k < n ==> #[trigger] self.rooms.entries@[k].1 == o.entries@[k].1,
                self.owner_did == old(self).owner_did,
                self.entry_acl == old(self).entry_acl,
                self.handle_to_did == old(self).handle_to_did,
                self.did_to_handle == old(self).did_to_handle,
                self.knock_inbox == old(self).knock_inbox,
                self.room_cids == old(self).room_cids,
                self.exit_reverse_index == old(self).exit_reverse_index,
                self.avatar_registry == old(self).avatar_registry,
                self.events == old(self).events,
            decreases n - i,
        {
            let ghost before = self.rooms;
            let (k, mut room) = self.rooms.take_at(i);
            let ghost ro = room;
            proof {
                lemma_wf_index(before, i as int);
            }
            room.url = world_did_string(ipns, string_of(&k).as_str());
            let ghost nr = room;
            proof {
                assert(before@.remove(k@).insert(k@, nr) =~= before@.insert(k@, nr));
                assert forall|d: Seq<char>| #[trigger] nr.has_did(d) implies before@[k@].has_did(d) by {
                    let h = choose|h: Seq<char>| #[trigger] nr.avatars@.dom().contains(h) && nr.avatars@[h].agent_did@ == d;
                    assert(ro.avatars@.dom().contains(h));
                }
                crate::world::lemma_single_membership_shrink(before@, k@, nr);
            }
            self.rooms.insert_at(i, k, room);
            proof {
                assert forall|j: int| 0 <= j < n implies #[trigger] self.rooms.entries@[j].0@ == o.entries@[j].0@ by {
                    if j != i {
                        assert(self.rooms.entries@[j] == before.entries@[j]);
                    }
                }
                assert forall|j: int| 0 <= j < i + 1 implies #[trigger] self.rooms.entries@[j].1 == (Room {
                    url: self.rooms.entries@[j].1.url,
                    ..o.entries@[j].1
                }) && self.rooms.entries@[j].1.url@ == world_did_text(ipns@, o.entries@[j].0@) by {
                    if j != i {
                        assert(self.rooms.entries@[j] == before.entries@[j]);
                    }
                }
                assert forall|j: int| i + 1 <= j < n implies #[trigger] self.rooms.entries@[j].1 == o.entries@[j].1 by {
                    assert(self.rooms.entries@[j] == before.entries@[j]);
                }
            }
            i = i + 1;
        }
        proof {
            lemma_wf_dom(o);
            lemma_wf_dom(self.rooms);
            assert forall|k: Seq<char>| self.rooms@.dom().contains(k) <==> o@.dom().contains(k) by {
                if o@.dom().contains(k) {
                    let j = choose|j: int| 0 <= j < o.entries@.len() && o.entries@[j].0@ == k;
                    assert(self.rooms.entries@[j].0@ == k);
                }
                if self.rooms@.dom().contains(k) {
                    let j = choose|j: int| 0 <= j < self.rooms.entries@.len() && self.rooms.entries@[j].0@ == k;
                    assert(o.entries@[j].0@ == k);
                }
            }
            assert(self.rooms@.dom() =~= o@.dom());
            assert forall|k: Seq<char>| #[trigger] o@.dom().contains(k) implies self.rooms@[k] == (Room {
                url: self.rooms@[k].url,
                ..o@[k]
            }) && self.rooms@[k].url@ == world_did_text(ipns@, k) by {
                let j = choose|j: int| 0 <= j < o.entries@.len() && o.entries@[j].0@ == k;
                lemma_wf_index(o, j);
                lemma_wf_index(self.rooms, j);
                assert(self.rooms.entries@[j].0@ == k);
            }
        }
        if self.owner_did.is_none() {
            let _ = self.set_owner_did(bare);
        }
    }
}


/// An avatar present in a room: its handle and DID id.
pub struct PresenceAvatar {
    pub handle: String,
    pub did: String,
}

impl World {
    /// The names of the rooms, in iteration order.
    pub fn room_names(&self) -> (r: Vec<String>)
        requires
            self.wf(),
        ensures
            crate::text::strs(r@) == self.rooms.key_seq(),
    {
        let mut out: Vec<String> = Vec::new();
        let n = self.rooms.len();
        let mut i: usize = 0;
        while i < n
            invariant
                0 <= i <= n,
                n == self.rooms.entries@.len(),
                self.wf(),
                crate::text::strs(out@) == self.rooms.key_seq().subrange(0, i as int),
            decreases n - i,
        {
            let (k, _) = self.rooms.entry_at(i);
            let ghost before = crate::text::strs(out@);
            out.push(string_of(k));
            assert(crate::text::strs(out@) =~= before.push(k@));
            assert(self.rooms.key_seq().subrange(0, i + 1) =~= self.rooms.key_seq().subrange(0, i as int).push(k@));
            i = i + 1;
        }
        assert(self.rooms.key_seq().subrange(0, n as int) =~= self.rooms.key_seq());
        out
    }

    /// The description of `room_name` (empty when there is no such room).
    pub fn room_description(&self, room_name: &str) -> (r: String)
        requires
            self.wf(),
        ensures
            !self.rooms@.dom().contains(room_name@) ==> r@.len() == 0,
            self.rooms@.dom().contains(room_name@) ==> {
                let room = self.rooms@[room_name@];
                &&& room.descriptions@.dom().contains(crate::avatar::und()) ==> r == room.descriptions@[crate::avatar::und()]
                &&& !room.descriptions@.dom().contains(crate::avatar::und()) ==> r@ == crate::room::no_description_text()
            },
    {
        let k = chars_of(room_name);
        match self.rooms.get(&k) {
            Some(room) => room.description_or_default(),
            None => String::new(),
        }
    }

    /// The title of `room_name` (empty when there is no such room).
    pub fn room_title(&self, room_name: &str) -> (r: String)
        requires
            self.wf(),
        ensures
            !self.rooms@.dom().contains(room_name@) ==> r@.len() == 0,
            self.rooms@.dom().contains(room_name@) ==> {
                let room = self.rooms@[room_name@];
                let titled = room.titles@.dom().contains(crate::avatar::und()) && trim(room.titles@[crate::avatar::und()]@).len() > 0;
                &&& titled ==> r == room.titles@[crate::avatar::und()]
                &&& !titled ==> r@ == crate::room::default_room_title_spec(room.name@)
            },
    {
        let k = chars_of(room_name);
        match self.rooms.get(&k) {
            Some(room) => room.title_or_default(),
            None => String::new(),
        }
    }

    /// The DID of `room_name` (empty when there is no such room).
    pub fn room_did(&self, room_name: &str) -> (r: String)
        requires
            self.wf(),
        ensures
            !self.rooms@.dom().contains(room_name@) ==> r@.len() == 0,
            self.rooms@.dom().contains(room_name@) ==> r == self.rooms@[room_name@].url,
    {
        let k = chars_of(room_name);
        match self.rooms.get(&k) {
            Some(room) => room.url.clone(),
            None => String::new(),
        }
    }

    /// The avatars of `room_name` as (handle, DID id), sorted by handle.
    pub fn room_avatars(&self, room_name: &str) -> (r: Vec<PresenceAvatar>)
        requires
            self.wf(),
        ensures
            !self.rooms@.dom().contains(room_name@) ==> r@.len() == 0,
            self.rooms@.dom().contains(room_name@) ==> {
                let room = self.rooms@[room_name@];
                let hs = r@.map_values(|p: PresenceAvatar| p.handle@);
                &&& sorted_lex(hs)
                &&& hs.to_multiset() == room.avatars.key_seq().to_multiset()
                &&& forall|i: int| 0 <= i < r@.len() ==> room.avatars@.dom().contains(#[trigger] r@[i].handle@)
                    && r@[i].did == room.avatars@[r@[i].handle@].agent_did
            },
    {
        let k = chars_of(room_name);
        let room = match self.rooms.get(&k) {
            Some(room) => room,
            None => {
                return Vec::new();
            },
        };
        let mut handles: Vec<Vec<char>> = Vec::new();
        let n = room.avatars.len();
        let mut i: usize = 0;
        while i < n
            invariant
                0 <= i <= n,
                n == room.avatars.entries@.len(),
                room.wf(),
                views(handles@) == room.avatars.key_seq().subrange(0, i as int),
            decreases n - i,
        {
            let (h, _) = room.avatars.entry_at(i);
            let ghost before = views(handles@);
            let hc = crate::text::slice_chars(h, 0, h.len());
            assert(hc@ =~= h@);
            handles.push(hc);
            assert(views(handles@) =~= before.push(h@));
            assert(room.avatars.key_seq().subrange(0, i + 1) =~= room.avatars.key_seq().subrange(0, i as int).push(h@));
            i = i + 1;
        }
        assert(room.avatars.key_seq().subrange(0, n as int) =~= room.avatars.key_seq());
        let sorted = sort_chars(handles);
        let mut out: Vec<PresenceAvatar> = Vec::new();
        let mut j: usize = 0;
        while j < sorted.len()
            invariant
                0 <= j <= sorted@.len(),
                room.wf(),
                sorted_lex(views(sorted@)),
                views(sorted@).to_multiset() == room.avatars.key_seq().to_multiset(),
                out@.map_values(|p: PresenceAvatar| p.handle@) == views(sorted@).subrange(0, j as int),
                forall|i: int| 0 <= i < out@.len() ==> room.avatars@.dom().contains(#[trigger] out@[i].handle@)
                    && out@[i].did == room.avatars@[out@[i].handle@].agent_did,
            decreases sorted.len() - j,
        {
            let h = &sorted[j];
            proof {
                lemma_wf_dom(room.avatars);
                assert(views(sorted@)[j as int] == h@);
                assert(views(sorted@).contains(h@));
                vstd::seq_lib::to_multiset_contains(views(sorted@), h@);
                vstd::seq_lib::to_multiset_contains(room.avatars.key_seq(), h@);
                let idx = choose|idx: int| 0 <= idx < room.avatars.key_seq().len() && room.avatars.key_seq()[idx] == h@;
                assert(room.avatars.entries@[idx].0@ == h@);
            }
            let av = room.avatars.get(h).unwrap();
            let ghost before = out@.map_values(|p: PresenceAvatar| p.handle@);
            out.push(PresenceAvatar { handle: string_of(h), did: av.agent_did.clone() });
            assert(out@.map_values(|p: PresenceAvatar| p.handle@) =~= before.push(h@));
            assert(views(sorted@).subrange(0, j + 1) =~= views(sorted@).subrange(0, j as int).push(h@));
            j = j + 1;
        }
        assert(views(sorted@).subrange(0, sorted@.len() as int) =~= views(sorted@));
        out
    }

    /// The handle of the avatar of `did_id` in `room_name`.
    pub fn avatar_handle_for_did(&self, room_name: &str, did_id: &str) -> (r: Option<String>)
        requires
            self.wf(),
        ensures
            r is Some <==> self.rooms@.dom().contains(room_name@) && self.rooms@[room_name@].has_did(did_id@),
            r is Some ==> r->Some_0@ == handle_of(self.rooms@[room_name@], did_id@),
    {
        let k = chars_of(room_name);
        let d = chars_of(did_id);
        match self.rooms.get(&k) {
            None => None,
            Some(room) => match World::room_has_did(room, &d) {
                None => None,
                Some(j) => {
                    let (h, _) = room.avatars.entry_at(j);
                    proof {
                        crate::world::lemma_handle_of(*room, d@, h@);
                    }
                    Some(string_of(h))
                },
            },
        }
    }

    /// The language order of the avatar of `did_id` in `room_name`, unless blank.
    pub fn avatar_language_order_for_did(&self, room_name: &str, did_id: &str) -> (r: Option<String>)
        requires
            self.wf(),
        ensures
            ({
                let present = self.rooms@.dom().contains(room_name@) && self.rooms@[room_name@].has_did(did_id@);
                let lo = self.rooms@[room_name@].avatars@[handle_of(self.rooms@[room_name@], did_id@)].language_order;
                &&& r is Some <==> present && trim(lo@).len() > 0
                &&& r is Some ==> r->Some_0 == lo
            }),
    {
        let k = chars_of(room_name);
        let d = chars_of(did_id);
        match self.rooms.get(&k) {
            None => None,
            Some(room) => match World::room_has_did(room, &d) {
                None => None,
                Some(j) => {
                    let (h, av) = room.avatars.entry_at(j);
                    proof {
                        crate::world::lemma_handle_of(*room, d@, h@);
                    }
                    let lo = chars_of(av.language_order.as_str());
                    let t = trim_white(&lo);
                    if t.len() == 0 {
                        None
                    } else {
                        Some(av.language_order.clone())
                    }
                },
            },
        }
    }

    /// The room, handle, DID, endpoint and description of the avatar of `did_id`, from
    /// the first room (in iteration order) that holds it.
    pub fn find_avatar_presence_by_did(&self, did_id: &str) -> (r: Option<(String, String, String, String, String)>)
        requires
            self.wf(),
        ensures
            r is Some <==> any_room_has_did(self.rooms@, did_id@),
            r is Some ==> {
                let t = r->Some_0;
                let room = self.rooms@[t.0@];
                let a = room.avatars@[t.1@];
                &&& self.rooms@.dom().contains(t.0@)
                &&& room.has_did(did_id@)
                &&& t.1@ == handle_of(room, did_id@)
                &&& t.2@ == did_id@
                &&& t.3 == a.agent_endpoint
                &&& a.descriptions@.dom().contains(crate::avatar::und()) ==> t.4 == a.descriptions@[crate::avatar::und()]
                &&& !a.descriptions@.dom().contains(crate::avatar::und()) ==> t.4@ == crate::avatar::unset_text()
            },
    {
        let d = chars_of(did_id);
        match self.find_room_with_did(&d) {
            None => None,
            Some(i) => {
                let (name, room) = self.rooms.entry_at(i);
                proof {
                    lemma_wf_index(self.rooms, i as int);
                }
                let j = World::room_has_did(room, &d).unwrap();
                let (h, av) = room.avatars.entry_at(j);
                proof {
                    crate::world::lemma_handle_of(*room, d@, h@);
                }
                Some((string_of(name), string_of(h), av.agent_did.clone(), av.agent_endpoint.clone(), av.description_or_default()))
            },
        }
    }
}


impl World {
    /// Sets the description of the avatar of `did_id` in `room_name` or, with no
    /// description, marks it as seen at `now`; `false` when there is no such avatar.
    fn update_avatar_of_did(&mut self, room_name: &str, did_id: &str, description: Option<String>, now: u64) -> (r: bool)
        requires
            old(self).wf(),
        ensures
            final(self).wf(),
            r == (old(self).rooms@.dom().contains(room_name@) && old(self).rooms@[room_name@].has_did(did_id@)),
            !r ==> final(self).rooms@ == old(self).rooms@,
            r ==> {
                let o = old(self).rooms@[room_name@];
                let h = handle_of(o, did_id@);
                let a = o.avatars@[h];
                let n = final(self).rooms@[room_name@];
                &&& rooms_same_except(old(self).rooms@, final(self).rooms@, room_name@)
                &&& match description {
                    Some(dsc) => {
                        &&& n == (Room { avatars: n.avatars, ..o })
                        &&& n.avatars@.dom() == o.avatars@.dom()
                        &&& forall|k: Seq<char>| #[trigger] o.avatars@.dom().contains(k) && k != h ==> n.avatars@[k] == o.avatars@[k]
                        &&& n.avatars@[h] == (Avatar { descriptions: n.avatars@[h].descriptions, ..a })
                        &&& n.avatars@[h].descriptions@ == a.descriptions@.insert(crate::avatar::und(), dsc)
                    },
                    None => {
                        &&& n == (Room { avatars: n.avatars, state: crate::room::RoomState { avatars: n.state.avatars, ..o.state }, ..o })
                        &&& n.avatars@ == o.avatars@.insert(h, Avatar { last_seen_at: now, ..a })
                        &&& n.state.avatars@.dom() == o.state.avatars@.dom().insert(did_id@)
                        &&& n.state.avatars@[did_id@]@ == a.inbox@
                    },
                }
            },
            *final(self) == (World { rooms: final(self).rooms, ..*old(self) }),
    {
        let rk = chars_of(room_name);
        let d = chars_of(did_id);
        let i = match self.rooms.find(&rk) {
            None => {
                return false;
            },
            Some(i) => i,
        };
        let ghost orooms = self.rooms@;
        let (k, mut room) = self.rooms.take_at(i);
        let ghost ro = room;
        let found = World::room_has_did(&room, &d);
        let j = match found {
            None => {
                self.rooms.insert_at(i, k, room);
                proof {
                    assert(orooms.remove(rk@).insert(rk@, ro) =~= orooms);
                }
                return false;
            },
            Some(j) => j,
        };
        let (h0, _) = room.avatars.entry_at(j);
        let h = crate::text::slice_chars(h0, 0, h0.len());
        let h2 = crate::text::slice_chars(h0, 0, h0.len());
        proof {
            assert(h@ =~= h0@);
            assert(h2@ =~= h0@);
            crate::world::lemma_handle_of(ro, d@, h@);
        }
        let mut av = room.avatars.remove(&h).unwrap();
        let ghost a = av;
        match description {
            Some(dsc) => {
                av.set_description(dsc);
            },
            None => {
                av.touch_presence(now);
                room.state.touch_avatar(did_id, av.inbox.as_str());
            },
        }
        room.avatars.insert(h2, av);
        let ghost nr = room;
        proof {
            assert forall|h1: Seq<char>, hh: Seq<char>|
                nr.avatars@.dom().contains(h1) && nr.avatars@.dom().contains(hh) && h1 != hh
                implies #[trigger] nr.avatars@[h1].agent_did@ != #[trigger] nr.avatars@[hh].agent_did@ by {
                assert(ro.avatars@.dom().contains(h1) && ro.avatars@.dom().contains(hh));
                assert(nr.avatars@[h1].agent_did == ro.avatars@[h1].agent_did);
                assert(nr.avatars@[hh].agent_did == ro.avatars@[hh].agent_did);
            }
            assert forall|x: Seq<char>| #[trigger] nr.avatars@.dom().contains(x) implies nr.avatars@[x].wf() by {
                assert(ro.avatars@.dom().contains(x));
            }
        }
        self.rooms.insert_at(i, k, room);
        proof {
            assert(orooms.remove(rk@).insert(rk@, nr) =~= orooms.insert(rk@, nr));
            assert forall|x: Seq<char>| #[trigger] nr.has_did(x) implies orooms[rk@].has_did(x) by {
                let hh = choose|hh: Seq<char>| #[trigger] nr.avatars@.dom().contains(hh) && nr.avatars@[hh].agent_did@ == x;
                assert(ro.avatars@.dom().contains(hh));
                assert(nr.avatars@[hh].agent_did == ro.avatars@[hh].agent_did);
            }
            crate::world::lemma_single_membership_shrink(orooms, rk@, nr);
            assert(nr.avatars@.dom() =~= ro.avatars@.dom());
        }
        true
    }

    /// Sets the description of the avatar of `did_id` in `room_name`; `false` when there
    /// is no such avatar.
    pub fn set_avatar_description_for_did(&mut self, room_name: &str, did_id: &str, description: &str) -> (r: bool)
        requires
            old(self).wf(),
        ensures
            final(self).wf(),
            r == (old(self).rooms@.dom().contains(room_name@) && old(self).rooms@[room_name@].has_did(did_id@)),
            !r ==> final(self).rooms@ == old(self).rooms@,
            r ==> {
                let o = old(self).rooms@[room_name@];
                let h = handle_of(o, did_id@);
                let n = final(self).rooms@[room_name@];
                &&& rooms_same_except(old(self).rooms@, final(self).rooms@, room_name@)
                &&& n == (Room { avatars: n.avatars, ..o })
                &&& n.avatars@.dom() == o.avatars@.dom()
                &&& forall|k: Seq<char>| #[trigger] o.avatars@.dom().contains(k) && k != h ==> n.avatars@[k] == o.avatars@[k]
                &&& n.avatars@[h] == (Avatar { descriptions: n.avatars@[h].descriptions, ..o.avatars@[h] })
                &&& n.avatars@[h].descriptions@.dom().contains(crate::avatar::und())
                &&& n.avatars@[h].descriptions@[crate::avatar::und()]@ == description@
                &&& n.avatars@[h].descriptions@ == o.avatars@[h].descriptions@.insert(
                    crate::avatar::und(), n.avatars@[h].descriptions@[crate::avatar::und()])
            },
            *final(self) == (World { rooms: final(self).rooms, ..*old(self) }),
    {
        self.update_avatar_of_did(room_name, did_id, Some(String::from_str(description)), 0)
    }

    /// Marks the avatar of `did_id` in `room_name` as seen at `now` and refreshes its
    /// presence entry; `false` when there is no such avatar.
    pub fn touch_avatar_presence_for_did(&mut self, room_name: &str, did_id: &str, now: u64) -> (r: bool)
        requires
            old(self).wf(),
        ensures
            final(self).wf(),
            r == (old(self).rooms@.dom().contains(room_name@) && old(self).rooms@[room_name@].has_did(did_id@)),
            !r ==> final(self).rooms@ == old(self).rooms@,
            r ==> {
                let o = old(self).rooms@[room_name@];
                let h = handle_of(o, did_id@);
                let a = o.avatars@[h];
                let n = final(self).rooms@[room_name@];
                &&& rooms_same_except(old(self).rooms@, final(self).rooms@, room_name@)
                &&& n.avatars@ == o.avatars@.insert(h, Avatar { last_seen_at: now, ..a })
                &&& n.state.avatars@.dom() == o.state.avatars@.dom().insert(did_id@)
                &&& n.state.avatars@[did_id@]@ == a.inbox@
            },
            *final(self) == (World { rooms: final(self).rooms, ..*old(self) }),
    {
        self.update_avatar_of_did(room_name, did_id, None, now)
    }
}

} // verus!
