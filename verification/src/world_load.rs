//! Installing the rooms of a stored world root index.
use vstd::prelude::*;
use crate::acl::RoomAcl;
use crate::room::{Exit, Room, DEFAULT_AVATAR_STATE_TTL_SECS};
use crate::registry::AvatarRegistryEntry;
use crate::text_map::TextMap;
use crate::text::{strs, append_lit, chars_of, lemma_lex_total, lemma_lex_trans, lex_le, lex_le_chars, seq_added, sort_chars, sorted_lex, string_of, trim, trim_white, views};
use crate::world::{is_valid_nanoid_id, single_membership, unconfigured, valid_nanoid_id, world_did_text, World};

verus! {

/// A stored room ACL document must be of kind `ma_room_acl`, version 1.
pub fn check_room_acl_doc(kind: &str, version: u32, acl_cid: &str, room_name: &str) -> (r: Result<(), String>)
    ensures
        r is Ok <==> kind@ == "ma_room_acl"@ && version == 1,
        r matches Err(e) ==> e@ == "unsupported ACL doc kind/version at "@ + acl_cid@ + " for room '"@ + room_name@ + "'"@,
{
    if crate::text::str_eq(kind, "ma_room_acl") && version == 1 {
        return Ok(());
    }
    let mut m: Vec<char> = Vec::new();
    append_lit(&mut m, "unsupported ACL doc kind/version at ");
    append_lit(&mut m, acl_cid);
    append_lit(&mut m, " for room '");
    append_lit(&mut m, room_name);
    append_lit(&mut m, "'");
    Err(string_of(&m))
}

/// The ACL a loaded room gets: the stored one, owned by the index entry's owner, who is
/// then allowed and not denied.
pub open spec fn owned_acl(acl: RoomAcl, owner: Option<String>, n: RoomAcl) -> bool {
    &&& n.owner == owner
    &&& match owner {
        Some(o) => {
            &&& n.allow_set() == seq_added(acl.allow_set(), o@)
            &&& n.deny_set() == acl.deny_set().filter(|e: Seq<char>| e != o@)
        },
        None => n.allow == acl.allow && n.deny == acl.deny,
    }
}

impl World {
    /// How many rooms have a stored snapshot.
    pub fn persisted_room_count(&self) -> (r: usize)
        requires
            self.wf(),
        ensures
            r == self.room_cids@.len(),
    {
        self.room_cids.len()
    }

    /// Installs the room `room_name` read from the snapshot `room_cid` of a world root
    /// index (a room id that is not valid is skipped). The index entry may name the room
    /// DID (`did_meta`; it replaces the snapshot's where it is non-empty once trimmed and
    /// `did_meta_parses` says it parses as a DID) and the owner; `acl` is the room's
    /// stored ACL. The avatars of a room already present stay.
    pub fn install_loaded_room(
        &mut self,
        room_name: &str,
        loaded: Room,
        did_meta: Option<String>,
        did_meta_parses: bool,
        owner: Option<String>,
        acl: RoomAcl,
        room_cid: &str,
    ) -> (r: bool)
        requires
            old(self).wf(),
            loaded.wf(),
            loaded.avatars@ == Map::<Seq<char>, crate::avatar::Avatar>::empty(),
            acl.distinct(),
        ensures
            final(self).wf(),
            r == valid_nanoid_id(room_name@),
            !r ==> *final(self) == *old(self),
            r ==> {
                let n = final(self).rooms@[room_name@];
                &&& final(self).rooms@ == old(self).rooms@.insert(room_name@, n)
                &&& n == (Room { url: n.url, acl: n.acl, avatars: n.avatars, ..loaded })
                &&& n.url@ == match did_meta {
                    Some(d) => if trim(d@).len() > 0 && did_meta_parses { trim(d@) } else { loaded.url@ },
                    None => loaded.url@,
                }
                &&& owned_acl(acl, owner, n.acl)
                &&& n.avatars@ == if old(self).rooms@.dom().contains(room_name@) {
                    old(self).rooms@[room_name@].avatars@
                } else {
                    loaded.avatars@
                }
                &&& final(self).room_cids@.dom() == old(self).room_cids@.dom().insert(room_name@)
                &&& final(self).room_cids@[room_name@]@ == room_cid@
                &&& forall|k: Seq<char>| k != room_name@ && #[trigger] old(self).room_cids@.dom().contains(k)
                    ==> final(self).room_cids@[k] == old(self).room_cids@[k]
                &&& *final(self) == (World { rooms: final(self).rooms, room_cids: final(self).room_cids, ..*old(self) })
            },
    {
        let key = chars_of(room_name);
        if !is_valid_nanoid_id(&key) {
            return false;
        }
        let mut room = loaded;
        match did_meta {
            Some(d) => {
                let t = trim_white(&chars_of(d.as_str()));
                if t.len() > 0 && did_meta_parses {
                    room.url = string_of(&t);
                }
            },
            None => {},
        }
        let mut acl = acl;
        match owner {
            Some(o) => acl.set_owner(o),
            None => {
                acl.owner = None;
            },
        }
        room.acl = acl;
        let ghost orooms = self.rooms@;
        match self.rooms.remove(&key) {
            Some(existing) => {
                room.avatars = existing.avatars;
            },
            None => {},
        }
        let ghost nr = room;
        proof {
            if orooms.dom().contains(key@) {
                assert(orooms[key@].wf());
            }
            assert forall|x: Seq<char>| #[trigger] nr.has_did(x) implies orooms.dom().contains(key@) && orooms[key@].has_did(x) by {
                let hh = choose|hh: Seq<char>| #[trigger] nr.avatars@.dom().contains(hh) && nr.avatars@[hh].agent_did@ == x;
                if !orooms.dom().contains(key@) {
                    assert(!loaded.avatars@.dom().contains(hh));
                }
            }
        }
        self.rooms.insert(key, room);
        proof {
            assert(orooms.remove(key@).insert(key@, nr) =~= orooms.insert(key@, nr));
            assert(self.rooms@ == orooms.insert(key@, nr));
            if orooms.dom().contains(key@) {
                crate::world::lemma_single_membership_shrink(orooms, key@, nr);
            } else {
                assert forall|r1: Seq<char>, r2: Seq<char>, d: Seq<char>|
                    self.rooms@.dom().contains(r1) && self.rooms@.dom().contains(r2) && r1 != r2 && #[trigger] self.rooms@[r1].has_did(d)
                    implies !#[trigger] self.rooms@[r2].has_did(d) by {
                    if r1 == key@ || r2 == key@ {
                        if r1 == key@ {
                            assert(!nr.has_did(d));
                        } else {
                            assert(!nr.has_did(d));
                        }
                    }
                }
                assert(single_membership(self.rooms@));
            }
        }
        self.room_cids.insert(chars_of(room_name), String::from_str(room_cid));
        true
    }
}

/// A registry as a stored index carries it: a well-formed map whose entries' shortcut maps
/// are well-formed.
pub open spec fn registry_wf(r: TextMap<AvatarRegistryEntry>) -> bool {
    &&& r.wf()
    &&& forall|f: Seq<char>| #[trigger] r@.dom().contains(f) ==> r@[f].shortcuts.wf()
}

impl World {
    /// Takes the world-level fields of a stored root index: the avatar registry (the
    /// public one unless it is empty, else the top-level one), the state CID (the private
    /// section's, else the top-level one) and the language CID (the public one, else the
    /// top-level one).
    pub fn adopt_root_index(
        &mut self,
        public_avatars: TextMap<AvatarRegistryEntry>,
        legacy_avatars: TextMap<AvatarRegistryEntry>,
        private_state_cid: Option<String>,
        legacy_state_cid: Option<String>,
        public_lang_cid: Option<String>,
        legacy_lang_cid: Option<String>,
    )
        requires
            old(self).wf(),
            registry_wf(public_avatars),
            registry_wf(legacy_avatars),
        ensures
            final(self).wf(),
            *final(self) == (World {
                avatar_registry: if public_avatars@.len() > 0 { public_avatars } else { legacy_avatars },
                state_cid: if private_state_cid is Some { private_state_cid } else { legacy_state_cid },
                lang_cid: if public_lang_cid is Some { public_lang_cid } else { legacy_lang_cid },
                ..*old(self)
            }),
    {
        proof {
            crate::text_map::lemma_map_of_len(public_avatars.entries@);
        }
        self.avatar_registry = if public_avatars.len() > 0 { public_avatars } else { legacy_avatars };
        self.state_cid = match private_state_cid {
            Some(s) => Some(s),
            None => legacy_state_cid,
        };
        self.lang_cid = match public_lang_cid {
            Some(l) => Some(l),
            None => legacy_lang_cid,
        };
    }

    /// Forgets the avatar registry (a root index in the old format carries none).
    pub fn clear_avatar_registry(&mut self)
        requires
            old(self).wf(),
        ensures
            final(self).wf(),
            *final(self) == (World { avatar_registry: final(self).avatar_registry, ..*old(self) }),
            final(self).avatar_registry@ == Map::<Seq<char>, AvatarRegistryEntry>::empty(),
    {
        self.avatar_registry = TextMap::new();
    }
}

pub open spec fn exits_by_name(s: Seq<Exit>) -> bool {
    forall|i: int, j: int| 0 <= i < j < s.len() ==> lex_le(s[i].name@, s[j].name@)
}

pub open spec fn named(n: Seq<char>) -> spec_fn(Exit) -> bool {
    |e: Exit| e.name@ == n
}

proof fn lemma_insert_filter(out: Seq<Exit>, pos: int, x: Exit, n: Seq<char>)
    requires
        0 <= pos <= out.len(),
        forall|k: int| pos <= k < out.len() ==> !lex_le(#[trigger] out[k].name@, x.name@),
    ensures
        out.insert(pos, x).filter(named(n)) == if x.name@ == n { out.filter(named(n)).push(x) } else { out.filter(named(n)) },
{
    let a = out.subrange(0, pos);
    let b = out.subrange(pos, out.len() as int);
    assert(out =~= a + b);
    assert(out.insert(pos, x) =~= a + (seq![x] + b));
    Seq::filter_distributes_over_add(a, b, named(n));
    Seq::filter_distributes_over_add(seq![x], b, named(n));
    Seq::filter_distributes_over_add(a, seq![x] + b, named(n));
    reveal(Seq::filter);
    assert(seq![x].drop_last() =~= Seq::<Exit>::empty());
    assert(Seq::<Exit>::empty().filter(named(n)) =~= Seq::<Exit>::empty());
    if x.name@ == n {
        lemma_lex_total(n, n);
        assert forall|k: int| 0 <= k < b.len() implies !named(n)(#[trigger] b[k]) by {
            assert(b[k] == out[pos + k]);
        }
        b.lemma_all_neg_filter_empty(named(n));
        assert(b.filter(named(n)) =~= Seq::<Exit>::empty());
        assert(seq![x].filter(named(n)) =~= seq![x]);
        assert(a.filter(named(n)) + (seq![x] + Seq::<Exit>::empty()) =~= (a.filter(named(n)) + Seq::<Exit>::empty()).push(x));
    } else {
        assert(seq![x].filter(named(n)) =~= Seq::<Exit>::empty());
        assert(Seq::<Exit>::empty() + b.filter(named(n)) =~= b.filter(named(n)));
    }
}

/// Sorts exits by name; exits of the same name keep their order.
pub fn sort_exits_by_name(v: Vec<Exit>) -> (r: Vec<Exit>)
    ensures
        exits_by_name(r@),
        forall|n: Seq<char>| #[trigger] r@.filter(named(n)) == v@.filter(named(n)),
        r@.to_multiset() == v@.to_multiset(),
{
    let ghost orig = v@;
    let mut src = v;
    let mut out: Vec<Exit> = Vec::new();
    let ghost mut taken: Seq<Exit> = Seq::empty();
    proof {
        assert(taken + src@ =~= orig);
        assert forall|n: Seq<char>| #[trigger] out@.filter(named(n)) == taken.filter(named(n)) by {
            reveal(Seq::filter);
        }
    }
    while src.len() > 0
        invariant
            exits_by_name(out@),
            taken + src@ == orig,
            forall|n: Seq<char>| #[trigger] out@.filter(named(n)) == taken.filter(named(n)),
            out@.to_multiset() == taken.to_multiset(),
        decreases src.len(),
    {
        let ghost src_before = src@;
        let x = src.remove(0);
        proof {
            assert(src_before =~= seq![x] + src@);
        }
        let xk = chars_of(x.name.as_str());
        let mut pos: usize = 0;
        while pos < out.len() && lex_le_chars(&chars_of(out[pos].name.as_str()), &xk)
            invariant
                0 <= pos <= out.len(),
                xk@ == x.name@,
                forall|k: int| 0 <= k < pos ==> lex_le(#[trigger] out@[k].name@, x.name@),
            decreases out.len() - pos,
        {
            pos = pos + 1;
        }
        let ghost out_before = out@;
        let ghost xv = x;
        proof {
            if pos < out.len() {
                lemma_lex_total(out_before[pos as int].name@, x.name@);
            }
            assert forall|k: int| pos <= k < out_before.len() implies !lex_le(#[trigger] out_before[k].name@, xv.name@) by {
                if k > pos {
                    if lex_le(out_before[k].name@, xv.name@) {
                        lemma_lex_trans(out_before[pos as int].name@, out_before[k].name@, xv.name@);
                    }
                }
            }
        }
        out.insert(pos, x);
        proof {
            let s = out@;
            assert(s =~= out_before.insert(pos as int, xv));
            assert forall|i: int, j: int| 0 <= i < j < s.len() implies lex_le(s[i].name@, s[j].name@) by {
                if j < pos {
                } else if j == pos {
                } else if i < pos {
                    assert(lex_le(out_before[i].name@, out_before[j - 1].name@));
                } else if i == pos {
                    lemma_lex_total(out_before[j - 1].name@, xv.name@);
                } else {
                    assert(lex_le(out_before[i - 1].name@, out_before[j - 1].name@));
                }
            }
            let taken2 = taken.push(xv);
            assert forall|n: Seq<char>| #[trigger] s.filter(named(n)) == taken2.filter(named(n)) by {
                lemma_insert_filter(out_before, pos as int, xv, n);
                taken.lemma_filter_push(xv, named(n));
            }
            vstd::seq_lib::to_multiset_insert(out_before, pos as int, xv);
            vstd::seq_lib::to_multiset_build(taken, xv);
            assert(taken2 + src@ =~= orig);
            taken = taken2;
        }
    }
    proof {
        assert(taken =~= orig);
    }
    out
}

/// The room DID a stored document gets: its own DID (trimmed) when that parses, else the
/// world's DID for the room.
pub open spec fn stored_room_did(w: World, room_name: Seq<char>, authored: Seq<char>, parses: bool) -> Seq<char> {
    if parses {
        trim(authored)
    } else {
        world_did_text(match w.world_ipns { Some(i) => i@, None => unconfigured() }, room_name)
    }
}

/// What every materialized room starts from, as `Room::new` makes it.
pub open spec fn fresh_room_state(r: Room) -> bool {
    &&& r.wf()
    &&& r.avatars@ == Map::<Seq<char>, crate::avatar::Avatar>::empty()
    &&& r.acl.owner is None
    &&& forall|id: Seq<char>| r.acl.admits(id)
    &&& r.state.events@.len() == 0
    &&& r.state.next_event_sequence == 0
    &&& r.state.avatar_ttl_secs == DEFAULT_AVATAR_STATE_TTL_SECS
    &&& r.state.dispatch_queue@.len() == 0
}

/// The exits of a stored room document, to be fetched in exit-id order: `(exit id, CID)`.
pub fn exit_fetch_order(exit_cids: &TextMap<String>) -> (r: Vec<(String, String)>)
    requires
        exit_cids.wf(),
    ensures
        sorted_lex(r@.map_values(|p: (String, String)| p.0@)),
        r@.map_values(|p: (String, String)| p.0@).to_multiset() == exit_cids.key_seq().to_multiset(),
        forall|i: int| 0 <= i < r@.len() ==> exit_cids@.dom().contains(#[trigger] r@[i].0@) && exit_cids@[r@[i].0@] == r@[i].1,
{
    let mut keys: Vec<Vec<char>> = Vec::new();
    let mut i: usize = 0;
    while i < exit_cids.entries.len()
        invariant
            exit_cids.wf(),
            0 <= i <= exit_cids.entries@.len(),
            views(keys@) == exit_cids.key_seq().subrange(0, i as int),
        decreases exit_cids.entries.len() - i,
    {
        let (k, _) = exit_cids.entry_at(i);
        let kc = crate::text::slice_chars(k, 0, k.len());
        assert(kc@ =~= k@);
        let ghost before = views(keys@);
        keys.push(kc);
        proof {
            assert(views(keys@) =~= before.push(exit_cids.key_seq()[i as int]));
            assert(exit_cids.key_seq().subrange(0, i + 1) =~= exit_cids.key_seq().subrange(0, i as int).push(exit_cids.key_seq()[i as int]));
        }
        i = i + 1;
    }
    assert(exit_cids.key_seq().subrange(0, exit_cids.entries@.len() as int) =~= exit_cids.key_seq());
    let sorted = sort_chars(keys);
    let ghost ids = views(sorted@);
    let mut out: Vec<(String, String)> = Vec::new();
    let mut j: usize = 0;
    while j < sorted.len()
        invariant
            exit_cids.wf(),
            ids == views(sorted@),
            ids.to_multiset() == exit_cids.key_seq().to_multiset(),
            0 <= j <= sorted@.len(),
            out@.map_values(|p: (String, String)| p.0@) == ids.subrange(0, j as int),
            forall|k: int| 0 <= k < out@.len() ==> exit_cids@.dom().contains(#[trigger] out@[k].0@) && exit_cids@[out@[k].0@] == out@[k].1,
        decreases sorted.len() - j,
    {
        let id = &sorted[j];
        proof {
            assert(ids[j as int] == id@);
            assert(ids.contains(id@));
            vstd::seq_lib::to_multiset_contains(ids, id@);
            vstd::seq_lib::to_multiset_contains(exit_cids.key_seq(), id@);
            crate::text_map::lemma_wf_dom(*exit_cids);
            let k = choose|k: int| 0 <= k < exit_cids.key_seq().len() && exit_cids.key_seq()[k] == id@;
            crate::text_map::lemma_wf_index(*exit_cids, k);
        }
        let cid = exit_cids.get(id).unwrap().clone();
        let ghost before = out@;
        out.push((string_of(id), cid));
        proof {
            assert(out@.map_values(|p: (String, String)| p.0@) =~= before.map_values(|p: (String, String)| p.0@).push(id@));
            assert(ids.subrange(0, j + 1) =~= ids.subrange(0, j as int).push(id@));
        }
        j = j + 1;
    }
    assert(ids.subrange(0, ids.len() as int) =~= ids);
    out
}

impl World {
    /// A room from a stored room document in the current format: its id, authored DID
    /// (`did_parses`: whether it parses once trimmed), titles and descriptions, and its
    /// exits: those fetched by CID when the document lists exit CIDs, else its inline
    /// ones, sorted by name. The flag says the document needs rewriting (its DID did not
    /// parse and the world's DID for the room took its place).
    pub fn materialize_room_v2(
        &self,
        room_name: &str,
        id: String,
        authored_did: Option<String>,
        did_parses: bool,
        titles: TextMap<String>,
        descriptions: TextMap<String>,
        has_exit_cids: bool,
        fetched_exits: Vec<Exit>,
        inline_exits: Vec<Exit>,
    ) -> (r: (Room, bool))
        requires
            titles.wf(),
            descriptions.wf(),
        ensures
            r.1 == !did_parses,
            fresh_room_state(r.0),
            r.0.name == id,
            r.0.url@ == stored_room_did(*self, room_name@, match authored_did { Some(d) => d@, None => Seq::empty() }, did_parses),
            r.0.titles == titles,
            r.0.descriptions == descriptions,
            exits_by_name(r.0.exits@),
            forall|n: Seq<char>| #[trigger] r.0.exits@.filter(named(n))
                == (if has_exit_cids { fetched_exits@ } else { inline_exits@ }).filter(named(n)),
    {
        let authored = match &authored_did {
            Some(d) => trim_white(&chars_of(d.as_str())),
            None => Vec::new(),
        };
        proof {
            if authored_did is None {
                assert(trim(Seq::<char>::empty()) =~= Seq::<char>::empty());
            }
        }
        let room_did = if did_parses { string_of(&authored) } else { self.build_room_did(room_name) };
        let mut room = Room::new(id, room_did);
        room.titles = titles;
        room.descriptions = descriptions;
        let exits = if has_exit_cids { fetched_exits } else { inline_exits };
        room.exits = sort_exits_by_name(exits);
        (room, !did_parses)
    }

    /// A room from a stored room document in the old format: its name (the room's own
    /// name when blank), title (kept when not blank once trimmed), authored DID (as in the
    /// current format), descriptions and exits, as stored.
    pub fn materialize_room_legacy(
        &self,
        room_name: &str,
        name: String,
        title: &str,
        authored_did: &str,
        did_parses: bool,
        descriptions: TextMap<String>,
        exits: Vec<Exit>,
    ) -> (r: (Room, bool))
        requires
            descriptions.wf(),
        ensures
            r.1 == !did_parses,
            fresh_room_state(r.0),
            r.0.name@ == if trim(name@).len() == 0 { room_name@ } else { name@ },
            r.0.url@ == stored_room_did(*self, room_name@, authored_did@, did_parses),
            trim(title@).len() > 0 ==> r.0.titles@ == Map::<Seq<char>, String>::empty().insert(crate::avatar::und(), r.0.titles@[crate::avatar::und()])
                && r.0.titles@[crate::avatar::und()]@ == trim(title@),
            trim(title@).len() == 0 ==> r.0.titles@ == Map::<Seq<char>, String>::empty(),
            r.0.descriptions == descriptions,
            r.0.exits == exits,
    {
        let id = if trim_white(&chars_of(name.as_str())).len() == 0 { String::from_str(room_name) } else { name };
        let authored = trim_white(&chars_of(authored_did));
        let room_did = if did_parses { string_of(&authored) } else { self.build_room_did(room_name) };
        let mut room = Room::new(id, room_did);
        room.exits = exits;
        room.descriptions = descriptions;
        let t = trim_white(&chars_of(title));
        if t.len() > 0 {
            room.set_title(string_of(&t));
        }
        (room, !did_parses)
    }
}

/// A room of a stored world root index, as the caller read it from storage.
pub struct IndexRoomEntry {
    pub name: String,
    /// The CID of the room's snapshot.
    pub cid: String,
    /// The room DID the index entry names, and whether it parses as a DID once trimmed.
    pub did: Option<String>,
    pub did_parses: bool,
    pub owner: Option<String>,
    /// The CID of the room's ACL document; blank when the entry names none.
    pub acl_cid: String,
    /// The room as fetched and read from `cid`; `None` when that failed (it is skipped).
    pub loaded: Option<LoadedRoom>,
}

/// A room snapshot that was fetched and read.
pub struct LoadedRoom {
    pub room: Room,
    /// The snapshot's DID did not parse and is to be rewritten.
    pub needs_rewrite: bool,
    /// The room's ACL document, read from the entry's ACL CID: `None` when the entry names
    /// no ACL CID (the snapshot's own ACL stays), the document's kind, version and ACL, or
    /// the error of reading it.
    pub acl_doc: Result<Option<(String, u32, RoomAcl)>, String>,
}

/// The entry is installed: its id is valid and its snapshot was read.
pub open spec fn loadable(e: IndexRoomEntry) -> bool {
    valid_nanoid_id(e.name@) && e.loaded is Some
}

/// Installing the entry stops the load: its ACL document could not be read, or is not a
/// room ACL of version 1.
pub open spec fn entry_fails(e: IndexRoomEntry) -> bool {
    loadable(e) && match e.loaded->Some_0.acl_doc {
        Err(_) => true,
        Ok(None) => false,
        Ok(Some(d)) => !(d.0@ == "ma_room_acl"@ && d.1 == 1),
    }
}

pub open spec fn fail_text(e: IndexRoomEntry) -> Seq<char> {
    match e.loaded->Some_0.acl_doc {
        Err(m) => m@,
        _ => "unsupported ACL doc kind/version at "@ + e.acl_cid@ + " for room '"@ + e.name@ + "'"@,
    }
}

/// How many of `entries` are installed.
pub open spec fn loaded_count(entries: Seq<IndexRoomEntry>) -> nat
    decreases entries.len(),
{
    if entries.len() == 0 {
        0
    } else {
        loaded_count(entries.drop_last()) + if loadable(entries.last()) { 1nat } else { 0nat }
    }
}

/// The rooms among `entries` whose snapshot is to be rewritten.
pub open spec fn rewrite_names(entries: Seq<IndexRoomEntry>) -> Set<Seq<char>> {
    Set::new(|n: Seq<char>| exists|i: int| 0 <= i < entries.len() && loadable(#[trigger] entries[i])
        && entries[i].name@ == n && entries[i].loaded->Some_0.needs_rewrite)
}

fn copy_strings(v: &Vec<String>) -> (r: Vec<String>)
    ensures
        r@ == v@,
{
    let mut out: Vec<String> = Vec::new();
    let mut i: usize = 0;
    while i < v.len()
        invariant
            0 <= i <= v@.len(),
            out@ == v@.subrange(0, i as int),
        decreases v.len() - i,
    {
        out.push(v[i].clone());
        assert(out@ =~= v@.subrange(0, i + 1));
        i = i + 1;
    }
    assert(v@.subrange(0, v@.len() as int) =~= v@);
    out
}

impl World {
    /// Loads the rooms of the world root index at `root_cid` into the world, in the
    /// index's order: each room with a valid id whose snapshot was read is installed (see
    /// `install_loaded_room`), with the ACL document the entry names where it names one.
    /// An ACL document that could not be read, or is of the wrong kind or version, stops
    /// the load with its error (rooms before it stay installed). On success returns how
    /// many rooms were installed and, sorted and without repeats, those whose snapshot is
    /// to be rewritten; the reverse index of exits is rebuilt.
    pub fn install_loaded_rooms(&mut self, root_cid: &str, entries: Vec<IndexRoomEntry>) -> (r: Result<(usize, Vec<String>), String>)
        requires
            old(self).wf(),
            entries@.len() < usize::MAX,
            forall|i: int| 0 <= i < entries@.len() && (#[trigger] entries@[i]).loaded is Some ==> {
                let lr = entries@[i].loaded->Some_0;
                &&& lr.room.wf()
                &&& lr.room.avatars@ == Map::<Seq<char>, crate::avatar::Avatar>::empty()
                &&& (lr.acl_doc matches Ok(Some(d)) ==> d.2.distinct())
            },
        ensures
            final(self).wf(),
            final(self).world_cid matches Some(c) && c@ == root_cid@,
            match r {
                Ok((k, names)) => {
                    &&& forall|i: int| 0 <= i < entries@.len() ==> !entry_fails(#[trigger] entries@[i])
                    &&& k == loaded_count(entries@)
                    &&& sorted_lex(strs(names@))
                    &&& strs(names@).no_duplicates()
                    &&& strs(names@).to_set() == rewrite_names(entries@)
                    &&& crate::exits::is_exit_index(final(self).exit_reverse_index@, final(self).exit_refs_now())
                },
                Err(e) => exists|i: int| 0 <= i < entries@.len() && entry_fails(#[trigger] entries@[i])
                    && e@ == fail_text(entries@[i])
                    && forall|j: int| 0 <= j < i ==> !entry_fails(#[trigger] entries@[j]),
            },
            forall|i: int| 0 <= i < entries@.len() && loadable(#[trigger] entries@[i]) && !entry_fails(entries@[i])
                && (forall|j: int| 0 <= j <= i ==> !entry_fails(#[trigger] entries@[j]))
                ==> final(self).room_cids@.dom().contains(entries@[i].name@),
    {
        self.world_cid = Some(String::from_str(root_cid));
        let ghost orig = entries@;
        let mut src = entries;
        let mut count: usize = 0;
        let mut rewrite: Vec<String> = Vec::new();
        let mut i: usize = 0;
        proof {
            assert(src@ =~= orig.subrange(0, orig.len() as int));
            assert(orig.subrange(0, 0) =~= Seq::<IndexRoomEntry>::empty());
        }
        while src.len() > 0
            invariant
                self.wf(),
                orig == entries@,
                self.world_cid matches Some(c) && c@ == root_cid@,
                0 <= i <= orig.len(),
                orig.len() < usize::MAX,
                src@ == orig.subrange(i as int, orig.len() as int),
                forall|j: int| 0 <= j < orig.len() && (#[trigger] orig[j]).loaded is Some ==> {
                    let lr = orig[j].loaded->Some_0;
                    &&& lr.room.wf()
                    &&& lr.room.avatars@ == Map::<Seq<char>, crate::avatar::Avatar>::empty()
                    &&& (lr.acl_doc matches Ok(Some(d)) ==> d.2.distinct())
                },
                forall|j: int| 0 <= j < i ==> !entry_fails(#[trigger] orig[j]),
                count as nat == loaded_count(orig.subrange(0, i as int)),
                count <= i,
                strs(rewrite@).no_duplicates(),
                strs(rewrite@).to_set() == rewrite_names(orig.subrange(0, i as int)),
                forall|j: int| 0 <= j < i && loadable(#[trigger] orig[j]) ==> self.room_cids@.dom().contains(orig[j].name@),
            decreases src.len(),
        {
            let e = src.remove(0);
            let ghost ge = e;
            proof {
                assert(ge == orig[i as int]);
                assert(orig.subrange(0, i + 1).drop_last() =~= orig.subrange(0, i as int));
                assert(orig.subrange(0, i + 1).last() == ge);
                assert(src@ =~= orig.subrange(i + 1, orig.len() as int));
            }
            let IndexRoomEntry { name, cid, did, did_parses, owner, acl_cid, loaded } = e;
            let key = chars_of(name.as_str());
            if is_valid_nanoid_id(&key) {
                match loaded {
                    None => {},
                    Some(lr) => {
                        let LoadedRoom { room, needs_rewrite, acl_doc } = lr;
                        let acl = match acl_doc {
                            Err(m) => {
                                proof {
                                    assert(entry_fails(orig[i as int]));
                                    assert forall|j: int| 0 <= j < orig.len() && loadable(#[trigger] orig[j]) && !entry_fails(orig[j])
                                        && (forall|jj: int| 0 <= jj <= j ==> !entry_fails(#[trigger] orig[jj]))
                                        implies self.room_cids@.dom().contains(orig[j].name@) by {
                                        if j >= i {
                                            assert(!entry_fails(orig[i as int]));
                                        }
                                    }
                                }
                                return Err(m);
                            },
                            Ok(None) => RoomAcl {
                                owner: crate::room::clone_opt_string(&room.acl.owner),
                                allow: copy_strings(&room.acl.allow),
                                deny: copy_strings(&room.acl.deny),
                            },
                            Ok(Some((kind, version, acl))) => {
                                match check_room_acl_doc(kind.as_str(), version, acl_cid.as_str(), name.as_str()) {
                                    Err(m) => {
                                        proof {
                                    assert(entry_fails(orig[i as int]));
                                    assert forall|j: int| 0 <= j < orig.len() && loadable(#[trigger] orig[j]) && !entry_fails(orig[j])
                                        && (forall|jj: int| 0 <= jj <= j ==> !entry_fails(#[trigger] orig[jj]))
                                        implies self.room_cids@.dom().contains(orig[j].name@) by {
                                        if j >= i {
                                            assert(!entry_fails(orig[i as int]));
                                        }
                                    }
                                }
                                return Err(m);
                                    },
                                    Ok(()) => acl,
                                }
                            },
                        };
                        let _ = self.install_loaded_room(name.as_str(), room, did, did_parses, owner, acl, cid.as_str());
                        count = count + 1;
                        if needs_rewrite {
                            crate::text::set_add(&mut rewrite, name);
                        }
                    },
                }
            }
            proof {
                let pre = orig.subrange(0, i as int);
                let post = orig.subrange(0, i + 1);
                assert(post.drop_last() =~= pre);
                assert forall|n: Seq<char>| #[trigger] rewrite_names(post).contains(n) == strs(rewrite@).to_set().contains(n) by {
                    if rewrite_names(post).contains(n) {
                        let k = choose|k: int| 0 <= k < post.len() && loadable(#[trigger] post[k])
                            && post[k].name@ == n && post[k].loaded->Some_0.needs_rewrite;
                        if k < i {
                            assert(pre[k] == post[k]);
                            assert(rewrite_names(pre).contains(n));
                        }
                    }
                    if rewrite_names(pre).contains(n) {
                        let k = choose|k: int| 0 <= k < pre.len() && loadable(#[trigger] pre[k])
                            && pre[k].name@ == n && pre[k].loaded->Some_0.needs_rewrite;
                        assert(post[k] == pre[k]);
                    }
                    if loadable(ge) && ge.loaded->Some_0.needs_rewrite && n == ge.name@ {
                        assert(post[i as int] == ge);
                    }
                }
                assert(rewrite_names(post) =~= strs(rewrite@).to_set());
            }
            i = i + 1;
        }
        proof {
            assert(orig.subrange(0, i as int) =~= orig);
        }
        let sorted_names = crate::text::sort_chars(crate::avatar_commands::strings_chars(&rewrite));
        let mut names: Vec<String> = Vec::new();
        let mut k: usize = 0;
        while k < sorted_names.len()
            invariant
                0 <= k <= sorted_names@.len(),
                strs(names@) == views(sorted_names@).subrange(0, k as int),
            decreases sorted_names.len() - k,
        {
            let ghost before = strs(names@);
            names.push(string_of(&sorted_names[k]));
            proof {
                assert(strs(names@) =~= before.push(views(sorted_names@)[k as int]));
                assert(views(sorted_names@).subrange(0, k + 1) =~= views(sorted_names@).subrange(0, k as int).push(views(sorted_names@)[k as int]));
            }
            k = k + 1;
        }
        proof {
            assert(views(sorted_names@).subrange(0, sorted_names@.len() as int) =~= views(sorted_names@));
            let a = strs(rewrite@);
            let b = strs(names@);
            assert(b.to_multiset() == a.to_multiset());
            a.lemma_multiset_has_no_duplicates();
            assert forall|x: Seq<char>| b.to_multiset().contains(x) implies b.to_multiset().count(x) == 1 by {
                assert(a.to_multiset().contains(x));
            }
            b.lemma_multiset_has_no_duplicates_conv();
            assert forall|x: Seq<char>| #[trigger] b.to_set().contains(x) == a.to_set().contains(x) by {
                vstd::seq_lib::to_multiset_contains(a, x);
                vstd::seq_lib::to_multiset_contains(b, x);
            }
            assert(b.to_set() =~= a.to_set());
        }
        self.rebuild_exit_reverse_index();
        Ok((count, names))
    }
}

} // verus!
