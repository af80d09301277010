//! The avatar registry: what the world publishes of each avatar, keyed by DID fragment.
use vstd::prelude::*;
use crate::avatar::{und, unset_text, Avatar};
use crate::avatar_prop::avatar_fragment;
use crate::text::{append_chars, append_lit, before_first, chars_eq, chars_of, class_pred, has_prefix, join, join_chars, lex_le, lex_le_chars, lemma_lex_total, lemma_lex_trans, slice_chars, sort_chars, sorted_lex, split_by, split_class, split_first, starts_with_lit, str_eq, string_of, trim, trim_white, views, CharClass};
use crate::text_map::{lemma_wf_index, TextMap};
use crate::world::{any_room_has_did, handle_of, room_of, sview, World};

verus! {

/// A link to the DID document of an avatar's identity.
pub struct IpldLink {
    pub cid: String,
}

/// What the world publishes of one avatar.
pub struct AvatarRegistryEntry {
    pub did: String,
    pub name: String,
    pub description: String,
    pub owner: String,
    pub fragment: String,
    pub lang: String,
    pub endpoint: String,
    pub room: String,
    pub key_agreement: String,
    pub acl: String,
    /// Object shortcuts: alias to object id.
    pub shortcuts: TextMap<String>,
    pub identity: IpldLink,
}

/// Two entries publish the same text.
pub open spec fn same_entry(a: AvatarRegistryEntry, b: AvatarRegistryEntry) -> bool {
    &&& a.did@ == b.did@
    &&& a.name@ == b.name@
    &&& a.description@ == b.description@
    &&& a.owner@ == b.owner@
    &&& a.fragment@ == b.fragment@
    &&& a.lang@ == b.lang@
    &&& a.endpoint@ == b.endpoint@
    &&& a.room@ == b.room@
    &&& a.key_agreement@ == b.key_agreement@
    &&& a.acl@ == b.acl@
    &&& sview(a.shortcuts@) == sview(b.shortcuts@)
    &&& a.identity.cid@ == b.identity.cid@
}

/// The IPNS name of a `did:ma:` DID: what lies between the method prefix and the fragment.
pub open spec fn ipns_of(did: Seq<char>) -> Seq<char> {
    let b = before_first(did, class_pred(CharClass::Is('#')));
    if has_prefix(b, "did:ma:"@) {
        b.subrange(7, b.len() as int)
    } else {
        b
    }
}

pub open spec fn description_text(a: Avatar) -> Seq<char> {
    if a.descriptions@.dom().contains(und()) {
        a.descriptions@[und()]@
    } else {
        unset_text()
    }
}

/// `e` is the registry entry of the avatar `a` of room `room`.
pub open spec fn registry_entry_for(room: Seq<char>, a: Avatar, e: AvatarRegistryEntry) -> bool {
    &&& e.did@ == a.agent_did@
    &&& e.name@ == a.inbox@
    &&& e.description@ == description_text(a)
    &&& e.owner@ == a.owner@
    &&& e.fragment@ == avatar_fragment(a)
    &&& e.lang@ == a.language_order@
    &&& e.endpoint@ == a.agent_endpoint@
    &&& e.room@ == room
    &&& (a.encryption_pubkey_multibase matches Some(k) && e.key_agreement@ == k@)
    &&& e.acl@ == a.acl.summary_text()
    &&& e.shortcuts.wf()
    &&& e.shortcuts@ == a.object_shortcuts@
    &&& e.identity.cid@ == "/ipns/"@ + ipns_of(a.agent_did@)
}

pub open spec fn quoted_not_found(did: Seq<char>) -> Seq<char> {
    "avatar '"@ + did + "' not found in world rooms"@
}

pub open spec fn missing_fragment_text(did: Seq<char>) -> Seq<char> {
    "avatar DID '"@ + did + "' missing fragment"@
}

pub open spec fn missing_key_agreement_text(did: Seq<char>) -> Seq<char> {
    "avatar '"@ + did + "' missing keyAgreement public key"@
}

fn copy_string_map(m: &TextMap<String>) -> (r: TextMap<String>)
    requires
        m.wf(),
    ensures
        r.wf(),
        r@ == m@,
{
    let mut r: TextMap<String> = TextMap::new();
    let mut i: usize = 0;
    while i < m.entries.len()
        invariant
            m.wf(),
            0 <= i <= m.entries@.len(),
            r.wf(),
            r@ == crate::text_map::map_of(m.entries@.take(i as int)),
        decreases m.entries.len() - i,
    {
        let (k, v) = m.entry_at(i);
        let kk = slice_chars(k, 0, k.len());
        assert(kk@ =~= k@);
        r.insert(kk, v.clone());
        proof {
            assert(m.entries@.take(i + 1).drop_last() =~= m.entries@.take(i as int));
        }
        i = i + 1;
    }
    assert(m.entries@.take(m.entries@.len() as int) =~= m.entries@);
    r
}

/// Every entry of `a` is in `b` with the same text.
fn string_map_within(a: &TextMap<String>, b: &TextMap<String>) -> (r: bool)
    requires
        a.wf(),
        b.wf(),
    ensures
        r == forall|k: Seq<char>| #[trigger] a@.dom().contains(k) ==> b@.dom().contains(k) && b@[k]@ == a@[k]@,
{
    let mut i: usize = 0;
    while i < a.entries.len()
        invariant
            a.wf(),
            b.wf(),
            0 <= i <= a.entries@.len(),
            forall|j: int| 0 <= j < i ==> b@.dom().contains(#[trigger] a.entries@[j].0@) && b@[a.entries@[j].0@]@ == a.entries@[j].1@,
        decreases a.entries.len() - i,
    {
        let (k, v) = a.entry_at(i);
        match b.get(k) {
            Some(w) => {
                if !str_eq(v.as_str(), w.as_str()) {
                    proof {
                        lemma_wf_index(*a, i as int);
                    }
                    return false;
                }
            },
            None => {
                proof {
                    lemma_wf_index(*a, i as int);
                }
                return false;
            },
        }
        i = i + 1;
    }
    proof {
        assert forall|k: Seq<char>| #[trigger] a@.dom().contains(k) implies b@.dom().contains(k) && b@[k]@ == a@[k]@ by {
            crate::text_map::lemma_wf_dom(*a);
            let j = choose|j: int| 0 <= j < a.entries@.len() && a.entries@[j].0@ == k;
            lemma_wf_index(*a, j);
        }
    }
    true
}

fn same_string_map(a: &TextMap<String>, b: &TextMap<String>) -> (r: bool)
    requires
        a.wf(),
        b.wf(),
    ensures
        r == (sview(a@) == sview(b@)),
{
    let ab = string_map_within(a, b);
    let ba = string_map_within(b, a);
    proof {
        if ab && ba {
            assert(sview(a@) =~= sview(b@));
        }
        if sview(a@) == sview(b@) {
            assert forall|k: Seq<char>| #[trigger] a@.dom().contains(k) implies b@.dom().contains(k) && b@[k]@ == a@[k]@ by {
                assert(sview(a@).dom().contains(k));
                assert(sview(a@)[k] == a@[k]@);
            }
            assert forall|k: Seq<char>| #[trigger] b@.dom().contains(k) implies a@.dom().contains(k) && a@[k]@ == b@[k]@ by {
                assert(sview(b@).dom().contains(k));
                assert(sview(b@)[k] == b@[k]@);
            }
        }
    }
    ab && ba
}

fn same_entry_exec(a: &AvatarRegistryEntry, b: &AvatarRegistryEntry) -> (r: bool)
    requires
        a.shortcuts.wf(),
        b.shortcuts.wf(),
    ensures
        r == same_entry(*a, *b),
{
    str_eq(a.did.as_str(), b.did.as_str())
        && str_eq(a.name.as_str(), b.name.as_str())
        && str_eq(a.description.as_str(), b.description.as_str())
        && str_eq(a.owner.as_str(), b.owner.as_str())
        && str_eq(a.fragment.as_str(), b.fragment.as_str())
        && str_eq(a.lang.as_str(), b.lang.as_str())
        && str_eq(a.endpoint.as_str(), b.endpoint.as_str())
        && str_eq(a.room.as_str(), b.room.as_str())
        && str_eq(a.key_agreement.as_str(), b.key_agreement.as_str())
        && str_eq(a.acl.as_str(), b.acl.as_str())
        && same_string_map(&a.shortcuts, &b.shortcuts)
        && str_eq(a.identity.cid.as_str(), b.identity.cid.as_str())
}

fn ipns_of_exec(did: &str) -> (r: Vec<char>)
    ensures
        r@ == ipns_of(did@),
{
    let (b, _, _) = split_first(&chars_of(did), &CharClass::Is('#'));
    if starts_with_lit(&b, "did:ma:") {
        proof {
            reveal_strlit("did:ma:");
        }
        slice_chars(&b, 7, b.len())
    } else {
        b
    }
}

impl World {
    /// The registry entry of the avatar whose DID is `did_id`, as a refresh publishes it.
    /// It fails when no room holds the avatar, when its DID has no fragment or it has no
    /// key-agreement key, when the world DID is not configured, and while the world is
    /// locked (its signing key signs the avatar's DID document).
    pub fn avatar_registry_entry_for_did(&self, did_id: &str) -> (r: Result<AvatarRegistryEntry, String>)
        requires
            self.wf(),
        ensures
            !any_room_has_did(self.rooms@, did_id@) ==> (r matches Err(e) && e@ == quoted_not_found(did_id@)),
            any_room_has_did(self.rooms@, did_id@) ==> {
                let rn = room_of(self.rooms@, did_id@);
                let a = self.rooms@[rn].avatars@[handle_of(self.rooms@[rn], did_id@)];
                if avatar_fragment(a).len() == 0 {
                    r matches Err(e) && e@ == missing_fragment_text(did_id@)
                } else if a.encryption_pubkey_multibase is None {
                    r matches Err(e) && e@ == missing_key_agreement_text(did_id@)
                } else if self.world_did is None {
                    r matches Err(e) && e@ == "world DID is not configured"@
                } else if self.unlocked_secrets is None {
                    r matches Err(e) && e@ == "world signing key is not unlocked"@
                } else {
                    r matches Ok(e) && registry_entry_for(rn, a, e)
                }
            },
    {
        let d = chars_of(did_id);
        let i = match self.find_room_with_did(&d) {
            Some(i) => i,
            None => {
                let mut m: Vec<char> = Vec::new();
                append_lit(&mut m, "avatar '");
                append_lit(&mut m, did_id);
                append_lit(&mut m, "' not found in world rooms");
                return Err(string_of(&m));
            },
        };
        let (name, room) = self.rooms.entry_at(i);
        let ghost rn = name@;
        proof {
            lemma_wf_index(self.rooms, i as int);
            let c = room_of(self.rooms@, d@);
            assert(self.rooms@.dom().contains(c) && self.rooms@[c].has_did(d@));
            assert(c == rn);
            assert(room.wf());
        }
        let j = World::room_has_did(room, &d).unwrap();
        let (h, a) = room.avatars.entry_at(j);
        proof {
            crate::world::lemma_handle_of(*room, d@, h@);
            lemma_wf_index(room.avatars, j as int);
        }
        let (_, fragment, _) = split_first(&chars_of(a.agent_did.as_str()), &CharClass::Is('#'));
        if fragment.len() == 0 {
            let mut m: Vec<char> = Vec::new();
            append_lit(&mut m, "avatar DID '");
            append_lit(&mut m, did_id);
            append_lit(&mut m, "' missing fragment");
            return Err(string_of(&m));
        }
        let key_agreement = match &a.encryption_pubkey_multibase {
            Some(k) => k.clone(),
            None => {
                let mut m: Vec<char> = Vec::new();
                append_lit(&mut m, "avatar '");
                append_lit(&mut m, did_id);
                append_lit(&mut m, "' missing keyAgreement public key");
                return Err(string_of(&m));
            },
        };
        if self.world_did.is_none() {
            return Err(String::from_str("world DID is not configured"));
        }
        if self.unlocked_secrets.is_none() {
            return Err(String::from_str("world signing key is not unlocked"));
        }
        let ipns = ipns_of_exec(a.agent_did.as_str());
        let mut cid: Vec<char> = Vec::new();
        append_lit(&mut cid, "/ipns/");
        crate::text::append_chars(&mut cid, &ipns);
        proof {
            reveal_strlit("/ipns/");
        }
        Ok(AvatarRegistryEntry {
            did: a.agent_did.clone(),
            name: a.inbox.clone(),
            description: a.description_or_default(),
            owner: a.owner.clone(),
            fragment: string_of(&fragment),
            lang: a.language_order.clone(),
            endpoint: a.agent_endpoint.clone(),
            room: string_of(name),
            key_agreement,
            acl: a.acl.summary(),
            shortcuts: copy_string_map(&a.object_shortcuts),
            identity: IpldLink { cid: string_of(&cid) },
        })
    }

    /// Stores `entry` under its fragment; `true` when that changes what is published
    /// (there was no entry for the fragment, or it differed).
    pub fn upsert_avatar_registry_entry(&mut self, entry: AvatarRegistryEntry) -> (changed: bool)
        requires
            old(self).wf(),
            entry.shortcuts.wf(),
        ensures
            final(self).wf(),
            changed == (!old(self).avatar_registry@.dom().contains(entry.fragment@)
                || !same_entry(old(self).avatar_registry@[entry.fragment@], entry)),
            final(self).avatar_registry@ == old(self).avatar_registry@.insert(entry.fragment@, entry),
            *final(self) == (World { avatar_registry: final(self).avatar_registry, ..*old(self) }),
    {
        let key = chars_of(entry.fragment.as_str());
        let changed = match self.avatar_registry.get(&key) {
            Some(existing) => !same_entry_exec(existing, &entry),
            None => true,
        };
        self.avatar_registry.insert(key, entry);
        changed
    }
}

/// The DID without its fragment.
pub open spec fn base_id(did: Seq<char>) -> Seq<char> {
    before_first(did, class_pred(CharClass::Is('#')))
}

/// The identity links the registry holds for avatars of the owner `owner`: their
/// trimmed identity CIDs that are not blank.
pub open spec fn owner_link(reg: Map<Seq<char>, AvatarRegistryEntry>, owner: Seq<char>, l: Seq<char>) -> bool {
    exists|f: Seq<char>| #[trigger] reg.dom().contains(f) && base_id(reg[f].did@) == owner
        && trim(reg[f].identity.cid@) == l && l.len() > 0
}

/// `r` is the identity link of the world owner: the least (in code-point order) link the
/// registry holds for the owner, else the owner's IPNS path; none without an owner.
pub open spec fn identity_link_ok(w: World, r: Option<Seq<char>>) -> bool {
    match w.owner_did {
        None => r is None,
        Some(o) => if exists|l: Seq<char>| owner_link(w.avatar_registry@, o@, l) {
            r matches Some(v) && owner_link(w.avatar_registry@, o@, v) && forall|l: Seq<char>| owner_link(w.avatar_registry@, o@, l) ==> lex_le(v, l)
        } else {
            r matches Some(v) && v == "/ipns/"@ + ipns_of(o@)
        },
    }
}

/// The caller (root DID `base`, DID `did`) may run owner-only `@world` commands.
pub open spec fn world_owner_caller(w: World, base: Seq<char>, did: Seq<char>) -> bool {
    match w.owner_did {
        None => false,
        Some(o) => o@ == base || exists|f: Seq<char>| #[trigger] w.avatar_registry@.dom().contains(f)
            && w.avatar_registry@[f].did@ == did && w.avatar_registry@[f].owner@ == o@,
    }
}

fn base_id_exec(did: &str) -> (r: Vec<char>)
    ensures
        r@ == base_id(did@),
{
    let (b, _, _) = split_first(&chars_of(did), &CharClass::Is('#'));
    b
}

impl World {
    /// The identity link of the world owner: the least (in code-point order) identity
    /// CID that the registry holds for one of the owner's avatars, else the owner's own
    /// IPNS path; `None` while the world has no owner.
    pub fn owner_identity_link(&self) -> (r: Option<String>)
        requires
            self.wf(),
        ensures
            identity_link_ok(*self, match r { Some(v) => Some(v@), None => None }),
    {
        let owner = match &self.owner_did {
            Some(o) => chars_of(o.as_str()),
            None => return None,
        };
        let reg = &self.avatar_registry;
        let mut best: Option<Vec<char>> = None;
        let mut i: usize = 0;
        while i < reg.entries.len()
            invariant
                self.wf(),
                *reg == self.avatar_registry,
                self.owner_did matches Some(o) && o@ == owner@,
                0 <= i <= reg.entries@.len(),
                match best {
                    None => forall|j: int| 0 <= j < i ==> !(base_id(reg.entries@[j].1.did@) == owner@
                        && #[trigger] trim(reg.entries@[j].1.identity.cid@).len() > 0),
                    Some(b) => owner_link(reg@, owner@, b@) && forall|j: int| 0 <= j < i
                        && base_id(reg.entries@[j].1.did@) == owner@ && #[trigger] trim(reg.entries@[j].1.identity.cid@).len() > 0
                        ==> lex_le(b@, trim(reg.entries@[j].1.identity.cid@)),
                },
            decreases reg.entries.len() - i,
        {
            let (_, e) = reg.entry_at(i);
            proof {
                lemma_wf_index(*reg, i as int);
            }
            let link = trim_white(&chars_of(e.identity.cid.as_str()));
            let is_link = chars_eq(&base_id_exec(e.did.as_str()), &owner) && link.len() > 0;
            proof {
                assert(is_link == (base_id(reg.entries@[i as int].1.did@) == owner@
                    && trim(reg.entries@[i as int].1.identity.cid@).len() > 0));
            }
            if is_link {
                let ghost k = reg.entries@[i as int].0@;
                proof {
                    lemma_lex_total(link@, link@);
                    assert(reg@.dom().contains(k) && reg@[k] == reg.entries@[i as int].1);
                    assert(owner_link(reg@, owner@, link@));
                }
                match &best {
                    None => {
                        best = Some(link);
                    },
                    Some(b) => {
                        if !lex_le_chars(b, &link) {
                            proof {
                                lemma_lex_total(b@, link@);
                                assert forall|j: int| 0 <= j < i + 1
                                    && base_id(reg.entries@[j].1.did@) == owner@ && #[trigger] trim(reg.entries@[j].1.identity.cid@).len() > 0
                                    implies lex_le(link@, trim(reg.entries@[j].1.identity.cid@)) by {
                                    if j < i {
                                        lemma_lex_trans(link@, b@, trim(reg.entries@[j].1.identity.cid@));
                                    } else {
                                        crate::text::lemma_lex_total(link@, link@);
                                    }
                                }
                            }
                            best = Some(link);
                        }
                    },
                }
            }
            i = i + 1;
        }
        match best {
            Some(b) => {
                proof {
                    assert forall|l: Seq<char>| owner_link(reg@, owner@, l) implies lex_le(b@, l) by {
                        let f = choose|f: Seq<char>| #[trigger] reg@.dom().contains(f) && base_id(reg@[f].did@) == owner@
                            && trim(reg@[f].identity.cid@) == l && l.len() > 0;
                        crate::text_map::lemma_wf_dom(*reg);
                        let j = choose|j: int| 0 <= j < reg.entries@.len() && reg.entries@[j].0@ == f;
                        lemma_wf_index(*reg, j);
                    }
                }
                Some(string_of(&b))
            },
            None => {
                proof {
                    assert forall|l: Seq<char>| !owner_link(reg@, owner@, l) by {
                        if owner_link(reg@, owner@, l) {
                            let f = choose|f: Seq<char>| #[trigger] reg@.dom().contains(f) && base_id(reg@[f].did@) == owner@
                                && trim(reg@[f].identity.cid@) == l && l.len() > 0;
                            crate::text_map::lemma_wf_dom(*reg);
                            let j = choose|j: int| 0 <= j < reg.entries@.len() && reg.entries@[j].0@ == f;
                            lemma_wf_index(*reg, j);
                        }
                    }
                }
                let o = match &self.owner_did {
                    Some(o) => o,
                    None => return None,
                };
                let ipns = ipns_of_exec(o.as_str());
                let mut v: Vec<char> = Vec::new();
                append_lit(&mut v, "/ipns/");
                append_chars(&mut v, &ipns);
                proof {
                    reveal_strlit("/ipns/");
                }
                Some(string_of(&v))
            },
        }
    }

    /// Whether the caller may run owner-only `@world` commands: the world has an owner,
    /// and the caller's root DID is that owner, or the caller's DID is a registered
    /// avatar of that owner.
    pub fn is_world_owner_caller(&self, caller_base: &str, caller_did: &str) -> (r: bool)
        requires
            self.wf(),
        ensures
            r == world_owner_caller(*self, caller_base@, caller_did@),
    {
        let o = match &self.owner_did {
            Some(o) => o,
            None => return false,
        };
        if str_eq(o.as_str(), caller_base) {
            return true;
        }
        let reg = &self.avatar_registry;
        let mut i: usize = 0;
        while i < reg.entries.len()
            invariant
                self.wf(),
                *reg == self.avatar_registry,
                self.owner_did == Some(*o),
                0 <= i <= reg.entries@.len(),
                forall|j: int| 0 <= j < i ==> !(#[trigger] reg.entries@[j].1.did@ == caller_did@ && reg.entries@[j].1.owner@ == o@),
            decreases reg.entries.len() - i,
        {
            let (_, e) = reg.entry_at(i);
            if str_eq(e.did.as_str(), caller_did) && str_eq(e.owner.as_str(), o.as_str()) {
                proof {
                    lemma_wf_index(*reg, i as int);
                    assert(reg@.dom().contains(reg.entries@[i as int].0@));
                }
                return true;
            }
            i = i + 1;
        }
        proof {
            assert forall|f: Seq<char>| #[trigger] reg@.dom().contains(f) implies !(reg@[f].did@ == caller_did@ && reg@[f].owner@ == o@) by {
                crate::text_map::lemma_wf_dom(*reg);
                let j = choose|j: int| 0 <= j < reg.entries@.len() && reg.entries@[j].0@ == f;
                lemma_wf_index(*reg, j);
            }
        }
        false
    }
}

/// The reply to an `@world.avatars...` query.
#[derive(Debug)]
pub enum AvatarsQueryReply {
    Text(String),
    /// The attributes of one avatar, as (attribute path, value), for the caller to render.
    Attributes(Vec<(String, String)>),
}

pub open spec fn avatar_attrs(frag: Seq<char>, e: AvatarRegistryEntry) -> Seq<(Seq<char>, Seq<char>)> {
    let p = "avatars."@ + frag + "."@;
    seq![
        (p + "did"@, e.did@),
        (p + "name"@, e.name@),
        (p + "description"@, e.description@),
        (p + "owner"@, e.owner@),
        (p + "fragment"@, e.fragment@),
        (p + "lang"@, e.lang@),
        (p + "endpoint"@, e.endpoint@),
        (p + "room"@, e.room@),
        (p + "key_agreement"@, e.key_agreement@),
        (p + "acl"@, e.acl@),
        (p + "identity"@, e.identity.cid@),
    ]
}

pub open spec fn avatar_field(e: AvatarRegistryEntry, key: Seq<char>) -> Option<Seq<char>> {
    if key == "did"@ {
        Some(e.did@)
    } else if key == "name"@ {
        Some(e.name@)
    } else if key == "description"@ {
        Some(e.description@)
    } else if key == "owner"@ {
        Some(e.owner@)
    } else if key == "fragment"@ {
        Some(e.fragment@)
    } else if key == "lang"@ || key == "language"@ {
        Some(e.lang@)
    } else if key == "endpoint"@ {
        Some(e.endpoint@)
    } else if key == "room"@ {
        Some(e.room@)
    } else if key == "key_agreement"@ {
        Some(e.key_agreement@)
    } else if key == "acl"@ {
        Some(e.acl@)
    } else if key == "identity"@ || key == "doc"@ {
        Some(e.identity.cid@)
    } else {
        None
    }
}

pub open spec fn unknown_avatar_attribute(key: Seq<char>) -> Seq<char> {
    "unknown avatar attribute '"@ + key
        + "'. Allowed: did, name, description, owner, fragment, lang, endpoint, room, key_agreement, acl, shortcuts, identity"@
}

/// The shortcuts of an entry as `alias -> object id` lines in code-point order, or `(none)`.
pub open spec fn shortcuts_listing(e: AvatarRegistryEntry, v: Seq<char>) -> bool {
    if e.shortcuts@.len() == 0 {
        v == "(none)"@
    } else {
        exists|rows: Seq<Seq<char>>| sorted_lex(rows) && rows.to_multiset() == e.shortcuts.entries@.map_values(
            |kv: (Vec<char>, String)| kv.0@ + " -> "@ + kv.1@).to_multiset() && v == join(rows, "\n"@)
    }
}

/// The fragments of the registry, one per line in code-point order.
pub open spec fn fragments_listing(keys: Seq<Seq<char>>, v: Seq<char>) -> bool {
    exists|rows: Seq<Seq<char>>| sorted_lex(rows) && rows.to_multiset() == keys.to_multiset() && v == "avatars:\n"@ + join(rows, "\n"@)
}

pub open spec fn query_parts(path: Seq<char>) -> Seq<Seq<char>> {
    split_by(path, class_pred(CharClass::Is('.')))
}

pub open spec fn query_fragment(path: Seq<char>) -> Seq<char> {
    if query_parts(path).len() >= 2 { trim(query_parts(path)[1]) } else { Seq::empty() }
}

pub open spec fn query_key(path: Seq<char>) -> Seq<char> {
    if query_parts(path).len() > 2 {
        join(query_parts(path).subrange(2, query_parts(path).len() as int), "."@)
    } else {
        Seq::empty()
    }
}

fn sorted_lines(rows: Vec<Vec<char>>) -> (r: Vec<char>)
    ensures
        exists|s: Seq<Seq<char>>| sorted_lex(s) && s.to_multiset() == views(rows@).to_multiset() && r@ == join(s, "\n"@),
{
    let sorted = sort_chars(rows);
    let j = join_chars(&sorted, "\n");
    proof {
        assert(sorted_lex(views(sorted@)) && views(sorted@).to_multiset() == views(rows@).to_multiset());
    }
    j
}

impl World {
    /// The reply to `@world.avatars` and `@world.avatars.<fragment>[.<field>]`.
    pub fn world_avatars_query(&self, path: &str) -> (r: AvatarsQueryReply)
        requires
            self.wf(),
        ensures
            ({
                let reg = self.avatar_registry@;
                let f = query_fragment(path@);
                let key = query_key(path@);
                if path@ == "avatars"@ || path@ == "avatars._list"@ {
                    if reg.len() == 0 {
                        r matches AvatarsQueryReply::Text(v) && v@ == "avatars: (none)"@
                    } else {
                        r matches AvatarsQueryReply::Text(v) && fragments_listing(self.avatar_registry.key_seq(), v@)
                    }
                } else if query_parts(path@)[0] != "avatars"@ || f.len() == 0 {
                    r matches AvatarsQueryReply::Text(v) && v@ == "avatar path usage: @world.avatars.<fragment>.<field>"@
                } else if !reg.dom().contains(f) {
                    r matches AvatarsQueryReply::Text(v) && v@ == "avatar '"@ + f + "' not found"@
                } else if key.len() == 0 || key == "_list"@ {
                    r matches AvatarsQueryReply::Attributes(a) && a@.map_values(|p: (String, String)| (p.0@, p.1@)) == avatar_attrs(f, reg[f])
                } else if key == "shortcuts"@ {
                    r matches AvatarsQueryReply::Text(v) && shortcuts_listing(reg[f], v@)
                } else {
                    r matches AvatarsQueryReply::Text(v) && v@ == match avatar_field(reg[f], key) {
                        Some(x) => x,
                        None => unknown_avatar_attribute(key),
                    }
                }
            }),
    {
        let reg = &self.avatar_registry;
        if str_eq(path, "avatars") || str_eq(path, "avatars._list") {
            proof {
                crate::text_map::lemma_map_of_len(reg.entries@);
            }
            if reg.entries.len() == 0 {
                return AvatarsQueryReply::Text(String::from_str("avatars: (none)"));
            }
            let mut rows: Vec<Vec<char>> = Vec::new();
            let mut i: usize = 0;
            while i < reg.entries.len()
                invariant
                    reg.wf(),
                    0 <= i <= reg.entries@.len(),
                    views(rows@) == reg.key_seq().subrange(0, i as int),
                decreases reg.entries.len() - i,
            {
                let (k, _) = reg.entry_at(i);
                let ghost before = views(rows@);
                let kc = slice_chars(k, 0, k.len());
                assert(kc@ =~= k@);
                rows.push(kc);
                proof {
                    assert(views(rows@) =~= before.push(reg.key_seq()[i as int]));
                    assert(reg.key_seq().subrange(0, i + 1) =~= reg.key_seq().subrange(0, i as int).push(reg.key_seq()[i as int]));
                }
                i = i + 1;
            }
            assert(reg.key_seq().subrange(0, reg.entries@.len() as int) =~= reg.key_seq());
            let lines = sorted_lines(rows);
            let mut v: Vec<char> = Vec::new();
            append_lit(&mut v, "avatars:\n");
            append_chars(&mut v, &lines);
            return AvatarsQueryReply::Text(string_of(&v));
        }
        let pv = chars_of(path);
        let parts = split_class(&pv, &CharClass::Is('.'));
        proof {
            crate::text::lemma_split_by_nonempty(pv@, class_pred(CharClass::Is('.')));
            assert(views(parts@).len() == parts@.len());
            assert(views(parts@)[0] == parts@[0]@);
        }
        let frag: Vec<char> = if parts.len() >= 2 {
            proof {
                assert(views(parts@)[1] == parts@[1]@);
            }
            trim_white(&parts[1])
        } else {
            Vec::new()
        };
        if !crate::text::chars_eq_lit(&parts[0], "avatars") || frag.len() == 0 {
            return AvatarsQueryReply::Text(String::from_str("avatar path usage: @world.avatars.<fragment>.<field>"));
        }
        let e = match reg.get(&frag) {
            Some(e) => e,
            None => {
                let mut v: Vec<char> = Vec::new();
                append_lit(&mut v, "avatar '");
                append_chars(&mut v, &frag);
                append_lit(&mut v, "' not found");
                return AvatarsQueryReply::Text(string_of(&v));
            },
        };
        let mut rest: Vec<Vec<char>> = Vec::new();
        let mut i: usize = 2;
        while i < parts.len()
            invariant
                2 <= i <= parts@.len() || (parts@.len() < 2 && i == 2),
                parts@.len() >= 2 ==> views(rest@) == views(parts@).subrange(2, i as int),
                parts@.len() < 2 ==> rest@.len() == 0,
            decreases parts.len() - i,
        {
            let ghost before = views(rest@);
            let pc = slice_chars(&parts[i], 0, parts[i].len());
            assert(pc@ =~= parts@[i as int]@);
            rest.push(pc);
            proof {
                assert(views(rest@) =~= before.push(views(parts@)[i as int]));
                assert(views(parts@).subrange(2, i + 1) =~= views(parts@).subrange(2, i as int).push(views(parts@)[i as int]));
            }
            i = i + 1;
        }
        let key = join_chars(&rest, ".");
        proof {
            if parts@.len() > 2 {
                assert(views(rest@) =~= views(parts@).subrange(2, parts@.len() as int));
            } else {
                assert(views(rest@) =~= Seq::<Seq<char>>::empty());
            }
        }
        if key.len() == 0 || crate::text::chars_eq_lit(&key, "_list") {
            let mut p: Vec<char> = Vec::new();
            append_lit(&mut p, "avatars.");
            append_chars(&mut p, &frag);
            append_lit(&mut p, ".");
            let mut out: Vec<(String, String)> = Vec::new();
            out.push((attr_name(&p, "did"), e.did.clone()));
            out.push((attr_name(&p, "name"), e.name.clone()));
            out.push((attr_name(&p, "description"), e.description.clone()));
            out.push((attr_name(&p, "owner"), e.owner.clone()));
            out.push((attr_name(&p, "fragment"), e.fragment.clone()));
            out.push((attr_name(&p, "lang"), e.lang.clone()));
            out.push((attr_name(&p, "endpoint"), e.endpoint.clone()));
            out.push((attr_name(&p, "room"), e.room.clone()));
            out.push((attr_name(&p, "key_agreement"), e.key_agreement.clone()));
            out.push((attr_name(&p, "acl"), e.acl.clone()));
            out.push((attr_name(&p, "identity"), e.identity.cid.clone()));
            proof {
                assert(out@.map_values(|p: (String, String)| (p.0@, p.1@)) =~= avatar_attrs(frag@, *e));
            }
            return AvatarsQueryReply::Attributes(out);
        }
        proof {
            reveal_strlit("shortcuts");
            reveal_strlit("did");
            reveal_strlit("name");
            reveal_strlit("description");
            reveal_strlit("owner");
            reveal_strlit("fragment");
            reveal_strlit("lang");
            reveal_strlit("language");
            reveal_strlit("endpoint");
            reveal_strlit("room");
            reveal_strlit("key_agreement");
            reveal_strlit("acl");
            reveal_strlit("identity");
            reveal_strlit("doc");
        }
        let v: String = if crate::text::chars_eq_lit(&key, "did") {
            e.did.clone()
        } else if crate::text::chars_eq_lit(&key, "name") {
            e.name.clone()
        } else if crate::text::chars_eq_lit(&key, "description") {
            e.description.clone()
        } else if crate::text::chars_eq_lit(&key, "owner") {
            e.owner.clone()
        } else if crate::text::chars_eq_lit(&key, "fragment") {
            e.fragment.clone()
        } else if crate::text::chars_eq_lit(&key, "lang") || crate::text::chars_eq_lit(&key, "language") {
            e.lang.clone()
        } else if crate::text::chars_eq_lit(&key, "endpoint") {
            e.endpoint.clone()
        } else if crate::text::chars_eq_lit(&key, "room") {
            e.room.clone()
        } else if crate::text::chars_eq_lit(&key, "key_agreement") {
            e.key_agreement.clone()
        } else if crate::text::chars_eq_lit(&key, "acl") {
            e.acl.clone()
        } else if crate::text::chars_eq_lit(&key, "identity") || crate::text::chars_eq_lit(&key, "doc") {
            e.identity.cid.clone()
        } else if crate::text::chars_eq_lit(&key, "shortcuts") {
            proof {
                assert(self.avatar_registry@.dom().contains(frag@));
            }
            return AvatarsQueryReply::Text(shortcut_rows(e));
        } else {
            let mut m: Vec<char> = Vec::new();
            append_lit(&mut m, "unknown avatar attribute '");
            append_chars(&mut m, &key);
            append_lit(&mut m, "'. Allowed: did, name, description, owner, fragment, lang, endpoint, room, key_agreement, acl, shortcuts, identity");
            string_of(&m)
        };
        AvatarsQueryReply::Text(v)
    }
}

fn attr_name(prefix: &Vec<char>, field: &str) -> (r: String)
    ensures
        r@ == prefix@ + field@,
{
    let mut v: Vec<char> = Vec::new();
    append_chars(&mut v, prefix);
    append_lit(&mut v, field);
    string_of(&v)
}

fn shortcut_rows(e: &AvatarRegistryEntry) -> (r: String)
    requires
        e.shortcuts.wf(),
    ensures
        shortcuts_listing(*e, r@),
{
    proof {
        crate::text_map::lemma_map_of_len(e.shortcuts.entries@);
    }
    if e.shortcuts.entries.len() == 0 {
        return String::from_str("(none)");
    }
    let ghost lines = e.shortcuts.entries@.map_values(|kv: (Vec<char>, String)| kv.0@ + " -> "@ + kv.1@);
    let mut rows: Vec<Vec<char>> = Vec::new();
    let mut i: usize = 0;
    while i < e.shortcuts.entries.len()
        invariant
            e.shortcuts.wf(),
            0 <= i <= e.shortcuts.entries@.len(),
            lines == e.shortcuts.entries@.map_values(|kv: (Vec<char>, String)| kv.0@ + " -> "@ + kv.1@),
            views(rows@) == lines.subrange(0, i as int),
        decreases e.shortcuts.entries.len() - i,
    {
        let (k, v) = e.shortcuts.entry_at(i);
        let mut line: Vec<char> = Vec::new();
        append_chars(&mut line, k);
        append_lit(&mut line, " -> ");
        append_lit(&mut line, v.as_str());
        let ghost before = views(rows@);
        rows.push(line);
        proof {
            assert(views(rows@) =~= before.push(lines[i as int]));
            assert(lines.subrange(0, i + 1) =~= lines.subrange(0, i as int).push(lines[i as int]));
        }
        i = i + 1;
    }
    assert(lines.subrange(0, lines.len() as int) =~= lines);
    string_of(&sorted_lines(rows))
}

} // verus!
