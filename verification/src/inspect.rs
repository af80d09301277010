//! The public inspection tree of a world (`@world.<path>`): what it holds, how a dotted
//! path walks it, and how a leaf reads.
use vstd::prelude::*;
use crate::avatar::{und, Avatar};
use crate::avatar_prop::avatar_fragment;
use crate::registry::{description_text, identity_link_ok, ipns_of, AvatarRegistryEntry};
use crate::room::{no_description_text, Room};
use crate::text::{
    append_chars, append_lit, chars_eq_lit, chars_of, class_pred, decimal, decimal_chars, parse_u64_spec,
    slice_chars, split_by, split_class, string_of, trim, trim_by, trim_class, trim_white, views, CharClass,
};
use crate::text_map::{lemma_wf_index, TextMap};
use crate::world::World;
use crate::world_dispatch::room_title_text;

verus! {

/// A value of the inspection tree: a JSON value whose numbers are whole.
#[derive(Debug)]
pub enum InspectValue {
    Null,
    Bool(bool),
    Number(u64),
    Text(String),
    List(Vec<InspectValue>),
    Object(Vec<(String, InspectValue)>),
}

/// The value under `key` in the members of an object (the first such member).
pub open spec fn object_get(members: Seq<(String, InspectValue)>, key: Seq<char>) -> Option<InspectValue>
    decreases members.len(),
{
    if members.len() == 0 {
        None
    } else if members[0].0@ == key {
        Some(members[0].1)
    } else {
        object_get(members.drop_first(), key)
    }
}

/// Walks `v` along the path segments `segs` (each trimmed; blank ones lead nowhere):
/// into an object by member name, into a list by decimal index.
pub open spec fn resolve_segments(v: InspectValue, segs: Seq<Seq<char>>) -> Option<InspectValue>
    decreases segs.len(),
{
    if segs.len() == 0 {
        Some(v)
    } else {
        let key = trim(segs[0]);
        if key.len() == 0 {
            None
        } else {
            match v {
                InspectValue::Object(members) => match object_get(members@, key) {
                    Some(c) => resolve_segments(c, segs.drop_first()),
                    None => None,
                },
                InspectValue::List(items) => match parse_u64_spec(key) {
                    Some(i) => if i < items@.len() {
                        resolve_segments(items@[i as int], segs.drop_first())
                    } else {
                        None
                    },
                    None => None,
                },
                _ => None,
            }
        }
    }
}

pub open spec fn trimmed_path(path: Seq<char>) -> Seq<char> {
    trim_by(trim(path), class_pred(CharClass::Is('.')))
}

/// The value a dotted path names in `v`: `v` itself for a blank path or `_list`.
pub open spec fn resolve_path_spec(v: InspectValue, path: Seq<char>) -> Option<InspectValue> {
    let t = trimmed_path(path);
    if t.len() == 0 || t == "_list"@ {
        Some(v)
    } else {
        resolve_segments(v, split_by(t, class_pred(CharClass::Is('.'))))
    }
}

fn object_lookup<'a>(members: &'a Vec<(String, InspectValue)>, key: &Vec<char>) -> (r: Option<&'a InspectValue>)
    ensures
        match r {
            Some(x) => object_get(members@, key@) == Some(*x),
            None => object_get(members@, key@) is None,
        },
{
    let mut i: usize = 0;
    assert(members@.subrange(0, members@.len() as int) =~= members@);
    while i < members.len()
        invariant
            0 <= i <= members@.len(),
            object_get(members@, key@) == object_get(members@.subrange(i as int, members@.len() as int), key@),
        decreases members.len() - i,
    {
        let ghost rest = members@.subrange(i as int, members@.len() as int);
        proof {
            assert(rest[0] == members@[i as int]);
            assert(rest.drop_first() =~= members@.subrange(i + 1, members@.len() as int));
        }
        if crate::text::chars_eq(&chars_of(members[i].0.as_str()), key) {
            return Some(&members[i].1);
        }
        i = i + 1;
    }
    proof {
        assert(members@.subrange(i as int, members@.len() as int) =~= Seq::<(String, InspectValue)>::empty());
    }
    None
}

/// The value a dotted `path` names in the tree `value`, if any.
pub fn resolve_public_inspect_path<'a>(value: &'a InspectValue, path: &str) -> (r: Option<&'a InspectValue>)
    ensures
        match r {
            Some(x) => resolve_path_spec(*value, path@) == Some(*x),
            None => resolve_path_spec(*value, path@) is None,
        },
{
    let t = trim_class(&trim_white(&chars_of(path)), &CharClass::Is('.'));
    if t.len() == 0 || chars_eq_lit(&t, "_list") {
        return Some(value);
    }
    let segs = split_class(&t, &CharClass::Is('.'));
    let ghost all = views(segs@);
    let mut current: &InspectValue = value;
    let mut i: usize = 0;
    proof {
        assert(all.subrange(0, all.len() as int) =~= all);
        assert(all.subrange(0, all.len() as int) == all.skip(0));
    }
    while i < segs.len()
        invariant
            all == views(segs@),
            0 <= i <= segs@.len(),
            resolve_path_spec(*value, path@) == resolve_segments(*current, all.skip(i as int)),
        decreases segs.len() - i,
    {
        let key = trim_white(&segs[i]);
        let ghost rest = all.skip(i as int);
        proof {
            assert(rest[0] == segs@[i as int]@);
            assert(rest.drop_first() =~= all.skip(i + 1));
        }
        if key.len() == 0 {
            return None;
        }
        match current {
            InspectValue::Object(members) => {
                match object_lookup(members, &key) {
                    Some(c) => {
                        current = c;
                    },
                    None => {
                        return None;
                    },
                }
            },
            InspectValue::List(items) => {
                let ks = string_of(&key);
                match crate::text::parse_u64(ks.as_str()) {
                    Some(ix) => {
                        if ix < items.len() as u64 {
                            current = &items[ix as usize];
                        } else {
                            return None;
                        }
                    },
                    None => {
                        return None;
                    },
                }
            },
            _ => {
                return None;
            },
        }
        i = i + 1;
    }
    proof {
        assert(all.skip(i as int) =~= Seq::<Seq<char>>::empty());
    }
    Some(current)
}

/// How a leaf of the tree reads: `(null)`, `true`/`false`, the number in decimal, or the
/// text itself. A list or an object is not a leaf: `None`, for the caller to render.
pub fn format_public_inspect_value(value: &InspectValue) -> (r: Option<String>)
    ensures
        match *value {
            InspectValue::Null => r matches Some(s) && s@ == "(null)"@,
            InspectValue::Bool(b) => r matches Some(s) && s@ == (if b { "true"@ } else { "false"@ }),
            InspectValue::Number(n) => r matches Some(s) && s@ == decimal(n as nat),
            InspectValue::Text(t) => r matches Some(s) && s@ == t@,
            _ => r is None,
        },
{
    match value {
        InspectValue::Null => Some(String::from_str("(null)")),
        InspectValue::Bool(b) => Some(if *b { String::from_str("true") } else { String::from_str("false") }),
        InspectValue::Number(n) => Some(string_of(&decimal_chars(*n))),
        InspectValue::Text(t) => Some(t.clone()),
        _ => None,
    }
}

pub open spec fn members(v: InspectValue) -> Seq<(String, InspectValue)> {
    match v {
        InspectValue::Object(m) => m@,
        _ => Seq::empty(),
    }
}

pub open spec fn is_text(v: InspectValue, s: Seq<char>) -> bool {
    v matches InspectValue::Text(t) && t@ == s
}

pub open spec fn member_is(v: InspectValue, i: int, key: Seq<char>) -> bool {
    0 <= i < members(v).len() && members(v)[i].0@ == key
}

/// `v` is the object of the string map `m`, member by member.
pub open spec fn text_map_tree(m: TextMap<String>, v: InspectValue) -> bool {
    &&& v is Object
    &&& members(v).len() == m.entries@.len()
    &&& forall|i: int| 0 <= i < members(v).len() ==> (#[trigger] members(v)[i]).0@ == m.entries@[i].0@
        && is_text(members(v)[i].1, m.entries@[i].1@)
}

/// `v` is the object of the avatar `a`.
pub open spec fn avatar_tree(a: Avatar, v: InspectValue) -> bool {
    let ms = members(v);
    &&& v is Object
    &&& ms.len() == 8
    &&& member_is(v, 0, "did"@) && is_text(ms[0].1, a.agent_did@)
    &&& member_is(v, 1, "owner"@) && is_text(ms[1].1, a.owner@)
    &&& member_is(v, 2, "description"@) && is_text(ms[2].1, description_text(a))
    &&& member_is(v, 3, "fragment"@) && is_text(ms[3].1, avatar_fragment(a))
    &&& member_is(v, 4, "lang"@) && is_text(ms[4].1, a.language_order@)
    &&& member_is(v, 5, "endpoint"@) && is_text(ms[5].1, a.agent_endpoint@)
    &&& member_is(v, 6, "acl"@) && is_text(ms[6].1, a.acl.summary_text())
    &&& member_is(v, 7, "shortcuts"@) && text_map_tree(a.object_shortcuts, ms[7].1)
}

pub open spec fn room_description_text(r: Room) -> Seq<char> {
    if r.descriptions@.dom().contains(und()) {
        r.descriptions@[und()]@
    } else {
        no_description_text()
    }
}

/// `v` is the object of the room `r`.
pub open spec fn room_tree(r: Room, v: InspectValue) -> bool {
    let ms = members(v);
    let av = ms[3].1;
    &&& v is Object
    &&& ms.len() == 5
    &&& member_is(v, 0, "did"@) && is_text(ms[0].1, r.url@)
    &&& member_is(v, 1, "title"@) && is_text(ms[1].1, room_title_text(r))
    &&& member_is(v, 2, "description"@) && is_text(ms[2].1, room_description_text(r))
    &&& member_is(v, 3, "avatars"@)
    &&& av is Object
    &&& members(av).len() == r.avatars.entries@.len()
    &&& forall|i: int| 0 <= i < members(av).len() ==> (#[trigger] members(av)[i]).0@ == r.avatars.entries@[i].0@
        && avatar_tree(r.avatars.entries@[i].1, members(av)[i].1)
    &&& member_is(v, 4, "avatar_count"@) && ms[4].1 == InspectValue::Number(r.avatars.entries@.len() as u64)
}

/// `v` is the object of the registry entry `e`.
pub open spec fn registry_entry_tree(e: AvatarRegistryEntry, v: InspectValue) -> bool {
    let ms = members(v);
    &&& v is Object
    &&& ms.len() == 12
    &&& member_is(v, 0, "did"@) && is_text(ms[0].1, e.did@)
    &&& member_is(v, 1, "name"@) && is_text(ms[1].1, e.name@)
    &&& member_is(v, 2, "description"@) && is_text(ms[2].1, e.description@)
    &&& member_is(v, 3, "owner"@) && is_text(ms[3].1, e.owner@)
    &&& member_is(v, 4, "fragment"@) && is_text(ms[4].1, e.fragment@)
    &&& member_is(v, 5, "lang"@) && is_text(ms[5].1, e.lang@)
    &&& member_is(v, 6, "endpoint"@) && is_text(ms[6].1, e.endpoint@)
    &&& member_is(v, 7, "room"@) && is_text(ms[7].1, e.room@)
    &&& member_is(v, 8, "key_agreement"@) && is_text(ms[8].1, e.key_agreement@)
    &&& member_is(v, 9, "acl"@) && is_text(ms[9].1, e.acl@)
    &&& member_is(v, 10, "shortcuts"@) && text_map_tree(e.shortcuts, ms[10].1)
    &&& member_is(v, 11, "identity"@) && ms[11].1 is Object && members(ms[11].1).len() == 1
        && member_is(ms[11].1, 0, "cid"@) && is_text(members(ms[11].1)[0].1, e.identity.cid@)
}

pub open spec fn opt_text(o: Option<String>, none: Seq<char>) -> Seq<char> {
    match o {
        Some(s) => s@,
        None => none,
    }
}

/// `v` is the public inspection tree of the world `w`.
pub open spec fn world_tree(w: World, v: InspectValue) -> bool {
    let ms = members(v);
    let owner = opt_text(w.owner_did, "(none)"@);
    let ov = ms[1].1;
    let rv = ms[2].1;
    let gv = ms[3].1;
    &&& v is Object
    &&& ms.len() == 5
    &&& member_is(v, 0, "did"@) && is_text(ms[0].1, opt_text(w.world_did, "did:ma:unconfigured"@))
    &&& member_is(v, 1, "owner"@) && ov is Object && members(ov).len() == 3
    &&& member_is(ov, 0, "id"@) && is_text(members(ov)[0].1, owner)
    &&& member_is(ov, 1, "ipns"@) && (if owner != "(none)"@ {
        is_text(members(ov)[1].1, "/ipns/"@ + ipns_of(owner))
    } else {
        members(ov)[1].1 is Null
    })
    &&& member_is(ov, 2, "identity"@) && match members(ov)[2].1 {
        InspectValue::Text(l) => identity_link_ok(w, Some(l@)),
        InspectValue::Null => identity_link_ok(w, None),
        _ => false,
    }
    &&& member_is(v, 2, "rooms"@) && rv is Object && members(rv).len() == w.rooms.entries@.len()
    &&& forall|i: int| 0 <= i < members(rv).len() ==> (#[trigger] members(rv)[i]).0@ == w.rooms.entries@[i].0@
        && room_tree(w.rooms.entries@[i].1, members(rv)[i].1)
    &&& member_is(v, 3, "avatars"@) && gv is Object && members(gv).len() == w.avatar_registry.entries@.len()
    &&& forall|i: int| 0 <= i < members(gv).len() ==> (#[trigger] members(gv)[i]).0@ == w.avatar_registry.entries@[i].0@
        && registry_entry_tree(w.avatar_registry.entries@[i].1, members(gv)[i].1)
    &&& member_is(v, 4, "lang_cid"@) && is_text(ms[4].1, opt_text(w.lang_cid, "(none)"@))
}

fn text_value(s: String) -> (r: InspectValue)
    ensures
        is_text(r, s@),
{
    InspectValue::Text(s)
}

fn key_string(k: &Vec<char>) -> (r: String)
    ensures
        r@ == k@,
{
    string_of(k)
}

fn text_map_value(m: &TextMap<String>) -> (r: InspectValue)
    requires
        m.wf(),
    ensures
        text_map_tree(*m, r),
{
    let mut out: Vec<(String, InspectValue)> = Vec::new();
    let mut i: usize = 0;
    while i < m.entries.len()
        invariant
            m.wf(),
            0 <= i <= m.entries@.len(),
            out@.len() == i,
            forall|k: int| 0 <= k < i ==> (#[trigger] out@[k]).0@ == m.entries@[k].0@ && is_text(out@[k].1, m.entries@[k].1@),
        decreases m.entries.len() - i,
    {
        let (k, v) = m.entry_at(i);
        out.push((key_string(k), text_value(v.clone())));
        i = i + 1;
    }
    InspectValue::Object(out)
}

fn avatar_value(a: &Avatar) -> (r: InspectValue)
    requires
        a.descriptions.wf(),
        a.object_shortcuts.wf(),
    ensures
        avatar_tree(*a, r),
{
    let mut m: Vec<(String, InspectValue)> = Vec::new();
    m.push((String::from_str("did"), text_value(a.agent_did.clone())));
    m.push((String::from_str("owner"), text_value(a.owner.clone())));
    m.push((String::from_str("description"), text_value(a.description_or_default())));
    let (_, f, _) = crate::text::split_first(&chars_of(a.agent_did.as_str()), &CharClass::Is('#'));
    m.push((String::from_str("fragment"), text_value(string_of(&f))));
    m.push((String::from_str("lang"), text_value(a.language_order.clone())));
    m.push((String::from_str("endpoint"), text_value(a.agent_endpoint.clone())));
    m.push((String::from_str("acl"), text_value(a.acl.summary())));
    m.push((String::from_str("shortcuts"), text_map_value(&a.object_shortcuts)));
    InspectValue::Object(m)
}

fn room_value(r: &Room) -> (v: InspectValue)
    requires
        r.wf(),
    ensures
        room_tree(*r, v),
{
    let mut avs: Vec<(String, InspectValue)> = Vec::new();
    let mut i: usize = 0;
    while i < r.avatars.entries.len()
        invariant
            r.wf(),
            0 <= i <= r.avatars.entries@.len(),
            avs@.len() == i,
            forall|k: int| 0 <= k < i ==> (#[trigger] avs@[k]).0@ == r.avatars.entries@[k].0@ && avatar_tree(r.avatars.entries@[k].1, avs@[k].1),
        decreases r.avatars.entries.len() - i,
    {
        let (h, a) = r.avatars.entry_at(i);
        proof {
            lemma_wf_index(r.avatars, i as int);
        }
        avs.push((key_string(h), avatar_value(a)));
        i = i + 1;
    }
    let count = r.avatars.entries.len() as u64;
    let mut m: Vec<(String, InspectValue)> = Vec::new();
    m.push((String::from_str("did"), text_value(r.url.clone())));
    m.push((String::from_str("title"), text_value(r.title_or_default())));
    m.push((String::from_str("description"), text_value(r.description_or_default())));
    m.push((String::from_str("avatars"), InspectValue::Object(avs)));
    m.push((String::from_str("avatar_count"), InspectValue::Number(count)));
    InspectValue::Object(m)
}

fn registry_entry_value(e: &AvatarRegistryEntry) -> (v: InspectValue)
    requires
        e.shortcuts.wf(),
    ensures
        registry_entry_tree(*e, v),
{
    let mut id: Vec<(String, InspectValue)> = Vec::new();
    id.push((String::from_str("cid"), text_value(e.identity.cid.clone())));
    let mut m: Vec<(String, InspectValue)> = Vec::new();
    m.push((String::from_str("did"), text_value(e.did.clone())));
    m.push((String::from_str("name"), text_value(e.name.clone())));
    m.push((String::from_str("description"), text_value(e.description.clone())));
    m.push((String::from_str("owner"), text_value(e.owner.clone())));
    m.push((String::from_str("fragment"), text_value(e.fragment.clone())));
    m.push((String::from_str("lang"), text_value(e.lang.clone())));
    m.push((String::from_str("endpoint"), text_value(e.endpoint.clone())));
    m.push((String::from_str("room"), text_value(e.room.clone())));
    m.push((String::from_str("key_agreement"), text_value(e.key_agreement.clone())));
    m.push((String::from_str("acl"), text_value(e.acl.clone())));
    m.push((String::from_str("shortcuts"), text_map_value(&e.shortcuts)));
    m.push((String::from_str("identity"), InspectValue::Object(id)));
    InspectValue::Object(m)
}

fn opt_text_exec(o: &Option<String>, none: &str) -> (r: String)
    ensures
        r@ == opt_text(*o, none@),
{
    match o {
        Some(s) => s.clone(),
        None => String::from_str(none),
    }
}

impl World {
    /// The public inspection tree: the world DID, its owner (root DID, IPNS path and
    /// identity link), its rooms with their avatars, the avatar registry, and the
    /// language CID.
    pub fn public_inspect_tree(&self) -> (r: InspectValue)
        requires
            self.wf(),
        ensures
            world_tree(*self, r),
    {
        let owner = opt_text_exec(&self.owner_did, "(none)");
        let ipns = if !crate::text::str_eq(owner.as_str(), "(none)") {
            let mut v: Vec<char> = Vec::new();
            append_lit(&mut v, "/ipns/");
            let (b, _, _) = crate::text::split_first(&chars_of(owner.as_str()), &CharClass::Is('#'));
            let tail = if crate::text::starts_with_lit(&b, "did:ma:") {
                proof {
                    reveal_strlit("did:ma:");
                }
                slice_chars(&b, 7, b.len())
            } else {
                b
            };
            append_chars(&mut v, &tail);
            proof {
                reveal_strlit("/ipns/");
            }
            text_value(string_of(&v))
        } else {
            InspectValue::Null
        };
        let identity = match self.owner_identity_link() {
            Some(l) => InspectValue::Text(l),
            None => InspectValue::Null,
        };
        let mut ov: Vec<(String, InspectValue)> = Vec::new();
        ov.push((String::from_str("id"), text_value(owner)));
        ov.push((String::from_str("ipns"), ipns));
        ov.push((String::from_str("identity"), identity));

        let mut rooms: Vec<(String, InspectValue)> = Vec::new();
        let mut i: usize = 0;
        while i < self.rooms.entries.len()
            invariant
                self.wf(),
                0 <= i <= self.rooms.entries@.len(),
                rooms@.len() == i,
                forall|k: int| 0 <= k < i ==> (#[trigger] rooms@[k]).0@ == self.rooms.entries@[k].0@ && room_tree(self.rooms.entries@[k].1, rooms@[k].1),
            decreases self.rooms.entries.len() - i,
        {
            let (n, room) = self.rooms.entry_at(i);
            proof {
                lemma_wf_index(self.rooms, i as int);
            }
            rooms.push((key_string(n), room_value(room)));
            i = i + 1;
        }

        let mut reg: Vec<(String, InspectValue)> = Vec::new();
        let mut j: usize = 0;
        while j < self.avatar_registry.entries.len()
            invariant
                self.wf(),
                0 <= j <= self.avatar_registry.entries@.len(),
                reg@.len() == j,
                forall|k: int| 0 <= k < j ==> (#[trigger] reg@[k]).0@ == self.avatar_registry.entries@[k].0@
                    && registry_entry_tree(self.avatar_registry.entries@[k].1, reg@[k].1),
            decreases self.avatar_registry.entries.len() - j,
        {
            let (f, e) = self.avatar_registry.entry_at(j);
            proof {
                lemma_wf_index(self.avatar_registry, j as int);
            }
            reg.push((key_string(f), registry_entry_value(e)));
            j = j + 1;
        }

        let mut m: Vec<(String, InspectValue)> = Vec::new();
        m.push((String::from_str("did"), text_value(opt_text_exec(&self.world_did, "did:ma:unconfigured"))));
        m.push((String::from_str("owner"), InspectValue::Object(ov)));
        m.push((String::from_str("rooms"), InspectValue::Object(rooms)));
        m.push((String::from_str("avatars"), InspectValue::Object(reg)));
        m.push((String::from_str("lang_cid"), text_value(opt_text_exec(&self.lang_cid, "(none)"))));
        InspectValue::Object(m)
    }
}

/// The trimmed text of member `key` of an object, when that is a non-blank text.
pub open spec fn link_text(v: InspectValue, key: Seq<char>) -> Option<Seq<char>> {
    match v {
        InspectValue::Object(m) => match object_get(m@, key) {
            Some(InspectValue::Text(t)) => if trim(t@).len() > 0 { Some(trim(t@)) } else { None },
            _ => None,
        },
        _ => None,
    }
}

/// The world root CID a world DID document's `ma.world` value links to: its own IPLD
/// link (`{"/": cid}`), else its `root` member's link.
pub open spec fn world_root_link(world: InspectValue) -> Option<Seq<char>> {
    match link_text(world, "/"@) {
        Some(c) => Some(c),
        None => match world {
            InspectValue::Object(m) => match object_get(m@, "root"@) {
                Some(r) => link_text(r, "/"@),
                None => None,
            },
            _ => None,
        },
    }
}

fn link_text_exec(v: &InspectValue, key: &str) -> (r: Option<String>)
    ensures
        match r {
            Some(x) => link_text(*v, key@) == Some(x@),
            None => link_text(*v, key@) is None,
        },
{
    match v {
        InspectValue::Object(m) => match object_lookup(m, &chars_of(key)) {
            Some(InspectValue::Text(t)) => {
                let tr = trim_white(&chars_of(t.as_str()));
                if tr.len() > 0 { Some(string_of(&tr)) } else { None }
            },
            _ => None,
        },
        _ => None,
    }
}

/// The world root CID named by the `ma.world` value of a world DID document, if any.
pub fn world_root_cid_from_ma_world(world: &Option<InspectValue>) -> (r: Option<String>)
    ensures
        match *world {
            None => r is None,
            Some(w) => match r {
                Some(x) => world_root_link(w) == Some(x@),
                None => world_root_link(w) is None,
            },
        },
{
    let w = match world {
        Some(w) => w,
        None => return None,
    };
    match link_text_exec(w, "/") {
        Some(c) => Some(c),
        None => match w {
            InspectValue::Object(m) => match object_lookup(m, &chars_of("root")) {
                Some(r) => link_text_exec(r, "/"),
                None => None,
            },
            _ => None,
        },
    }
}

} // verus!
