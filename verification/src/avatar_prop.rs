//! Reading and setting the properties of an avatar: `@avatar.<key> [value]`, or
//! `@avatar.#<selector>.<key>` for another avatar of the room.
use vstd::prelude::*;
use crate::avatar::{shortcuts_summary, Avatar};
use crate::avatar_self::{avatar_lookup_error, description_text, language_rejected, only_avatar_changed, AvatarChange};
use crate::lang::{collapse_strict_spec, collapse_world_language_order_strict, supported_world_languages_text};
use crate::room::Room;
use crate::text::{
    after_first, append_chars, append_lit, before_first, chars_eq_ignore_case, chars_eq_lit, chars_of,
    class_pred, contains_class, eq_ignore_case, lower_chars, lower_seq, split_first, string_of, trim, trim_white,
    CharClass,
};
use crate::world::World;

verus! {

/// The selector (after `#`, up to the first `.`) and the key of a property path, both
/// trimmed and lowercased.
pub open spec fn split_selector_key(path: Seq<char>) -> (Option<Seq<char>>, Seq<char>) {
    let raw = trim(path);
    if raw.len() > 0 && raw[0] == '#' {
        let rest = raw.drop_first();
        if contains_class(rest, class_pred(CharClass::Is('.'))) {
            (
                Some(lower_seq(trim(before_first(rest, class_pred(CharClass::Is('.')))))),
                lower_seq(trim(after_first(rest, class_pred(CharClass::Is('.'))))),
            )
        } else {
            (Some(lower_seq(trim(rest))), Seq::empty())
        }
    } else {
        (None, lower_seq(raw))
    }
}

/// The fragment of an avatar's DID (empty when it has none).
pub open spec fn avatar_fragment(a: Avatar) -> Seq<char> {
    after_first(a.agent_did@, class_pred(CharClass::Is('#')))
}

/// The avatar under handle `h` answers to the selector `tok`: by its handle, or by the
/// fragment of its DID.
pub open spec fn selector_matches(room: Room, tok: Seq<char>, h: Seq<char>) -> bool {
    &&& room.avatars@.dom().contains(h)
    &&& (eq_ignore_case(trim(h), tok) || (avatar_fragment(room.avatars@[h]).len() > 0
        && lower_seq(avatar_fragment(room.avatars@[h])) == tok))
}

pub open spec fn prop_usage() -> Seq<char> {
    "@avatar usage: @avatar.<name|description|owner|fragment|lang> [value] | @avatar.#<selector>.<name|description|owner|fragment|lang>"@
}

pub open spec fn unknown_attribute(key: Seq<char>) -> Seq<char> {
    "@avatar unknown attribute '"@ + key + "'. Allowed: name, description, owner, fragment, lang"@
}

pub open spec fn fragment_display(a: Avatar) -> Seq<char> {
    if trim(avatar_fragment(a)).len() == 0 { "(none)"@ } else { seq!['#'] + avatar_fragment(a) }
}

/// `_list`: every property of the avatar, with the shortcut listing `shortcuts`.
pub open spec fn property_listing(a: Avatar, shortcuts: Seq<char>) -> Seq<char> {
    "@ .avatar.name "@ + a.inbox@ + "\n@ .avatar.description "@ + description_text(a) + "\n@ .avatar.owner "@ + a.owner@
        + "\n@ .avatar.fragment "@ + fragment_display(a) + "\n@ .avatar.lang "@ + a.language_order@
        + "\n@ .avatar.acl "@ + a.acl.summary_text() + "\n@ .avatar.shortcuts "@ + shortcuts
}

/// The reply to reading `key` of `a`.
pub open spec fn property_read(a: Avatar, key: Seq<char>) -> Seq<char> {
    if key == "name"@ {
        a.inbox@
    } else if key == "description"@ {
        description_text(a)
    } else if key == "owner"@ {
        a.owner@
    } else if key == "fragment"@ {
        fragment_display(a)
    } else if key == "lang"@ || key == "language"@ {
        a.language_order@
    } else {
        unknown_attribute(key)
    }
}

/// The reply to setting `key` of `a` to `value` by `caller_base`, and the avatar after it.
pub open spec fn property_write(a: Avatar, key: Seq<char>, value: Seq<char>, caller_base: Seq<char>, selected: bool) -> (Seq<char>, Option<Seq<char>>) {
    if a.owner@ != caller_base {
        ("You don't have access to this."@, None)
    } else if key == "description"@ {
        ("@avatar.description "@ + value, None)
    } else if key == "lang"@ || key == "language"@ {
        match collapse_strict_spec(value) {
            None => (language_rejected(), None),
            Some(l) => (l, Some(l)),
        }
    } else if key == "name"@ {
        if selected {
            ("@avatar.name update requires self target (@avatar.name <value>)"@, None)
        } else {
            ("@avatar.name is read-only in runtime; set alias/fragment at identity bootstrap."@, None)
        }
    } else if key == "owner"@ || key == "fragment"@ {
        ("@avatar."@ + key + " is read-only"@, None)
    } else {
        (unknown_attribute(key), None)
    }
}

fn split_selector_key_exec(path: &str) -> (r: (Option<Vec<char>>, Vec<char>))
    ensures
        split_selector_key(path@) == (match r.0 {
            Some(t) => Some(t@),
            None => None,
        }, r.1@),
{
    let raw = trim_white(&chars_of(path));
    if raw.len() > 0 && raw[0] == '#' {
        let rest = crate::text::slice_chars(&raw, 1, raw.len());
        assert(rest@ =~= raw@.drop_first());
        let (b, a, found) = split_first(&rest, &CharClass::Is('.'));
        if found {
            (Some(lower_chars(&trim_white(&b))), lower_chars(&trim_white(&a)))
        } else {
            (Some(lower_chars(&trim_white(&rest))), Vec::new())
        }
    } else {
        (None, lower_chars(&raw))
    }
}

fn fragment_of(a: &Avatar) -> (r: Vec<char>)
    ensures
        r@ == avatar_fragment(*a),
{
    let (_, f, _) = split_first(&chars_of(a.agent_did.as_str()), &CharClass::Is('#'));
    f
}

fn matches_selector(h: &Vec<char>, a: &Avatar, tok: &Vec<char>) -> (r: bool)
    ensures
        r == (eq_ignore_case(trim(h@), tok@) || (avatar_fragment(*a).len() > 0 && lower_seq(avatar_fragment(*a)) == tok@)),
{
    if chars_eq_ignore_case(&trim_white(h), tok) {
        return true;
    }
    let f = fragment_of(a);
    f.len() > 0 && crate::text::chars_eq(&lower_chars(&f), tok)
}

/// The handle of the first avatar of `room` (in order) that answers to `tok`.
fn select_avatar(room: &Room, tok: &Vec<char>) -> (r: Option<Vec<char>>)
    requires
        room.wf(),
    ensures
        match r {
            Some(h) => selector_matches(*room, tok@, h@),
            None => forall|h: Seq<char>| !selector_matches(*room, tok@, h),
        },
{
    let n = room.avatars.len();
    let mut j: usize = 0;
    while j < n
        invariant
            0 <= j <= n,
            n == room.avatars.entries@.len(),
            room.wf(),
            forall|k: int| 0 <= k < j ==> !(eq_ignore_case(trim(#[trigger] room.avatars.entries@[k].0@), tok@)
                || (avatar_fragment(room.avatars.entries@[k].1).len() > 0 && lower_seq(avatar_fragment(room.avatars.entries@[k].1)) == tok@)),
        decreases n - j,
    {
        let (h, a) = room.avatars.entry_at(j);
        if matches_selector(h, a, tok) {
            proof {
                crate::text_map::lemma_wf_index(room.avatars, j as int);
            }
            let out = crate::text::slice_chars(h, 0, h.len());
            assert(out@ =~= h@);
            return Some(out);
        }
        j = j + 1;
    }
    proof {
        crate::text_map::lemma_wf_dom(room.avatars);
        assert forall|h: Seq<char>| !selector_matches(*room, tok@, h) by {
            if room.avatars@.dom().contains(h) {
                let k = choose|k: int| 0 <= k < room.avatars.entries@.len() && room.avatars.entries@[k].0@ == h;
                crate::text_map::lemma_wf_index(room.avatars, k);
                assert(room.avatars.entries@[k].0@ == h);
            }
        }
    }
    None
}

/// What a property command does to the avatar `t` of the room, and its reply.
pub open spec fn property_effect(
    old_w: World,
    new_w: World,
    room_name: Seq<char>,
    t: Seq<char>,
    key: Seq<char>,
    value: Seq<char>,
    caller_base: Seq<char>,
    selected: bool,
    r: Seq<char>,
) -> bool {
    if avatar_lookup_error(old_w, room_name, t) is Some {
        r == avatar_lookup_error(old_w, room_name, t)->Some_0 && new_w == old_w
    } else {
        let a = old_w.rooms@[room_name].avatars@[t];
        let n = new_w.rooms@[room_name].avatars@[t];
        if key == "_list"@ {
            new_w == old_w && exists|s: Seq<char>| shortcuts_summary(a.object_shortcuts, s) && r == property_listing(a, s)
        } else if value.len() == 0 {
            new_w == old_w && r == property_read(a, key)
        } else {
            let w = property_write(a, key, value, caller_base, selected);
            &&& r == w.0
            &&& if a.owner@ == caller_base && key == "description"@ {
                &&& only_avatar_changed(old_w.rooms@, new_w.rooms@, room_name, t)
                &&& n == (Avatar { descriptions: n.descriptions, ..a })
                &&& n.descriptions@.dom() == a.descriptions@.dom().insert(crate::avatar::und())
                &&& n.descriptions@[crate::avatar::und()]@ == value
                &&& forall|k: Seq<char>| k != crate::avatar::und() && #[trigger] a.descriptions@.dom().contains(k)
                    ==> n.descriptions@[k] == a.descriptions@[k]
            } else if w.1 is Some {
                &&& only_avatar_changed(old_w.rooms@, new_w.rooms@, room_name, t)
                &&& n == (Avatar { language_order: n.language_order, ..a })
                &&& n.language_order@ == w.1->Some_0
            } else {
                new_w == old_w
            }
        }
    }
}

impl World {
    /// `@avatar.<key> [value]` or `@avatar.#<selector>.<key> [value]` from the avatar
    /// `from` (root DID `caller_base`): `path` and `value` as the property command gave
    /// them. Reads any property; sets the description or the language of an avatar the
    /// caller owns.
    pub fn avatar_property(&mut self, room_name: &str, from: &str, caller_base: &str, path: &str, value: &str) -> (r: String)
        requires
            old(self).wf(),
        ensures
            final(self).wf(),
            ({
                let (sel, key) = split_selector_key(path@);
                if key.len() == 0 {
                    r@ == prop_usage() && *final(self) == *old(self)
                } else if sel is Some && !old(self).rooms@.dom().contains(room_name@) {
                    r@ == "@here room '"@ + room_name@ + "' not found"@ && *final(self) == *old(self)
                } else if sel is Some && forall|h: Seq<char>| !selector_matches(old(self).rooms@[room_name@], sel->Some_0, h) {
                    r@ == "@avatar selector '#"@ + sel->Some_0 + "' not found in room"@ && *final(self) == *old(self)
                } else {
                    exists|t: Seq<char>| #![trigger old(self).rooms@[room_name@].avatars@[t]]
                        (sel is None ==> t == from@)
                        && (sel is Some ==> selector_matches(old(self).rooms@[room_name@], sel->Some_0, t))
                        && property_effect(*old(self), *final(self), room_name@, t, key, value@, caller_base@, sel is Some, r@)
                }
            }),
    {
        let (sel, key) = split_selector_key_exec(path);
        if key.len() == 0 {
            return String::from_str(
                "@avatar usage: @avatar.<name|description|owner|fragment|lang> [value] | @avatar.#<selector>.<name|description|owner|fragment|lang>",
            );
        }
        let rk = chars_of(room_name);
        let selected = sel.is_some();
        let target: Vec<char> = match &sel {
            None => chars_of(from),
            Some(tok) => {
                let room = match self.rooms.get(&rk) {
                    None => {
                        return lookup_error_room(room_name);
                    },
                    Some(room) => room,
                };
                proof {
                    assert(room.wf());
                }
                match select_avatar(room, tok) {
                    None => {
                        let mut m: Vec<char> = Vec::new();
                        append_lit(&mut m, "@avatar selector '#");
                        append_chars(&mut m, tok);
                        append_lit(&mut m, "' not found in room");
                        return string_of(&m);
                    },
                    Some(h) => h,
                }
            },
        };
        let ts = string_of(&target);
        let room = match self.rooms.get(&rk) {
            None => {
                let e = crate::avatar_self::lookup_error(room_name, ts.as_str(), true);
                proof {
                    let _probe = self.rooms@[room_name@].avatars@[target@];
                    assert(property_effect(*self, *self, room_name@, target@, key@, value@, caller_base@, selected, e@));
                }
                return e;
            },
            Some(room) => room,
        };
        proof {
            assert(room.wf());
        }
        let a = match room.avatars.get(&target) {
            None => {
                let e = crate::avatar_self::lookup_error(room_name, ts.as_str(), false);
                proof {
                    let _probe = self.rooms@[room_name@].avatars@[target@];
                    assert(property_effect(*self, *self, room_name@, target@, key@, value@, caller_base@, selected, e@));
                }
                return e;
            },
            Some(a) => a,
        };
        proof {
            assert(a.wf());
            reveal_strlit("_list");
            reveal_strlit("name");
            reveal_strlit("description");
            reveal_strlit("owner");
            reveal_strlit("fragment");
            reveal_strlit("lang");
            reveal_strlit("language");
        }
        let frag = fragment_of(a);
        let tf = trim_white(&frag);
        let mut fd: Vec<char> = Vec::new();
        if tf.len() == 0 {
            append_lit(&mut fd, "(none)");
        } else {
            fd.push('#');
            append_chars(&mut fd, &frag);
        }
        assert(fd@ == fragment_display(*a));
        if chars_eq_lit(&key, "_list") {
            let desc = a.description_or_default();
            let acl = a.acl.summary();
            let shortcuts = a.object_shortcuts_summary();
            let mut m: Vec<char> = Vec::new();
            append_lit(&mut m, "@ .avatar.name ");
            append_lit(&mut m, a.inbox.as_str());
            append_lit(&mut m, "\n@ .avatar.description ");
            append_lit(&mut m, desc.as_str());
            append_lit(&mut m, "\n@ .avatar.owner ");
            append_lit(&mut m, a.owner.as_str());
            append_lit(&mut m, "\n@ .avatar.fragment ");
            append_chars(&mut m, &fd);
            append_lit(&mut m, "\n@ .avatar.lang ");
            append_lit(&mut m, a.language_order.as_str());
            append_lit(&mut m, "\n@ .avatar.acl ");
            append_lit(&mut m, acl.as_str());
            append_lit(&mut m, "\n@ .avatar.shortcuts ");
            append_lit(&mut m, shortcuts.as_str());
            proof {
                assert(desc@ == description_text(*a));
                assert(m@ =~= property_listing(*a, shortcuts@));
                assert(shortcuts_summary(a.object_shortcuts, shortcuts@));
                assert(property_effect(*self, *self, room_name@, target@, key@, value@, caller_base@, selected, m@));
            }
            return string_of(&m);
        }
        if value.unicode_len() == 0 {
            if chars_eq_lit(&key, "name") {
                return a.inbox.clone();
            }
            if chars_eq_lit(&key, "description") {
                return a.description_or_default();
            }
            if chars_eq_lit(&key, "owner") {
                return a.owner.clone();
            }
            if chars_eq_lit(&key, "fragment") {
                return string_of(&fd);
            }
            if chars_eq_lit(&key, "lang") || chars_eq_lit(&key, "language") {
                return a.language_order.clone();
            }
            return unknown_attribute_text(&key);
        }
        if !crate::text::str_eq(a.owner.as_str(), caller_base) {
            return String::from_str("You don't have access to this.");
        }
        if chars_eq_lit(&key, "description") {
            let _ = self.update_avatar_at(room_name, ts.as_str(), AvatarChange::Description(String::from_str(value)));
            let mut m: Vec<char> = Vec::new();
            append_lit(&mut m, "@avatar.description ");
            append_lit(&mut m, value);
            return string_of(&m);
        }
        if chars_eq_lit(&key, "lang") || chars_eq_lit(&key, "language") {
            return match collapse_world_language_order_strict(value) {
                None => {
                    let mut m: Vec<char> = Vec::new();
                    append_lit(&mut m, "@avatar language rejected. supported=");
                    let sup = supported_world_languages_text();
                    append_lit(&mut m, sup.as_str());
                    append_lit(&mut m, ". Set language here, or leave.");
                    string_of(&m)
                },
                Some(l) => {
                    let l2 = l.clone();
                    let _ = self.update_avatar_at(room_name, ts.as_str(), AvatarChange::Language(l));
                    l2
                },
            };
        }
        if chars_eq_lit(&key, "name") {
            if selected {
                return String::from_str("@avatar.name update requires self target (@avatar.name <value>)");
            }
            return String::from_str("@avatar.name is read-only in runtime; set alias/fragment at identity bootstrap.");
        }
        if chars_eq_lit(&key, "owner") || chars_eq_lit(&key, "fragment") {
            let mut m: Vec<char> = Vec::new();
            append_lit(&mut m, "@avatar.");
            append_chars(&mut m, &key);
            append_lit(&mut m, " is read-only");
            return string_of(&m);
        }
        unknown_attribute_text(&key)
    }
}

fn lookup_error_room(room_name: &str) -> (r: String)
    ensures
        r@ == "@here room '"@ + room_name@ + "' not found"@,
{
    let mut m: Vec<char> = Vec::new();
    append_lit(&mut m, "@here room '");
    append_lit(&mut m, room_name);
    append_lit(&mut m, "' not found");
    string_of(&m)
}

fn unknown_attribute_text(key: &Vec<char>) -> (r: String)
    ensures
        r@ == unknown_attribute(key@),
{
    let mut m: Vec<char> = Vec::new();
    append_lit(&mut m, "@avatar unknown attribute '");
    append_chars(&mut m, key);
    append_lit(&mut m, "'. Allowed: name, description, owner, fragment, lang");
    string_of(&m)
}

/// What the owner writes reads back: a description as written, a language list as the
/// supported languages it names (which is also what the write answered).
pub proof fn law_property_write_then_read(
    a: Avatar,
    n: Avatar,
    key: Seq<char>,
    value: Seq<char>,
    caller_base: Seq<char>,
    selected: bool,
)
    requires
        value.len() > 0,
        a.owner@ == caller_base,
        key == "description"@ || ((key == "lang"@ || key == "language"@) && collapse_strict_spec(value) is Some),
        key == "description"@ ==> n.descriptions@.dom().contains(crate::avatar::und())
            && n.descriptions@[crate::avatar::und()]@ == value,
        key == "lang"@ || key == "language"@ ==> n.language_order@ == collapse_strict_spec(value)->Some_0,
    ensures
        property_read(n, key) == (if key == "description"@ {
            value
        } else {
            property_write(a, key, value, caller_base, selected).0
        }),
{
    reveal_strlit("description");
    reveal_strlit("name");
    reveal_strlit("owner");
    reveal_strlit("fragment");
    reveal_strlit("lang");
    reveal_strlit("language");
    assert(("description"@).len() == 11 && ("name"@).len() == 4 && ("owner"@).len() == 5);
    assert(("fragment"@).len() == 8 && ("lang"@).len() == 4 && ("language"@).len() == 8);
    assert(("lang"@)[0] != ("name"@)[0]);
    assert(("language"@)[0] != ("fragment"@)[0]);
    assert("lang"@ != "name"@);
    assert("language"@ != "fragment"@);
    if key == "description"@ {
        assert(description_text(n) == value);
    } else {
        assert(key != "description"@ && key != "name"@ && key != "owner"@ && key != "fragment"@);
        assert(property_read(n, key) == n.language_order@);
    }
}

} // verus!
