//! Commands an agent gives its own avatar: its description, language and object
//! shortcuts, and what it shows of itself.
use vstd::prelude::*;
use crate::avatar::{normalize_shortcut, shortcuts_summary, und, unset_text, Avatar};
use crate::lang::{collapse_strict_spec, collapse_world_language_order_strict, supported_langs, supported_world_languages_text};
use crate::room::Room;
use crate::text::{
    append_lit, chars_eq_ignore_case, chars_of, eq_ignore_case, has_prefix, join, lemma_prefix_excludes,
    lemma_prefix_excludes_ignoring_case, lower_seq, slice_chars,
    starts_with_lit, string_of, trim, trim_white,
};
use crate::world::{rooms_same_except, World};

verus! {

/// A change to one avatar.
pub enum AvatarChange {
    /// Set the `und` description.
    Description(String),
    /// Set the language order.
    Language(String),
    /// Remove the shortcut of an alias.
    Unbind(String),
    /// Bind an alias to an object id.
    Bind(String, String),
}

/// `n` is `a` after the change `c`; `done` says whether a shortcut change took effect.
pub open spec fn changed_avatar(a: Avatar, c: AvatarChange, n: Avatar, done: bool) -> bool {
    match c {
        AvatarChange::Description(d) => {
            &&& n == (Avatar { descriptions: n.descriptions, ..a })
            &&& n.descriptions@ == a.descriptions@.insert(und(), d)
            &&& done
        },
        AvatarChange::Language(l) => n == (Avatar { language_order: l, ..a }) && done,
        AvatarChange::Unbind(al) => {
            &&& n == (Avatar { object_shortcuts: n.object_shortcuts, ..a })
            &&& match normalize_shortcut(al@) {
                None => !done && n.object_shortcuts@ == a.object_shortcuts@,
                Some(k) => done == a.object_shortcuts@.dom().contains(k) && n.object_shortcuts@ == a.object_shortcuts@.remove(k),
            }
        },
        AvatarChange::Bind(al, oid) => {
            &&& n == (Avatar { object_shortcuts: n.object_shortcuts, ..a })
            &&& done == normalize_shortcut(al@) is Some
            &&& !done ==> n.object_shortcuts@ == a.object_shortcuts@
            &&& done ==> {
                let k = normalize_shortcut(al@)->Some_0;
                &&& n.object_shortcuts@ == a.object_shortcuts@.insert(k, n.object_shortcuts@[k])
                &&& n.object_shortcuts@[k]@ == trim(oid@)
            }
        },
    }
}

/// Between `o` and `f`, only the avatar `handle` of the room `room` changed.
pub open spec fn only_avatar_changed(o: Map<Seq<char>, Room>, f: Map<Seq<char>, Room>, room: Seq<char>, handle: Seq<char>) -> bool {
    let ro = o[room];
    let rn = f[room];
    &&& rooms_same_except(o, f, room)
    &&& rn == (Room { avatars: rn.avatars, ..ro })
    &&& rn.avatars@.dom() == ro.avatars@.dom()
    &&& forall|k: Seq<char>| #[trigger] ro.avatars@.dom().contains(k) && k != handle ==> rn.avatars@[k] == ro.avatars@[k]
}

/// Where an avatar command failed to find its avatar.
pub open spec fn avatar_lookup_error(w: World, room_name: Seq<char>, handle: Seq<char>) -> Option<Seq<char>> {
    if !w.rooms@.dom().contains(room_name) {
        Some("@here room '"@ + room_name + "' not found"@)
    } else if !w.rooms@[room_name].avatars@.dom().contains(handle) {
        Some("@avatar '"@ + handle + "' not found"@)
    } else {
        None
    }
}

pub(crate) fn lookup_error(room_name: &str, handle: &str, room_missing: bool) -> (r: String)
    ensures
        room_missing ==> r@ == "@here room '"@ + room_name@ + "' not found"@,
        !room_missing ==> r@ == "@avatar '"@ + handle@ + "' not found"@,
{
    let mut m: Vec<char> = Vec::new();
    if room_missing {
        append_lit(&mut m, "@here room '");
        append_lit(&mut m, room_name);
    } else {
        append_lit(&mut m, "@avatar '");
        append_lit(&mut m, handle);
    }
    append_lit(&mut m, "' not found");
    string_of(&m)
}

impl World {
    /// Applies `c` to the avatar with handle `handle` in `room_name`. `None` when there is
    /// no such avatar; otherwise whether the change took effect.
    pub(crate) fn update_avatar_at(&mut self, room_name: &str, handle: &str, c: AvatarChange) -> (r: Option<bool>)
        requires
            old(self).wf(),
        ensures
            final(self).wf(),
            r is None <==> avatar_lookup_error(*old(self), room_name@, handle@) is Some,
            r is None ==> *final(self) == *old(self),
            r matches Some(done) ==> {
                let o = old(self).rooms@[room_name@];
                let n = final(self).rooms@[room_name@];
                &&& only_avatar_changed(old(self).rooms@, final(self).rooms@, room_name@, handle@)
                &&& changed_avatar(o.avatars@[handle@], c, n.avatars@[handle@], done)
                &&& n.avatars@[handle@].wf()
            },
            *final(self) == (World { rooms: final(self).rooms, ..*old(self) }),
    {
        let rk = chars_of(room_name);
        let hk = chars_of(handle);
        let i = match self.rooms.find(&rk) {
            None => {
                return None;
            },
            Some(i) => i,
        };
        let ghost orooms = self.rooms@;
        proof {
            crate::text_map::lemma_wf_index(self.rooms, i as int);
        }
        if !self.rooms.entries[i].1.avatars.contains_key(&hk) {
            return None;
        }
        let (k, mut room) = self.rooms.take_at(i);
        let ghost ro = room;
        let mut av = room.avatars.remove(&hk).unwrap();
        let ghost a = av;
        let done = match c {
            AvatarChange::Description(d) => {
                av.set_description(d);
                true
            },
            AvatarChange::Language(l) => {
                av.language_order = l;
                true
            },
            AvatarChange::Unbind(al) => av.remove_object_shortcut(al.as_str()),
            AvatarChange::Bind(al, oid) => av.bind_object_shortcut(al.as_str(), oid.as_str()),
        };
        let hk2 = chars_of(handle);
        room.avatars.insert(hk2, av);
        let ghost nr = room;
        proof {
            assert forall|h1: Seq<char>, hh: Seq<char>|
                nr.avatars@.dom().contains(h1) && nr.avatars@.dom().contains(hh) && h1 != hh
                implies #[trigger] nr.avatars@[h1].agent_did@ != #[trigger] nr.avatars@[hh].agent_did@ by {
                assert(ro.avatars@.dom().contains(h1) && ro.avatars@.dom().contains(hh));
                assert(nr.avatars@[h1].agent_did == ro.avatars@[h1].agent_did);
                assert(nr.avatars@[hh].agent_did == ro.avatars@[hh].agent_did);
            }
            assert forall|x: Seq<char>| #[trigger] nr.avatars@.dom().contains(x) implies nr.avatars@[x].wf() by {
                assert(ro.avatars@.dom().contains(x));
            }
        }
        self.rooms.insert_at(i, k, room);
        proof {
            assert(orooms.remove(rk@).insert(rk@, nr) =~= orooms.insert(rk@, nr));
            assert forall|x: Seq<char>| #[trigger] nr.has_did(x) implies orooms[rk@].has_did(x) by {
                let hh = choose|hh: Seq<char>| #[trigger] nr.avatars@.dom().contains(hh) && nr.avatars@[hh].agent_did@ == x;
                assert(ro.avatars@.dom().contains(hh));
                assert(nr.avatars@[hh].agent_did == ro.avatars@[hh].agent_did);
            }
            crate::world::lemma_single_membership_shrink(orooms, rk@, nr);
            assert(nr.avatars@.dom() =~= ro.avatars@.dom());
        }
        Some(done)
    }
}

/// An avatar command, by the words it starts with.
#[derive(Debug)]
pub enum AvatarCommandText {
    Ping,
    /// The property command after `prop `.
    Prop(String),
    /// The arguments after `use `.
    Use(String),
    /// The alias after `unuse `, trimmed.
    Unuse(String),
    /// The text after `describe `.
    Describe(String),
    Show,
    LanguageShow,
    /// The language list after `language ` or `lang `, trimmed.
    Language(String),
    /// Anything else: looking, moving and inspecting.
    Other,
}

pub open spec fn after(s: Seq<char>, n: int) -> Seq<char> {
    s.subrange(n, s.len() as int)
}

/// How an avatar reads `raw`.
pub open spec fn avatar_command_text(raw: Seq<char>, r: AvatarCommandText) -> bool {
    let t = trim(raw);
    if eq_ignore_case(t, "ping"@) || eq_ignore_case(t, "ping?"@) {
        r is Ping
    } else if has_prefix(t, "prop "@) {
        r matches AvatarCommandText::Prop(x) && x@ == after(t, 5)
    } else if has_prefix(t, "use "@) {
        r matches AvatarCommandText::Use(x) && x@ == after(t, 4)
    } else if has_prefix(t, "unuse "@) {
        r matches AvatarCommandText::Unuse(x) && x@ == trim(after(t, 6))
    } else if has_prefix(t, "describe "@) {
        r matches AvatarCommandText::Describe(x) && x@ == after(t, 9)
    } else if eq_ignore_case(t, "show"@) || eq_ignore_case(t, "who"@) {
        r is Show
    } else if eq_ignore_case(t, "language show"@) || eq_ignore_case(t, "lang show"@) {
        r is LanguageShow
    } else if has_prefix(t, "language "@) {
        r matches AvatarCommandText::Language(x) && x@ == trim(after(t, 9))
    } else if has_prefix(t, "lang "@) {
        r matches AvatarCommandText::Language(x) && x@ == trim(after(t, 5))
    } else {
        r is Other
    }
}

fn eq_lit_ignore_case(v: &Vec<char>, lit: &str) -> (r: bool)
    ensures
        r == eq_ignore_case(v@, lit@),
{
    chars_eq_ignore_case(v, &chars_of(lit))
}

fn rest_after(t: &Vec<char>, n: usize) -> (r: String)
    requires
        n <= t@.len(),
    ensures
        r@ == after(t@, n as int),
{
    string_of(&slice_chars(t, n, t.len()))
}

fn trimmed_rest_after(t: &Vec<char>, n: usize) -> (r: String)
    requires
        n <= t@.len(),
    ensures
        r@ == trim(after(t@, n as int)),
{
    string_of(&trim_white(&slice_chars(t, n, t.len())))
}

/// The command words an avatar reads differ where it matters: a command that begins with
/// one of the prefixed words is none of the commands read before it, and the whole-word
/// commands differ from one another in every case.
proof fn lemma_self_command_words(t: Seq<char>)
    ensures
        has_prefix(t, "prop "@) ==> {
            &&& t.len() >= 5
            &&& !eq_ignore_case(t, "ping"@)
            &&& !eq_ignore_case(t, "ping?"@)
            &&& !eq_ignore_case(t, "show"@)
            &&& !eq_ignore_case(t, "who"@)
            &&& !eq_ignore_case(t, "language show"@)
            &&& !eq_ignore_case(t, "lang show"@)
        },
        has_prefix(t, "use "@) ==> {
            &&& t.len() >= 4
            &&& !eq_ignore_case(t, "ping"@)
            &&& !eq_ignore_case(t, "ping?"@)
            &&& !eq_ignore_case(t, "show"@)
            &&& !eq_ignore_case(t, "who"@)
            &&& !eq_ignore_case(t, "language show"@)
            &&& !eq_ignore_case(t, "lang show"@)
            &&& !has_prefix(t, "prop "@)
        },
        has_prefix(t, "unuse "@) ==> {
            &&& t.len() >= 6
            &&& !eq_ignore_case(t, "ping"@)
            &&& !eq_ignore_case(t, "ping?"@)
            &&& !eq_ignore_case(t, "show"@)
            &&& !eq_ignore_case(t, "who"@)
            &&& !eq_ignore_case(t, "language show"@)
            &&& !eq_ignore_case(t, "lang show"@)
            &&& !has_prefix(t, "prop "@)
            &&& !has_prefix(t, "use "@)
        },
        has_prefix(t, "describe "@) ==> {
            &&& t.len() >= 9
            &&& !eq_ignore_case(t, "ping"@)
            &&& !eq_ignore_case(t, "ping?"@)
            &&& !eq_ignore_case(t, "show"@)
            &&& !eq_ignore_case(t, "who"@)
            &&& !eq_ignore_case(t, "language show"@)
            &&& !eq_ignore_case(t, "lang show"@)
            &&& !has_prefix(t, "prop "@)
            &&& !has_prefix(t, "use "@)
            &&& !has_prefix(t, "unuse "@)
        },
        has_prefix(t, "language "@) ==> {
            &&& t.len() >= 9
            &&& !eq_ignore_case(t, "ping"@)
            &&& !eq_ignore_case(t, "ping?"@)
            &&& !eq_ignore_case(t, "show"@)
            &&& !eq_ignore_case(t, "who"@)
            &&& !eq_ignore_case(t, "lang show"@)
            &&& !has_prefix(t, "prop "@)
            &&& !has_prefix(t, "use "@)
            &&& !has_prefix(t, "unuse "@)
            &&& !has_prefix(t, "describe "@)
        },
        has_prefix(t, "lang "@) ==> {
            &&& t.len() >= 5
            &&& !eq_ignore_case(t, "ping"@)
            &&& !eq_ignore_case(t, "ping?"@)
            &&& !eq_ignore_case(t, "show"@)
            &&& !eq_ignore_case(t, "who"@)
            &&& !eq_ignore_case(t, "language show"@)
            &&& !has_prefix(t, "prop "@)
            &&& !has_prefix(t, "use "@)
            &&& !has_prefix(t, "unuse "@)
            &&& !has_prefix(t, "describe "@)
            &&& !has_prefix(t, "language "@)
        },
        lower_seq("ping"@) != lower_seq("show"@),
        lower_seq("ping"@) != lower_seq("who"@),
        lower_seq("ping"@) != lower_seq("language show"@),
        lower_seq("ping"@) != lower_seq("lang show"@),
        lower_seq("ping?"@) != lower_seq("show"@),
        lower_seq("ping?"@) != lower_seq("who"@),
        lower_seq("ping?"@) != lower_seq("language show"@),
        lower_seq("ping?"@) != lower_seq("lang show"@),
        lower_seq("show"@) != lower_seq("language show"@),
        lower_seq("show"@) != lower_seq("lang show"@),
        lower_seq("who"@) != lower_seq("language show"@),
        lower_seq("who"@) != lower_seq("lang show"@),
{
    reveal_strlit("prop ");
    reveal_strlit("use ");
    reveal_strlit("unuse ");
    reveal_strlit("describe ");
    reveal_strlit("language ");
    reveal_strlit("lang ");
    reveal_strlit("ping");
    reveal_strlit("ping?");
    reveal_strlit("show");
    reveal_strlit("who");
    reveal_strlit("language show");
    reveal_strlit("lang show");
    if has_prefix(t, "prop "@) {
        lemma_prefix_excludes_ignoring_case(t, "prop "@, "ping"@, 1);
        lemma_prefix_excludes_ignoring_case(t, "prop "@, "ping?"@, 1);
        lemma_prefix_excludes_ignoring_case(t, "prop "@, "show"@, 0);
        lemma_prefix_excludes_ignoring_case(t, "prop "@, "who"@, 0);
        lemma_prefix_excludes_ignoring_case(t, "prop "@, "language show"@, 0);
        lemma_prefix_excludes_ignoring_case(t, "prop "@, "lang show"@, 0);
    }
    if has_prefix(t, "use "@) {
        lemma_prefix_excludes_ignoring_case(t, "use "@, "ping"@, 0);
        lemma_prefix_excludes_ignoring_case(t, "use "@, "ping?"@, 0);
        lemma_prefix_excludes_ignoring_case(t, "use "@, "show"@, 0);
        lemma_prefix_excludes_ignoring_case(t, "use "@, "who"@, 0);
        lemma_prefix_excludes_ignoring_case(t, "use "@, "language show"@, 0);
        lemma_prefix_excludes_ignoring_case(t, "use "@, "lang show"@, 0);
        lemma_prefix_excludes(t, "use "@, "prop "@, 0);
    }
    if has_prefix(t, "unuse "@) {
        lemma_prefix_excludes_ignoring_case(t, "unuse "@, "ping"@, 0);
        lemma_prefix_excludes_ignoring_case(t, "unuse "@, "ping?"@, 0);
        lemma_prefix_excludes_ignoring_case(t, "unuse "@, "show"@, 0);
        lemma_prefix_excludes_ignoring_case(t, "unuse "@, "who"@, 0);
        lemma_prefix_excludes_ignoring_case(t, "unuse "@, "language show"@, 0);
        lemma_prefix_excludes_ignoring_case(t, "unuse "@, "lang show"@, 0);
        lemma_prefix_excludes(t, "unuse "@, "prop "@, 0);
        lemma_prefix_excludes(t, "unuse "@, "use "@, 1);
    }
    if has_prefix(t, "describe "@) {
        lemma_prefix_excludes_ignoring_case(t, "describe "@, "ping"@, 0);
        lemma_prefix_excludes_ignoring_case(t, "describe "@, "ping?"@, 0);
        lemma_prefix_excludes_ignoring_case(t, "describe "@, "show"@, 0);
        lemma_prefix_excludes_ignoring_case(t, "describe "@, "who"@, 0);
        lemma_prefix_excludes_ignoring_case(t, "describe "@, "language show"@, 0);
        lemma_prefix_excludes_ignoring_case(t, "describe "@, "lang show"@, 0);
        lemma_prefix_excludes(t, "describe "@, "prop "@, 0);
        lemma_prefix_excludes(t, "describe "@, "use "@, 0);
        lemma_prefix_excludes(t, "describe "@, "unuse "@, 0);
    }
    if has_prefix(t, "language "@) {
        lemma_prefix_excludes_ignoring_case(t, "language "@, "ping"@, 0);
        lemma_prefix_excludes_ignoring_case(t, "language "@, "ping?"@, 0);
        lemma_prefix_excludes_ignoring_case(t, "language "@, "show"@, 0);
        lemma_prefix_excludes_ignoring_case(t, "language "@, "who"@, 0);
        lemma_prefix_excludes_ignoring_case(t, "language "@, "lang show"@, 4);
        lemma_prefix_excludes(t, "language "@, "prop "@, 0);
        lemma_prefix_excludes(t, "language "@, "use "@, 0);
        lemma_prefix_excludes(t, "language "@, "unuse "@, 0);
        lemma_prefix_excludes(t, "language "@, "describe "@, 0);
    }
    if has_prefix(t, "lang "@) {
        lemma_prefix_excludes_ignoring_case(t, "lang "@, "ping"@, 0);
        lemma_prefix_excludes_ignoring_case(t, "lang "@, "ping?"@, 0);
        lemma_prefix_excludes_ignoring_case(t, "lang "@, "show"@, 0);
        lemma_prefix_excludes_ignoring_case(t, "lang "@, "who"@, 0);
        lemma_prefix_excludes_ignoring_case(t, "lang "@, "language show"@, 4);
        lemma_prefix_excludes(t, "lang "@, "prop "@, 0);
        lemma_prefix_excludes(t, "lang "@, "use "@, 0);
        lemma_prefix_excludes(t, "lang "@, "unuse "@, 0);
        lemma_prefix_excludes(t, "lang "@, "describe "@, 0);
        lemma_prefix_excludes(t, "lang "@, "language "@, 4);
    }
    assert(lower_seq("ping"@)[0] != lower_seq("show"@)[0]);
    assert(lower_seq("ping"@)[0] != lower_seq("who"@)[0]);
    assert(lower_seq("ping"@)[0] != lower_seq("language show"@)[0]);
    assert(lower_seq("ping"@)[0] != lower_seq("lang show"@)[0]);
    assert(lower_seq("ping?"@)[0] != lower_seq("show"@)[0]);
    assert(lower_seq("ping?"@)[0] != lower_seq("who"@)[0]);
    assert(lower_seq("ping?"@)[0] != lower_seq("language show"@)[0]);
    assert(lower_seq("ping?"@)[0] != lower_seq("lang show"@)[0]);
    assert(lower_seq("show"@)[0] != lower_seq("language show"@)[0]);
    assert(lower_seq("show"@)[0] != lower_seq("lang show"@)[0]);
    assert(lower_seq("who"@)[0] != lower_seq("language show"@)[0]);
    assert(lower_seq("who"@)[0] != lower_seq("lang show"@)[0]);
}

/// Every command that begins with `describe ` (after trimming) sets the description to
/// what follows those nine characters.
pub proof fn law_describe_takes_the_rest(raw: Seq<char>, r: AvatarCommandText)
    requires
        avatar_command_text(raw, r),
        has_prefix(trim(raw), "describe "@),
    ensures
        r matches AvatarCommandText::Describe(x) && x@ == trim(raw).subrange(9, trim(raw).len() as int),
{
    lemma_self_command_words(trim(raw));
}

/// Reads an avatar command.
pub fn parse_avatar_command_text(raw: &str) -> (r: AvatarCommandText)
    ensures
        avatar_command_text(raw@, r),
        ({
            let t = trim(raw@);
            let shown = eq_ignore_case(t, "language show"@) || eq_ignore_case(t, "lang show"@);
            &&& (eq_ignore_case(t, "ping"@) || eq_ignore_case(t, "ping?"@)) ==> r is Ping
            &&& has_prefix(t, "prop "@) ==> (r matches AvatarCommandText::Prop(x) && x@ == t.subrange(5, t.len() as int))
            &&& has_prefix(t, "use "@) ==> (r matches AvatarCommandText::Use(x) && x@ == t.subrange(4, t.len() as int))
            &&& has_prefix(t, "unuse "@) ==> (r matches AvatarCommandText::Unuse(x)
                && x@ == trim(t.subrange(6, t.len() as int)))
            &&& has_prefix(t, "describe "@) ==> (r matches AvatarCommandText::Describe(x)
                && x@ == t.subrange(9, t.len() as int))
            &&& (eq_ignore_case(t, "show"@) || eq_ignore_case(t, "who"@)) ==> r is Show
            &&& shown ==> r is LanguageShow
            &&& (has_prefix(t, "language "@) && !shown) ==> (r matches AvatarCommandText::Language(x)
                && x@ == trim(t.subrange(9, t.len() as int)))
            &&& (has_prefix(t, "lang "@) && !shown) ==> (r matches AvatarCommandText::Language(x)
                && x@ == trim(t.subrange(5, t.len() as int)))
        }),
{
    proof {
        lemma_self_command_words(trim(raw@));
    }
    let t = trim_white(&chars_of(raw));
    proof {
        reveal_strlit("prop ");
        reveal_strlit("use ");
        reveal_strlit("unuse ");
        reveal_strlit("describe ");
        reveal_strlit("language ");
        reveal_strlit("lang ");
    }
    if eq_lit_ignore_case(&t, "ping") || eq_lit_ignore_case(&t, "ping?") {
        return AvatarCommandText::Ping;
    }
    if starts_with_lit(&t, "prop ") {
        return AvatarCommandText::Prop(rest_after(&t, 5));
    }
    if starts_with_lit(&t, "use ") {
        return AvatarCommandText::Use(rest_after(&t, 4));
    }
    if starts_with_lit(&t, "unuse ") {
        return AvatarCommandText::Unuse(trimmed_rest_after(&t, 6));
    }
    if starts_with_lit(&t, "describe ") {
        return AvatarCommandText::Describe(rest_after(&t, 9));
    }
    if eq_lit_ignore_case(&t, "show") || eq_lit_ignore_case(&t, "who") {
        return AvatarCommandText::Show;
    }
    if eq_lit_ignore_case(&t, "language show") || eq_lit_ignore_case(&t, "lang show") {
        return AvatarCommandText::LanguageShow;
    }
    if starts_with_lit(&t, "language ") {
        return AvatarCommandText::Language(trimmed_rest_after(&t, 9));
    }
    if starts_with_lit(&t, "lang ") {
        return AvatarCommandText::Language(trimmed_rest_after(&t, 5));
    }
    AvatarCommandText::Other
}

/// `ping` to an avatar.
pub fn avatar_ping_reply(room_name: &str, handle: &str) -> (r: String)
    ensures
        r@ == "pong room="@ + room_name@ + " handle="@ + handle@,
{
    let mut m: Vec<char> = Vec::new();
    append_lit(&mut m, "pong room=");
    append_lit(&mut m, room_name);
    append_lit(&mut m, " handle=");
    append_lit(&mut m, handle);
    string_of(&m)
}

pub open spec fn language_rejected() -> Seq<char> {
    "@avatar language rejected. supported="@ + join(supported_langs(), ", "@) + ". Set language here, or leave."@
}

pub open spec fn language_usage() -> Seq<char> {
    "@avatar usage: language <ordered-list> (example: nb_NO; en_UK, en; nn_NO)"@
}

pub open spec fn description_text(a: Avatar) -> Seq<char> {
    if a.descriptions@.dom().contains(und()) { a.descriptions@[und()]@ } else { unset_text() }
}

/// What `show` lists of an avatar, with the shortcut listing `shortcuts`.
pub open spec fn show_text(a: Avatar, fragment: Option<Seq<char>>, shortcuts: Seq<char>) -> Seq<char> {
    "@ .avatar.name "@ + a.inbox@ + "\n@ .avatar.description "@ + description_text(a) + "\n@ .avatar.owner "@
        + a.owner@ + "\n@ .avatar.fragment "@ + (match fragment {
        Some(f) => seq!['#'] + f,
        None => "(none)"@,
    }) + "\n@ .avatar.acl "@ + a.acl.summary_text() + "\n@ .avatar.shortcuts "@ + shortcuts
}

impl World {
    /// `unuse @alias`: removes a shortcut of the avatar `from`.
    pub fn avatar_unuse(&mut self, room_name: &str, from: &str, alias: &str) -> (r: String)
        requires
            old(self).wf(),
        ensures
            final(self).wf(),
            *final(self) == (World { rooms: final(self).rooms, ..*old(self) }),
            alias@.len() == 0 ==> r@ == "usage: unuse @alias"@ && *final(self) == *old(self),
            alias@.len() > 0 && avatar_lookup_error(*old(self), room_name@, from@) is Some ==>
                r@ == avatar_lookup_error(*old(self), room_name@, from@)->Some_0 && *final(self) == *old(self),
            alias@.len() > 0 && avatar_lookup_error(*old(self), room_name@, from@) is None ==> {
                let o = old(self).rooms@[room_name@].avatars@[from@];
                let n = final(self).rooms@[room_name@].avatars@[from@];
                let removed = match normalize_shortcut(alias@) {
                    Some(k) => o.object_shortcuts@.dom().contains(k),
                    None => false,
                };
                &&& only_avatar_changed(old(self).rooms@, final(self).rooms@, room_name@, from@)
                &&& n == (Avatar { object_shortcuts: n.object_shortcuts, ..o })
                &&& n.object_shortcuts@ == match normalize_shortcut(alias@) {
                    Some(k) => o.object_shortcuts@.remove(k),
                    None => o.object_shortcuts@,
                }
                &&& removed ==> exists|s: Seq<char>| shortcuts_summary(n.object_shortcuts, s)
                    && r@ == "removed shortcut "@ + alias@ + " shortcuts=["@ + s + "]"@
                &&& !removed ==> r@ == "shortcut "@ + alias@ + " not found"@
            },
    {
        if alias.unicode_len() == 0 {
            return String::from_str("usage: unuse @alias");
        }
        let ghost old_w = *self;
        match self.update_avatar_at(room_name, from, AvatarChange::Unbind(String::from_str(alias))) {
            None => lookup_error(room_name, from, !self.rooms.contains_key(&chars_of(room_name))),
            Some(removed) => {
                let mut m: Vec<char> = Vec::new();
                if removed {
                    let rk = chars_of(room_name);
                    let room = self.rooms.get(&rk).unwrap();
                    proof {
                        assert(room.wf());
                    }
                    let a = room.avatars.get(&chars_of(from)).unwrap();
                    let summary = a.object_shortcuts_summary();
                    append_lit(&mut m, "removed shortcut ");
                    append_lit(&mut m, alias);
                    append_lit(&mut m, " shortcuts=[");
                    append_lit(&mut m, summary.as_str());
                    append_lit(&mut m, "]");
                } else {
                    append_lit(&mut m, "shortcut ");
                    append_lit(&mut m, alias);
                    append_lit(&mut m, " not found");
                }
                string_of(&m)
            },
        }
    }
}

impl World {
    /// `describe <text>`: sets the description of the avatar `from` to `description`
    /// (the spoken form of the text) trimmed.
    pub fn avatar_describe(&mut self, room_name: &str, from: &str, description: &str) -> (r: String)
        requires
            old(self).wf(),
        ensures
            final(self).wf(),
            *final(self) == (World { rooms: final(self).rooms, ..*old(self) }),
            trim(description@).len() == 0 ==> r@ == "@avatar describe requires text"@ && *final(self) == *old(self),
            trim(description@).len() > 0 && avatar_lookup_error(*old(self), room_name@, from@) is Some ==>
                r@ == avatar_lookup_error(*old(self), room_name@, from@)->Some_0 && *final(self) == *old(self),
            trim(description@).len() > 0 && avatar_lookup_error(*old(self), room_name@, from@) is None ==> {
                let o = old(self).rooms@[room_name@].avatars@[from@];
                let n = final(self).rooms@[room_name@].avatars@[from@];
                &&& only_avatar_changed(old(self).rooms@, final(self).rooms@, room_name@, from@)
                &&& n == (Avatar { descriptions: n.descriptions, ..o })
                &&& n.descriptions@.dom() == o.descriptions@.dom().insert(und())
                &&& n.descriptions@[und()]@ == trim(description@)
                &&& forall|k: Seq<char>| k != und() && #[trigger] o.descriptions@.dom().contains(k) ==> n.descriptions@[k] == o.descriptions@[k]
                &&& r@ == "@avatar owner="@ + o.owner@ + " desc="@ + trim(description@)
            },
    {
        let d = string_of(&trim_white(&chars_of(description)));
        if d.unicode_len() == 0 {
            return String::from_str("@avatar describe requires text");
        }
        let d2 = d.clone();
        match self.update_avatar_at(room_name, from, AvatarChange::Description(d)) {
            None => lookup_error(room_name, from, !self.rooms.contains_key(&chars_of(room_name))),
            Some(_) => {
                let rk = chars_of(room_name);
                let room = self.rooms.get(&rk).unwrap();
                proof {
                    assert(room.wf());
                }
                let a = room.avatars.get(&chars_of(from)).unwrap();
                let mut m: Vec<char> = Vec::new();
                append_lit(&mut m, "@avatar owner=");
                append_lit(&mut m, a.owner.as_str());
                append_lit(&mut m, " desc=");
                append_lit(&mut m, d2.as_str());
                string_of(&m)
            },
        }
    }

    /// `show` / `who`: what the avatar `from` shows of itself, with the fragment of the
    /// caller's DID.
    pub fn avatar_show(&self, room_name: &str, from: &str, fragment: &Option<String>) -> (r: String)
        requires
            self.wf(),
        ensures
            avatar_lookup_error(*self, room_name@, from@) is Some ==> r@ == avatar_lookup_error(*self, room_name@, from@)->Some_0,
            avatar_lookup_error(*self, room_name@, from@) is None ==> {
                let a = self.rooms@[room_name@].avatars@[from@];
                exists|s: Seq<char>| shortcuts_summary(a.object_shortcuts, s) && r@ == show_text(a, match fragment {
                    Some(f) => Some(f@),
                    None => None,
                }, s)
            },
    {
        let rk = chars_of(room_name);
        let room = match self.rooms.get(&rk) {
            None => {
                return lookup_error(room_name, from, true);
            },
            Some(room) => room,
        };
        proof {
            assert(room.wf());
        }
        let a = match room.avatars.get(&chars_of(from)) {
            None => {
                return lookup_error(room_name, from, false);
            },
            Some(a) => a,
        };
        proof {
            assert(a.wf());
        }
        let desc = a.description_or_default();
        let acl = a.acl.summary();
        let shortcuts = a.object_shortcuts_summary();
        let mut m: Vec<char> = Vec::new();
        append_lit(&mut m, "@ .avatar.name ");
        append_lit(&mut m, a.inbox.as_str());
        append_lit(&mut m, "\n@ .avatar.description ");
        append_lit(&mut m, desc.as_str());
        append_lit(&mut m, "\n@ .avatar.owner ");
        append_lit(&mut m, a.owner.as_str());
        append_lit(&mut m, "\n@ .avatar.fragment ");
        match fragment {
            Some(f) => {
                m.push('#');
                append_lit(&mut m, f.as_str());
            },
            None => append_lit(&mut m, "(none)"),
        }
        append_lit(&mut m, "\n@ .avatar.acl ");
        append_lit(&mut m, acl.as_str());
        append_lit(&mut m, "\n@ .avatar.shortcuts ");
        append_lit(&mut m, shortcuts.as_str());
        string_of(&m)
    }

    /// `language show`: the language order of the avatar `from`.
    pub fn avatar_language_show(&self, room_name: &str, from: &str) -> (r: String)
        requires
            self.wf(),
        ensures
            avatar_lookup_error(*self, room_name@, from@) is Some ==> r@ == avatar_lookup_error(*self, room_name@, from@)->Some_0,
            avatar_lookup_error(*self, room_name@, from@) is None ==>
                r@ == "@avatar language="@ + self.rooms@[room_name@].avatars@[from@].language_order@,
    {
        let rk = chars_of(room_name);
        let room = match self.rooms.get(&rk) {
            None => {
                return lookup_error(room_name, from, true);
            },
            Some(room) => room,
        };
        let a = match room.avatars.get(&chars_of(from)) {
            None => {
                return lookup_error(room_name, from, false);
            },
            Some(a) => a,
        };
        let mut m: Vec<char> = Vec::new();
        append_lit(&mut m, "@avatar language=");
        append_lit(&mut m, a.language_order.as_str());
        string_of(&m)
    }

    /// `language <list>`: sets the language order of the avatar `from` to the supported
    /// languages the list names.
    pub fn avatar_set_language(&mut self, room_name: &str, from: &str, value: &str) -> (r: String)
        requires
            old(self).wf(),
        ensures
            final(self).wf(),
            *final(self) == (World { rooms: final(self).rooms, ..*old(self) }),
            value@.len() == 0 ==> r@ == language_usage() && *final(self) == *old(self),
            value@.len() > 0 && collapse_strict_spec(value@) is None ==> r@ == language_rejected() && *final(self) == *old(self),
            value@.len() > 0 && collapse_strict_spec(value@) is Some && avatar_lookup_error(*old(self), room_name@, from@) is Some ==>
                r@ == avatar_lookup_error(*old(self), room_name@, from@)->Some_0 && *final(self) == *old(self),
            value@.len() > 0 && collapse_strict_spec(value@) is Some && avatar_lookup_error(*old(self), room_name@, from@) is None ==> {
                let o = old(self).rooms@[room_name@].avatars@[from@];
                let n = final(self).rooms@[room_name@].avatars@[from@];
                let l = collapse_strict_spec(value@)->Some_0;
                &&& only_avatar_changed(old(self).rooms@, final(self).rooms@, room_name@, from@)
                &&& n == (Avatar { language_order: n.language_order, ..o })
                &&& n.language_order@ == l
                &&& r@ == "@avatar language set to "@ + l
            },
    {
        if value.unicode_len() == 0 {
            return String::from_str("@avatar usage: language <ordered-list> (example: nb_NO; en_UK, en; nn_NO)");
        }
        let collapsed = match collapse_world_language_order_strict(value) {
            None => {
                let mut m: Vec<char> = Vec::new();
                append_lit(&mut m, "@avatar language rejected. supported=");
                let sup = supported_world_languages_text();
                append_lit(&mut m, sup.as_str());
                append_lit(&mut m, ". Set language here, or leave.");
                return string_of(&m);
            },
            Some(c) => c,
        };
        let c2 = collapsed.clone();
        match self.update_avatar_at(room_name, from, AvatarChange::Language(collapsed)) {
            None => lookup_error(room_name, from, !self.rooms.contains_key(&chars_of(room_name))),
            Some(_) => {
                let mut m: Vec<char> = Vec::new();
                append_lit(&mut m, "@avatar language set to ");
                append_lit(&mut m, c2.as_str());
                string_of(&m)
            },
        }
    }
}

/// `p` occurs in `s` at `i`.
pub open spec fn occurs_at(s: Seq<char>, p: Seq<char>, i: int) -> bool {
    0 <= i && i + p.len() <= s.len() && s.subrange(i, i + p.len()) == p
}

/// The first place from `i` on where `p` occurs in `s`.
pub open spec fn first_occurrence(s: Seq<char>, p: Seq<char>, i: int) -> Option<int>
    decreases s.len() + 1 - i,
{
    if i < 0 || i + p.len() > s.len() {
        None
    } else if occurs_at(s, p, i) {
        Some(i)
    } else {
        first_occurrence(s, p, i + 1)
    }
}

fn find_text(s: &Vec<char>, p: &Vec<char>) -> (r: Option<usize>)
    ensures
        match r {
            Some(i) => first_occurrence(s@, p@, 0) == Some(i as int),
            None => first_occurrence(s@, p@, 0) is None,
        },
{
    if p.len() > s.len() {
        return None;
    }
    let last = s.len() - p.len();
    let mut i: usize = 0;
    loop
        invariant
            p@.len() <= s@.len(),
            last == s@.len() - p@.len(),
            0 <= i <= last,
            first_occurrence(s@, p@, 0) == first_occurrence(s@, p@, i as int),
        decreases last - i,
    {
        let end: usize = s.len() - (last - i);
        assert(end == i + p@.len());
        let w = slice_chars(s, i, end);
        if crate::text::chars_eq(&w, p) {
            return Some(i);
        }
        proof {
            assert(!occurs_at(s@, p@, i as int));
            assert(first_occurrence(s@, p@, i as int) == first_occurrence(s@, p@, i + 1));
        }
        if i == last {
            proof {
                assert(first_occurrence(s@, p@, i + 1) is None);
            }
            return None;
        }
        i = i + 1;
    }
}

pub open spec fn use_usage() -> Seq<char> {
    "usage: use <object|did:ma:...#object> as @alias"@
}

/// The target and the alias of `use <target> as @alias`, both trimmed.
pub open spec fn use_args(rest: Seq<char>) -> Result<(Seq<char>, Seq<char>), Seq<char>> {
    match first_occurrence(rest, " as "@, 0) {
        None => Err(use_usage()),
        Some(i) => {
            let target = trim(rest.subrange(0, i));
            let alias = trim(rest.subrange(i + 4, rest.len() as int));
            if has_prefix(alias, "@"@) { Ok((target, alias)) } else { Err(use_usage()) }
        },
    }
}

/// Reads the arguments of `use`.
pub fn parse_use_args(rest: &str) -> (r: Result<(String, String), String>)
    ensures
        match r {
            Ok((t, a)) => use_args(rest@) == Ok::<(Seq<char>, Seq<char>), Seq<char>>((t@, a@)),
            Err(e) => use_args(rest@) == Err::<(Seq<char>, Seq<char>), Seq<char>>(e@),
        },
{
    let s = chars_of(rest);
    let sep = chars_of(" as ");
    proof {
        reveal_strlit(" as ");
    }
    match find_text(&s, &sep) {
        None => Err(String::from_str("usage: use <object|did:ma:...#object> as @alias")),
        Some(i) => {
            proof {
                assert(occurs_at(s@, sep@, i as int)) by {
                    reveal_with_fuel(first_occurrence, 2);
                    lemma_first_occurrence_found(s@, sep@, 0, i as int);
                }
            }
            let target = string_of(&trim_white(&slice_chars(&s, 0, i)));
            let alias = trim_white(&slice_chars(&s, i + 4, s.len()));
            if starts_with_lit(&alias, "@") {
                Ok((target, string_of(&alias)))
            } else {
                Err(String::from_str("usage: use <object|did:ma:...#object> as @alias"))
            }
        },
    }
}

proof fn lemma_first_occurrence_found(s: Seq<char>, p: Seq<char>, from: int, i: int)
    requires
        first_occurrence(s, p, from) == Some(i),
    ensures
        occurs_at(s, p, i),
    decreases s.len() + 1 - from,
{
    if from < 0 || from + p.len() > s.len() {
    } else if occurs_at(s, p, from) {
    } else {
        lemma_first_occurrence_found(s, p, from + 1, i);
    }
}

impl World {
    /// Binds `alias` to the object `object_id` (with DID `object_did`) for the avatar
    /// `from`, once the object was found in the room.
    pub fn avatar_bind_shortcut(&mut self, room_name: &str, from: &str, alias: &str, object_id: &str, object_did: &str) -> (r: String)
        requires
            old(self).wf(),
        ensures
            final(self).wf(),
            *final(self) == (World { rooms: final(self).rooms, ..*old(self) }),
            avatar_lookup_error(*old(self), room_name@, from@) is Some ==>
                r@ == avatar_lookup_error(*old(self), room_name@, from@)->Some_0 && *final(self) == *old(self),
            avatar_lookup_error(*old(self), room_name@, from@) is None ==> {
                let o = old(self).rooms@[room_name@].avatars@[from@];
                let n = final(self).rooms@[room_name@].avatars@[from@];
                &&& only_avatar_changed(old(self).rooms@, final(self).rooms@, room_name@, from@)
                &&& n == (Avatar { object_shortcuts: n.object_shortcuts, ..o })
                &&& normalize_shortcut(alias@) is None ==> n.object_shortcuts@ == o.object_shortcuts@
                    && r@ == "invalid alias '"@ + alias@ + "'. Use @alias with [A-Za-z0-9_-]."@
                &&& normalize_shortcut(alias@) matches Some(k) ==> {
                    &&& n.object_shortcuts@ == o.object_shortcuts@.insert(k, n.object_shortcuts@[k])
                    &&& n.object_shortcuts@[k]@ == trim(object_id@)
                    &&& exists|s: Seq<char>| shortcuts_summary(n.object_shortcuts, s)
                        && r@ == "bound "@ + alias@ + " -> "@ + object_did@ + " (object_id="@ + object_id@ + ") shortcuts=["@ + s + "]"@
                }
            },
    {
        match self.update_avatar_at(room_name, from, AvatarChange::Bind(String::from_str(alias), String::from_str(object_id))) {
            None => lookup_error(room_name, from, !self.rooms.contains_key(&chars_of(room_name))),
            Some(bound) => {
                let mut m: Vec<char> = Vec::new();
                if !bound {
                    append_lit(&mut m, "invalid alias '");
                    append_lit(&mut m, alias);
                    append_lit(&mut m, "'. Use @alias with [A-Za-z0-9_-].");
                    return string_of(&m);
                }
                let rk = chars_of(room_name);
                let room = self.rooms.get(&rk).unwrap();
                proof {
                    assert(room.wf());
                }
                let a = room.avatars.get(&chars_of(from)).unwrap();
                let summary = a.object_shortcuts_summary();
                append_lit(&mut m, "bound ");
                append_lit(&mut m, alias);
                append_lit(&mut m, " -> ");
                append_lit(&mut m, object_did);
                append_lit(&mut m, " (object_id=");
                append_lit(&mut m, object_id);
                append_lit(&mut m, ") shortcuts=[");
                append_lit(&mut m, summary.as_str());
                append_lit(&mut m, "]");
                string_of(&m)
            },
        }
    }
}

} // verus!
