//! The text commands a room answers itself: `ping`, `say`, `emote`, `l <did>` and
//! `id <token>`; the rest goes to the room actor.
use vstd::prelude::*;
use crate::text::{
    append_lit, chars_eq_ignore_case, chars_of, class_pred, eq_ignore_case, has_prefix, is_white,
    is_white_char, slice_chars, starts_with_lit, string_of, trim, trim_start_by, trim_start_class,
    trim_white, CharClass,
};
use crate::world::{any_room_has_did, unconfigured, world_did_text, World};

verus! {

/// A room command, by the word it starts with.
#[derive(Debug)]
pub enum RoomCommandText {
    Ping,
    /// What follows `say`, trimmed (not yet normalized).
    Say(String),
    /// What follows `emote`, trimmed (not yet normalized).
    Emote(String),
    /// The DID after `l `, trimmed.
    Look(String),
    /// The token after `id `, trimmed and without leading `@`.
    Id(String),
    /// Anything else: for the room actor.
    Actor,
}

/// `s` starts with the word `w`: `w` followed by nothing or by whitespace.
pub open spec fn starts_word(s: Seq<char>, w: Seq<char>) -> bool {
    has_prefix(s, w) && (s.len() == w.len() || is_white(s[w.len() as int]))
}

pub open spec fn after(s: Seq<char>, n: int) -> Seq<char> {
    s.subrange(n, s.len() as int)
}

/// How a room reads `command`.
pub open spec fn room_command_text(command: Seq<char>, r: RoomCommandText) -> bool {
    let t = trim(command);
    if eq_ignore_case(t, "ping"@) || eq_ignore_case(t, "ping?"@) {
        r is Ping
    } else if starts_word(t, "say"@) {
        r matches RoomCommandText::Say(x) && x@ == trim(after(t, 3))
    } else if starts_word(t, "emote"@) {
        r matches RoomCommandText::Emote(x) && x@ == trim(after(t, 5))
    } else if has_prefix(t, "l "@) {
        r matches RoomCommandText::Look(x) && x@ == trim(after(t, 2))
    } else if has_prefix(t, "id "@) {
        r matches RoomCommandText::Id(x) && x@ == trim_start_by(trim(after(t, 3)), class_pred(CharClass::Is('@')))
    } else {
        r is Actor
    }
}

fn starts_word_exec(t: &Vec<char>, w: &str) -> (r: bool)
    ensures
        r == starts_word(t@, w@),
{
    if !starts_with_lit(t, w) {
        return false;
    }
    let n = w.unicode_len();
    n == t.len() || is_white_char(t[n])
}

/// The room's command words, as a trimmed command begins with them followed by a blank,
/// are none of the commands read before them.
proof fn lemma_room_words(t: Seq<char>)
    ensures
        has_prefix(t, "say "@) ==> {
            &&& starts_word(t, "say"@)
            &&& !eq_ignore_case(t, "ping"@)
            &&& !eq_ignore_case(t, "ping?"@)
        },
        has_prefix(t, "emote "@) ==> {
            &&& starts_word(t, "emote"@)
            &&& !eq_ignore_case(t, "ping"@)
            &&& !eq_ignore_case(t, "ping?"@)
            &&& !starts_word(t, "say"@)
        },
        has_prefix(t, "l "@) ==> {
            &&& t.len() >= 2
            &&& !eq_ignore_case(t, "ping"@)
            &&& !eq_ignore_case(t, "ping?"@)
            &&& !starts_word(t, "say"@)
            &&& !starts_word(t, "emote"@)
        },
        has_prefix(t, "id "@) ==> {
            &&& t.len() >= 3
            &&& !eq_ignore_case(t, "ping"@)
            &&& !eq_ignore_case(t, "ping?"@)
            &&& !starts_word(t, "say"@)
            &&& !starts_word(t, "emote"@)
            &&& !has_prefix(t, "l "@)
        },
{
    reveal_strlit("say ");
    reveal_strlit("say");
    reveal_strlit("emote ");
    reveal_strlit("emote");
    reveal_strlit("l ");
    reveal_strlit("id ");
    reveal_strlit("ping");
    reveal_strlit("ping?");
    if has_prefix(t, "say "@) {
        let head = t.subrange(0, 4);
        assert(head == "say "@);
        assert(t.subrange(0, 3) =~= "say"@) by {
            assert forall|i: int| 0 <= i < 3 implies t.subrange(0, 3)[i] == "say"@[i] by {
                assert(t.subrange(0, 3)[i] == head[i]);
            }
        }
        assert(t[3] == head[3]);
        assert(t[3] == ' ');
        assert(is_white(' ')) by {
            assert((' ' as u32) == 32);
        }
        crate::text::lemma_prefix_excludes_ignoring_case(t, "say "@, "ping"@, 0);
        crate::text::lemma_prefix_excludes_ignoring_case(t, "say "@, "ping?"@, 0);
    }
    if has_prefix(t, "emote "@) {
        let head = t.subrange(0, 6);
        assert(head == "emote "@);
        assert(t.subrange(0, 5) =~= "emote"@) by {
            assert forall|i: int| 0 <= i < 5 implies t.subrange(0, 5)[i] == "emote"@[i] by {
                assert(t.subrange(0, 5)[i] == head[i]);
            }
        }
        assert(t[5] == head[5]);
        assert(t[5] == ' ');
        assert(is_white(' ')) by {
            assert((' ' as u32) == 32);
        }
        crate::text::lemma_prefix_excludes_ignoring_case(t, "emote "@, "ping"@, 0);
        crate::text::lemma_prefix_excludes_ignoring_case(t, "emote "@, "ping?"@, 0);
        crate::text::lemma_prefix_excludes(t, "emote "@, "say"@, 0);
    }
    if has_prefix(t, "l "@) {
        crate::text::lemma_prefix_excludes_ignoring_case(t, "l "@, "ping"@, 0);
        crate::text::lemma_prefix_excludes_ignoring_case(t, "l "@, "ping?"@, 0);
        crate::text::lemma_prefix_excludes(t, "l "@, "say"@, 0);
        crate::text::lemma_prefix_excludes(t, "l "@, "emote"@, 0);
    }
    if has_prefix(t, "id "@) {
        crate::text::lemma_prefix_excludes_ignoring_case(t, "id "@, "ping"@, 0);
        crate::text::lemma_prefix_excludes_ignoring_case(t, "id "@, "ping?"@, 0);
        crate::text::lemma_prefix_excludes(t, "id "@, "say"@, 0);
        crate::text::lemma_prefix_excludes(t, "id "@, "emote"@, 0);
        crate::text::lemma_prefix_excludes(t, "id "@, "l "@, 0);
    }
}

/// Reads a room command.
pub fn parse_room_command_text(command: &str) -> (r: RoomCommandText)
    ensures
        room_command_text(command@, r),
        ({
            let t = trim(command@);
            &&& (eq_ignore_case(t, "ping"@) || eq_ignore_case(t, "ping?"@)) ==> r is Ping
            &&& has_prefix(t, "say "@) ==> (r matches RoomCommandText::Say(x) && x@ == trim(t.subrange(3, t.len() as int)))
            &&& has_prefix(t, "emote "@) ==> (r matches RoomCommandText::Emote(x)
                && x@ == trim(t.subrange(5, t.len() as int)))
            &&& has_prefix(t, "l "@) ==> (r matches RoomCommandText::Look(x) && x@ == trim(t.subrange(2, t.len() as int)))
            &&& has_prefix(t, "id "@) ==> (r matches RoomCommandText::Id(x)
                && x@ == trim_start_by(trim(t.subrange(3, t.len() as int)), class_pred(CharClass::Is('@'))))
        }),
{
    proof {
        lemma_room_words(trim(command@));
    }
    let t = trim_white(&chars_of(command));
    proof {
        reveal_strlit("say");
        reveal_strlit("emote");
        reveal_strlit("l ");
        reveal_strlit("id ");
    }
    if chars_eq_ignore_case(&t, &chars_of("ping")) || chars_eq_ignore_case(&t, &chars_of("ping?")) {
        return RoomCommandText::Ping;
    }
    if starts_word_exec(&t, "say") {
        let rest = trim_white(&slice_chars(&t, 3, t.len()));
        return RoomCommandText::Say(string_of(&rest));
    }
    if starts_word_exec(&t, "emote") {
        let rest = trim_white(&slice_chars(&t, 5, t.len()));
        return RoomCommandText::Emote(string_of(&rest));
    }
    if starts_with_lit(&t, "l ") {
        let rest = trim_white(&slice_chars(&t, 2, t.len()));
        return RoomCommandText::Look(string_of(&rest));
    }
    if starts_with_lit(&t, "id ") {
        let rest = trim_white(&slice_chars(&t, 3, t.len()));
        let tok = trim_start_class(&rest, &CharClass::Is('@'));
        return RoomCommandText::Id(string_of(&tok));
    }
    RoomCommandText::Actor
}

pub open spec fn id_usage() -> Seq<char> {
    "@here usage: @here id <thing|avatar|room|me>"@
}

/// The reply to `id <token>` in `room_name`, where `object_id` is the object of the room
/// that `token` names, if any.
pub open spec fn id_reply(
    w: World,
    room_name: Seq<char>,
    token: Seq<char>,
    from: Seq<char>,
    caller_did: Option<Seq<char>>,
    object_id: Option<Seq<char>>,
) -> Seq<char> {
    let exists = w.rooms@.dom().contains(room_name);
    if token.len() == 0 {
        id_usage()
    } else if eq_ignore_case(token, "here"@) || eq_ignore_case(token, "room"@) {
        if exists {
            "did="@ + w.rooms@[room_name].url@ + " source=room room="@ + room_name
        } else {
            "@here room DID unavailable"@
        }
    } else if eq_ignore_case(token, "me"@) || eq_ignore_case(token, "avatar"@) {
        match caller_did {
            Some(root) => "did="@ + root + " source=caller handle="@ + from,
            None => "@here caller DID unavailable"@,
        }
    } else if object_id is Some {
        let ipns = match w.world_ipns { Some(i) => i@, None => unconfigured() };
        "did="@ + world_did_text(ipns, object_id->Some_0) + " source=object room="@ + room_name + " object_id="@
            + object_id->Some_0 + " token="@ + token
    } else if exists && w.rooms@[room_name].avatars@.dom().contains(token) {
        "did="@ + w.rooms@[room_name].avatars@[token].agent_did@ + " source=avatar handle="@ + token
    } else {
        "@here id '"@ + token + "' not found"@
    }
}

pub open spec fn look_usage() -> Seq<char> {
    "@here usage: l <did:ma:...[#fragment]>"@
}

impl World {
    /// Answers `id <token>`.
    pub fn room_id_reply(
        &self,
        room_name: &str,
        token: &str,
        from: &str,
        caller_did: &Option<String>,
        object_id: &Option<String>,
    ) -> (r: String)
        requires
            self.wf(),
        ensures
            r@ == id_reply(*self, room_name@, token@, from@, match caller_did {
                Some(c) => Some(c@),
                None => None,
            }, match object_id {
                Some(o) => Some(o@),
                None => None,
            }),
    {
        if token.unicode_len() == 0 {
            return String::from_str("@here usage: @here id <thing|avatar|room|me>");
        }
        let tk = chars_of(token);
        let rk = chars_of(room_name);
        if chars_eq_ignore_case(&tk, &chars_of("here")) || chars_eq_ignore_case(&tk, &chars_of("room")) {
            return match self.rooms.get(&rk) {
                Some(room) => {
                    let mut v: Vec<char> = Vec::new();
                    append_lit(&mut v, "did=");
                    append_lit(&mut v, room.url.as_str());
                    append_lit(&mut v, " source=room room=");
                    append_lit(&mut v, room_name);
                    string_of(&v)
                },
                None => String::from_str("@here room DID unavailable"),
            };
        }
        if chars_eq_ignore_case(&tk, &chars_of("me")) || chars_eq_ignore_case(&tk, &chars_of("avatar")) {
            return match caller_did {
                Some(root) => {
                    let mut v: Vec<char> = Vec::new();
                    append_lit(&mut v, "did=");
                    append_lit(&mut v, root.as_str());
                    append_lit(&mut v, " source=caller handle=");
                    append_lit(&mut v, from);
                    string_of(&v)
                },
                None => String::from_str("@here caller DID unavailable"),
            };
        }
        match object_id {
            Some(oid) => {
                let mut v: Vec<char> = Vec::new();
                append_lit(&mut v, "did=");
                let did = self.build_room_did(oid.as_str());
                append_lit(&mut v, did.as_str());
                append_lit(&mut v, " source=object room=");
                append_lit(&mut v, room_name);
                append_lit(&mut v, " object_id=");
                append_lit(&mut v, oid.as_str());
                append_lit(&mut v, " token=");
                append_lit(&mut v, token);
                return string_of(&v);
            },
            None => {},
        }
        match self.rooms.get(&rk) {
            Some(room) => {
                proof {
                    assert(room.wf());
                }
                match room.avatars.get(&tk) {
                    Some(a) => {
                        let mut v: Vec<char> = Vec::new();
                        append_lit(&mut v, "did=");
                        append_lit(&mut v, a.agent_did.as_str());
                        append_lit(&mut v, " source=avatar handle=");
                        append_lit(&mut v, token);
                        return string_of(&v);
                    },
                    None => {},
                }
            },
            None => {},
        }
        let mut v: Vec<char> = Vec::new();
        append_lit(&mut v, "@here id '");
        append_lit(&mut v, token);
        append_lit(&mut v, "' not found");
        string_of(&v)
    }

    /// Answers `l <did>`: `parsed` is the canonical id of the DID, or why it did not
    /// parse; `fallback` is the description known of the DID elsewhere, if any.
    pub fn room_look_reply(&self, did_raw: &str, parsed: Result<String, String>, fallback: Option<String>) -> (r: String)
        requires
            self.wf(),
        ensures
            did_raw@.len() == 0 ==> r@ == look_usage(),
            did_raw@.len() > 0 ==> match parsed {
                Err(e) => r@ == "@here invalid DID '"@ + did_raw@ + "': "@ + e@,
                Ok(id) => if any_room_has_did(self.rooms@, id@) {
                    exists|room: Seq<char>| #[trigger] self.rooms@.dom().contains(room) && self.rooms@[room].has_did(id@) && {
                        let a = self.rooms@[room].avatars@[crate::world::handle_of(self.rooms@[room], id@)];
                        &&& a.descriptions@.dom().contains(crate::avatar::und()) ==> r == a.descriptions@[crate::avatar::und()]
                        &&& !a.descriptions@.dom().contains(crate::avatar::und()) ==> r@ == crate::avatar::unset_text()
                    }
                } else {
                    match fallback {
                        Some(d) => r == d,
                        None => r@ == "@here no avatar found for "@ + id@,
                    }
                },
            },
    {
        if did_raw.unicode_len() == 0 {
            return String::from_str("@here usage: l <did:ma:...[#fragment]>");
        }
        match parsed {
            Err(e) => {
                let mut v: Vec<char> = Vec::new();
                append_lit(&mut v, "@here invalid DID '");
                append_lit(&mut v, did_raw);
                append_lit(&mut v, "': ");
                append_lit(&mut v, e.as_str());
                string_of(&v)
            },
            Ok(id) => match self.find_avatar_presence_by_did(id.as_str()) {
                Some(t) => t.4,
                None => match fallback {
                    Some(d) => d,
                    None => {
                        let mut v: Vec<char> = Vec::new();
                        append_lit(&mut v, "@here no avatar found for ");
                        append_lit(&mut v, id.as_str());
                        string_of(&v)
                    },
                },
            },
        }
    }
}

} // verus!
