//! The `@world` command line: how it splits into a method and its argument, and the
//! replies of the methods that only read the world.
use vstd::prelude::*;
use crate::avatar::und;
use crate::lang::{catalogs_wf, tr_spec, tr_world};
use crate::room::{default_room_title_spec, Room};
use crate::text::{
    after_first, append_chars, append_lit, before_first, chars_eq_ignore_case, chars_of, class_pred,
    eq_ignore_case, join, lower_chars, lower_seq, sort_chars, sorted_lex, split_first, string_of, trim,
    trim_white, views, CharClass,
};
use crate::text_map::TextMap;
use crate::world::World;

verus! {

/// An `@world` command, split as the world reads it.
#[derive(Debug)]
pub enum WorldCommandText {
    /// `help`, in any case.
    Help,
    /// Nothing but blanks.
    Summary,
    /// The first word, in lower case, and the rest, trimmed.
    Method { method: String, arg: String },
}

/// The method word of a command: its first word (up to the first blank), in lower case.
pub open spec fn method_of(command: Seq<char>) -> Seq<char> {
    lower_seq(before_first(trim(command), class_pred(CharClass::White)))
}

/// The argument of a command: what follows the first blank, trimmed.
pub open spec fn arg_of(command: Seq<char>) -> Seq<char> {
    trim(after_first(trim(command), class_pred(CharClass::White)))
}

/// Splits an `@world` command into help, the summary request, or a method and its argument.
pub fn parse_world_command_text(command: &str) -> (r: WorldCommandText)
    ensures
        eq_ignore_case(trim(command@), "help"@) ==> r is Help,
        !eq_ignore_case(trim(command@), "help"@) && trim(command@).len() == 0 ==> r is Summary,
        !eq_ignore_case(trim(command@), "help"@) && trim(command@).len() > 0 ==> (r matches WorldCommandText::Method { method, arg }
            && method@ == method_of(command@) && arg@ == arg_of(command@)),
{
    let n = trim_white(&chars_of(command));
    let help = chars_of("help");
    if chars_eq_ignore_case(&n, &help) {
        return WorldCommandText::Help;
    }
    if n.len() == 0 {
        return WorldCommandText::Summary;
    }
    let (first, rest, _) = split_first(&n, &CharClass::White);
    let method = string_of(&lower_chars(&first));
    let arg = string_of(&trim_white(&rest));
    WorldCommandText::Method { method, arg }
}

pub open spec fn world_help_fallback() -> Seq<char> {
    "@world commands: help | ping [room] | list | claim | broadcast <message> | knock list [all] | knock accept <id> | knock reject <id> [note] | knock delete <id> | invite <did> [note] | room <name> acl show|open|close|allow <did>|deny <did> | room <name> owner <did> | flush [knock|all] | migrate-index | save | load <cid> | dig <direction> [to|til <#dest|did>] | bury <direction>"@
}

/// The command overview, in the language `lang` where the catalogs have it.
pub fn world_help(catalogs: &TextMap<TextMap<String>>, lang: &str) -> (r: String)
    requires
        catalogs_wf(*catalogs),
    ensures
        r@ == tr_spec(catalogs@, lang@, "world.help.commands"@, world_help_fallback()),
{
    tr_world(
        catalogs,
        lang,
        "world.help.commands",
        "@world commands: help | ping [room] | list | claim | broadcast <message> | knock list [all] | knock accept <id> | knock reject <id> [note] | knock delete <id> | invite <did> [note] | room <name> acl show|open|close|allow <did>|deny <did> | room <name> owner <did> | flush [knock|all] | migrate-index | save | load <cid> | dig <direction> [to|til <#dest|did>] | bury <direction>",
    )
}

/// The reply to `@world.broadcast <message>` in room `room_name`.
pub fn world_broadcast_reply(room_name: &str, arg: &str) -> (r: String)
    ensures
        arg@.len() == 0 ==> r@ == "usage: @world.broadcast <message>"@,
        arg@.len() > 0 ==> r@ == "broadcast sent to room '"@ + room_name@ + "'"@,
{
    if arg.unicode_len() == 0 {
        return String::from_str("usage: @world.broadcast <message>");
    }
    let mut v: Vec<char> = Vec::new();
    append_lit(&mut v, "broadcast sent to room '");
    append_lit(&mut v, room_name);
    append_lit(&mut v, "'");
    string_of(&v)
}

/// A room's title: its language-neutral title where that is not blank, else the default.
pub open spec fn room_title_text(r: Room) -> Seq<char> {
    if r.titles@.dom().contains(und()) && trim(r.titles@[und()]@).len() > 0 {
        r.titles@[und()]@
    } else {
        default_room_title_spec(r.name@)
    }
}

pub open spec fn list_row(rooms: Map<Seq<char>, Room>, id: Seq<char>) -> Seq<char> {
    id + " => "@ + room_title_text(rooms[id])
}

pub open spec fn list_rows(rooms: Map<Seq<char>, Room>, ids: Seq<Seq<char>>) -> Seq<Seq<char>> {
    ids.map_values(|id: Seq<char>| list_row(rooms, id))
}

impl World {
    /// The reply to `@world.list`: each room as `id => title`, one per line in id order,
    /// after `objects:`; when there are no rooms, the localized `(none)` line.
    pub fn world_list(&self, catalogs: &TextMap<TextMap<String>>, lang: &str) -> (r: String)
        requires
            self.wf(),
            catalogs_wf(*catalogs),
        ensures
            self.rooms@.len() == 0 ==> r@ == tr_spec(catalogs@, lang@, "world.list.empty"@, "@world objects: (none)"@),
            self.rooms@.len() > 0 ==> exists|ids: Seq<Seq<char>>| {
                &&& sorted_lex(ids)
                &&& ids.to_multiset() == self.rooms.key_seq().to_multiset()
                &&& r@ == "objects:\n"@ + join(list_rows(self.rooms@, ids), "\n"@)
            },
    {
        let names = self.room_names();
        proof {
            crate::text_map::lemma_map_of_len(self.rooms.entries@);
            assert(crate::text::strs(names@).len() == names@.len());
            assert(self.rooms.key_seq().len() == self.rooms.entries@.len());
        }
        if names.len() == 0 {
            return tr_world(catalogs, lang, "world.list.empty", "@world objects: (none)");
        }
        let mut parts: Vec<Vec<char>> = Vec::new();
        let mut i: usize = 0;
        while i < names.len()
            invariant
                0 <= i <= names@.len(),
                views(parts@) == crate::text::strs(names@).subrange(0, i as int),
            decreases names.len() - i,
        {
            let ghost before = views(parts@);
            parts.push(chars_of(names[i].as_str()));
            proof {
                assert(views(parts@) =~= before.push(crate::text::strs(names@)[i as int]));
                assert(crate::text::strs(names@).subrange(0, i + 1) =~= crate::text::strs(names@).subrange(0, i as int).push(crate::text::strs(names@)[i as int]));
            }
            i = i + 1;
        }
        assert(crate::text::strs(names@).subrange(0, names@.len() as int) =~= crate::text::strs(names@));
        let sorted = sort_chars(parts);
        let ghost ids = views(sorted@);
        let mut rows: Vec<Vec<char>> = Vec::new();
        let mut j: usize = 0;
        while j < sorted.len()
            invariant
                self.wf(),
                ids == views(sorted@),
                ids.to_multiset() == self.rooms.key_seq().to_multiset(),
                0 <= j <= sorted@.len(),
                views(rows@) == list_rows(self.rooms@, ids.subrange(0, j as int)),
            decreases sorted.len() - j,
        {
            let id = &sorted[j];
            proof {
                assert(ids.contains(id@)) by {
                    assert(ids[j as int] == id@);
                }
                vstd::seq_lib::to_multiset_contains(ids, id@);
                vstd::seq_lib::to_multiset_contains(self.rooms.key_seq(), id@);
                crate::text_map::lemma_wf_dom(self.rooms);
                let k = choose|k: int| 0 <= k < self.rooms.key_seq().len() && self.rooms.key_seq()[k] == id@;
                crate::text_map::lemma_wf_index(self.rooms, k);
            }
            let room = self.rooms.get(id).unwrap();
            let title = room.title_or_default();
            let mut line: Vec<char> = Vec::new();
            append_chars(&mut line, id);
            append_lit(&mut line, " => ");
            append_lit(&mut line, title.as_str());
            let ghost before = views(rows@);
            rows.push(line);
            proof {
                assert(views(rows@) =~= before.push(list_row(self.rooms@, id@)));
                assert(list_rows(self.rooms@, ids.subrange(0, j + 1)) =~= list_rows(self.rooms@, ids.subrange(0, j as int)).push(list_row(self.rooms@, id@)));
            }
            j = j + 1;
        }
        assert(ids.subrange(0, ids.len() as int) =~= ids);
        let joined = crate::text::join_chars(&rows, "\n");
        let mut out: Vec<char> = Vec::new();
        append_lit(&mut out, "objects:\n");
        append_chars(&mut out, &joined);
        proof {
            assert(out@ =~= "objects:\n"@ + join(list_rows(self.rooms@, ids), "\n"@));
        }
        string_of(&out)
    }
}

/// Where an `@world` command goes, once the world has read it. The property forms
/// (`owner`, `lang`, `avatars...` as ma's property syntax writes them) are read before.
#[derive(Debug)]
pub enum WorldRoute {
    Help,
    Summary,
    Broadcast(String),
    /// The command names a value of the public inspection tree.
    Inspect(String),
    List,
    Ping(String),
    Claim,
    /// The method is for the world owner only, and the caller is not the owner.
    OwnerRequired,
    Knock(String),
    Invite(String),
    Flush(String),
    MigrateIndex,
    Publish,
    Save,
    Load(String),
    Dig(String),
    Room(String),
    Unknown(String),
}

pub open spec fn has_white(s: Seq<char>) -> bool {
    exists|i: int| 0 <= i < s.len() && crate::text::is_white(#[trigger] s[i])
}

/// The route of an owner-only method (for the owner).
pub open spec fn owner_route(m: Seq<char>, a: Seq<char>, n: Seq<char>, r: WorldRoute) -> bool {
    if m == "knock"@ {
        r matches WorldRoute::Knock(x) && x@ == a
    } else if m == "invite"@ {
        r matches WorldRoute::Invite(x) && x@ == a
    } else if m == "flush"@ {
        r matches WorldRoute::Flush(x) && x@ == a
    } else if m == "migrate-index"@ {
        r is MigrateIndex
    } else if m == "publish"@ {
        r is Publish
    } else if m == "save"@ {
        r is Save
    } else if m == "load"@ {
        r matches WorldRoute::Load(x) && x@ == a
    } else if m == "dig"@ {
        r matches WorldRoute::Dig(x) && x@ == a
    } else if m == "room"@ {
        r matches WorldRoute::Room(x) && x@ == a
    } else {
        r matches WorldRoute::Unknown(x) && x@ == n
    }
}

/// The owner's method words differ from one another and from the words anyone may send.
proof fn lemma_method_words_distinct()
    ensures
        "knock"@ != "invite"@,
        "knock"@ != "flush"@,
        "knock"@ != "migrate-index"@,
        "knock"@ != "publish"@,
        "knock"@ != "save"@,
        "knock"@ != "load"@,
        "knock"@ != "dig"@,
        "knock"@ != "room"@,
        "knock"@ != "broadcast"@,
        "knock"@ != "list"@,
        "knock"@ != "ping"@,
        "knock"@ != "claim"@,
        "invite"@ != "flush"@,
        "invite"@ != "migrate-index"@,
        "invite"@ != "publish"@,
        "invite"@ != "save"@,
        "invite"@ != "load"@,
        "invite"@ != "dig"@,
        "invite"@ != "room"@,
        "invite"@ != "broadcast"@,
        "invite"@ != "list"@,
        "invite"@ != "ping"@,
        "invite"@ != "claim"@,
        "flush"@ != "migrate-index"@,
        "flush"@ != "publish"@,
        "flush"@ != "save"@,
        "flush"@ != "load"@,
        "flush"@ != "dig"@,
        "flush"@ != "room"@,
        "flush"@ != "broadcast"@,
        "flush"@ != "list"@,
        "flush"@ != "ping"@,
        "flush"@ != "claim"@,
        "migrate-index"@ != "publish"@,
        "migrate-index"@ != "save"@,
        "migrate-index"@ != "load"@,
        "migrate-index"@ != "dig"@,
        "migrate-index"@ != "room"@,
        "migrate-index"@ != "broadcast"@,
        "migrate-index"@ != "list"@,
        "migrate-index"@ != "ping"@,
        "migrate-index"@ != "claim"@,
        "publish"@ != "save"@,
        "publish"@ != "load"@,
        "publish"@ != "dig"@,
        "publish"@ != "room"@,
        "publish"@ != "broadcast"@,
        "publish"@ != "list"@,
        "publish"@ != "ping"@,
        "publish"@ != "claim"@,
        "save"@ != "load"@,
        "save"@ != "dig"@,
        "save"@ != "room"@,
        "save"@ != "broadcast"@,
        "save"@ != "list"@,
        "save"@ != "ping"@,
        "save"@ != "claim"@,
        "load"@ != "dig"@,
        "load"@ != "room"@,
        "load"@ != "broadcast"@,
        "load"@ != "list"@,
        "load"@ != "ping"@,
        "load"@ != "claim"@,
        "dig"@ != "room"@,
        "dig"@ != "broadcast"@,
        "dig"@ != "list"@,
        "dig"@ != "ping"@,
        "dig"@ != "claim"@,
        "room"@ != "broadcast"@,
        "room"@ != "list"@,
        "room"@ != "ping"@,
        "room"@ != "claim"@,
{
    reveal_strlit("knock");
    reveal_strlit("invite");
    reveal_strlit("flush");
    reveal_strlit("migrate-index");
    reveal_strlit("publish");
    reveal_strlit("save");
    reveal_strlit("load");
    reveal_strlit("dig");
    reveal_strlit("room");
    reveal_strlit("broadcast");
    reveal_strlit("list");
    reveal_strlit("ping");
    reveal_strlit("claim");
    assert("knock"@.len() == 5);
    assert("invite"@.len() == 6);
    assert("flush"@.len() == 5);
    assert("migrate-index"@.len() == 13);
    assert("publish"@.len() == 7);
    assert("save"@.len() == 4);
    assert("load"@.len() == 4);
    assert("dig"@.len() == 3);
    assert("room"@.len() == 4);
    assert("broadcast"@.len() == 9);
    assert("list"@.len() == 4);
    assert("ping"@.len() == 4);
    assert("claim"@.len() == 5);
    assert("knock"@[0] != "flush"@[0]);
    assert("knock"@[0] != "claim"@[0]);
    assert("flush"@[0] != "claim"@[0]);
    assert("save"@[0] != "load"@[0]);
    assert("save"@[0] != "room"@[0]);
    assert("save"@[0] != "list"@[0]);
    assert("save"@[0] != "ping"@[0]);
    assert("load"@[0] != "room"@[0]);
    assert("load"@[1] != "list"@[1]);
    assert("load"@[0] != "ping"@[0]);
    assert("room"@[0] != "list"@[0]);
    assert("room"@[0] != "ping"@[0]);
}

/// Each owner method word routes to its own variant, carrying the argument where the
/// method takes one, and none of them is answered as an unknown command.
pub proof fn law_owner_words_route_to_their_variant(m: Seq<char>, a: Seq<char>, n: Seq<char>, r: WorldRoute)
    requires
        owner_route(m, a, n, r),
    ensures
        m == "knock"@ ==> (r matches WorldRoute::Knock(x) && x@ == a),
        m == "invite"@ ==> (r matches WorldRoute::Invite(x) && x@ == a),
        m == "flush"@ ==> (r matches WorldRoute::Flush(x) && x@ == a),
        m == "migrate-index"@ ==> r is MigrateIndex,
        m == "publish"@ ==> r is Publish,
        m == "save"@ ==> r is Save,
        m == "load"@ ==> (r matches WorldRoute::Load(x) && x@ == a),
        m == "dig"@ ==> (r matches WorldRoute::Dig(x) && x@ == a),
        m == "room"@ ==> (r matches WorldRoute::Room(x) && x@ == a),
        (m == "knock"@ || m == "invite"@ || m == "flush"@ || m == "migrate-index"@ || m == "publish"@
            || m == "save"@ || m == "load"@ || m == "dig"@ || m == "room"@) ==> !(r is Unknown),
{
    lemma_method_words_distinct();
}

fn owner_route_exec(m: &String, a: String, n: &Vec<char>) -> (r: WorldRoute)
    ensures
        owner_route(m@, a@, n@, r),
        m@ == "knock"@ ==> (r matches WorldRoute::Knock(x) && x@ == a@),
        m@ == "invite"@ ==> (r matches WorldRoute::Invite(x) && x@ == a@),
        m@ == "flush"@ ==> (r matches WorldRoute::Flush(x) && x@ == a@),
        m@ == "migrate-index"@ ==> r is MigrateIndex,
        m@ == "publish"@ ==> r is Publish,
        m@ == "save"@ ==> r is Save,
        m@ == "load"@ ==> (r matches WorldRoute::Load(x) && x@ == a@),
        m@ == "dig"@ ==> (r matches WorldRoute::Dig(x) && x@ == a@),
        m@ == "room"@ ==> (r matches WorldRoute::Room(x) && x@ == a@),
{
    proof {
        lemma_method_words_distinct();
    }
    let ms = m.as_str();
    if crate::text::str_eq(ms, "knock") {
        WorldRoute::Knock(a)
    } else if crate::text::str_eq(ms, "invite") {
        WorldRoute::Invite(a)
    } else if crate::text::str_eq(ms, "flush") {
        WorldRoute::Flush(a)
    } else if crate::text::str_eq(ms, "migrate-index") {
        WorldRoute::MigrateIndex
    } else if crate::text::str_eq(ms, "publish") {
        WorldRoute::Publish
    } else if crate::text::str_eq(ms, "save") {
        WorldRoute::Save
    } else if crate::text::str_eq(ms, "load") {
        WorldRoute::Load(a)
    } else if crate::text::str_eq(ms, "dig") {
        WorldRoute::Dig(a)
    } else if crate::text::str_eq(ms, "room") {
        WorldRoute::Room(a)
    } else {
        WorldRoute::Unknown(string_of(n))
    }
}

impl World {
    /// Decides where the `@world` command `command` of the caller (root DID
    /// `caller_base`, DID `caller_did`) goes: help, the summary, a broadcast, a value of the
    /// inspection tree (a single word that names one), the list, a ping or a claim, which
    /// anyone may send; every other method only the world owner (or a registered avatar of
    /// the owner) may send. `tree` is the world's public inspection tree.
    pub fn route_world_command(&self, command: &str, caller_base: &str, caller_did: &str, tree: &crate::inspect::InspectValue) -> (r: WorldRoute)
        requires
            self.wf(),
            crate::inspect::world_tree(*self, *tree),
        ensures
            ({
                let n = trim(command@);
                let m = method_of(command@);
                let a = arg_of(command@);
                if eq_ignore_case(n, "help"@) {
                    r is Help
                } else if n.len() == 0 {
                    r is Summary
                } else if m == "broadcast"@ {
                    r matches WorldRoute::Broadcast(x) && x@ == a
                } else if !has_white(n) && crate::inspect::resolve_path_spec(*tree, n) is Some {
                    r matches WorldRoute::Inspect(x) && x@ == n
                } else if m == "list"@ {
                    r is List
                } else if m == "ping"@ {
                    r matches WorldRoute::Ping(x) && x@ == a
                } else if m == "claim"@ {
                    r is Claim
                } else if !crate::registry::world_owner_caller(*self, caller_base@, caller_did@) {
                    r is OwnerRequired
                } else {
                    owner_route(m, a, n, r)
                }
            }),
            ({
                let n = trim(command@);
                let m = method_of(command@);
                let a = arg_of(command@);
                (!eq_ignore_case(n, "help"@) && n.len() > 0 && !(!has_white(n)
                    && crate::inspect::resolve_path_spec(*tree, n) is Some)
                    && crate::registry::world_owner_caller(*self, caller_base@, caller_did@)) ==> {
                    &&& m == "knock"@ ==> (r matches WorldRoute::Knock(x) && x@ == a)
                    &&& m == "invite"@ ==> (r matches WorldRoute::Invite(x) && x@ == a)
                    &&& m == "flush"@ ==> (r matches WorldRoute::Flush(x) && x@ == a)
                    &&& m == "migrate-index"@ ==> r is MigrateIndex
                    &&& m == "publish"@ ==> r is Publish
                    &&& m == "save"@ ==> r is Save
                    &&& m == "load"@ ==> (r matches WorldRoute::Load(x) && x@ == a)
                    &&& m == "dig"@ ==> (r matches WorldRoute::Dig(x) && x@ == a)
                    &&& m == "room"@ ==> (r matches WorldRoute::Room(x) && x@ == a)
                }
            }),
    {
        proof {
            lemma_method_words_distinct();
        }
        let n = trim_white(&chars_of(command));
        let help = chars_of("help");
        if chars_eq_ignore_case(&n, &help) {
            return WorldRoute::Help;
        }
        if n.len() == 0 {
            return WorldRoute::Summary;
        }
        let (first, rest, _) = split_first(&n, &CharClass::White);
        let method = string_of(&lower_chars(&first));
        let arg = string_of(&trim_white(&rest));
        let ms = method.as_str();
        if crate::text::str_eq(ms, "broadcast") {
            return WorldRoute::Broadcast(arg);
        }
        let w = crate::text::find_class(&n, 0, &CharClass::White);
        proof {
            crate::text::lemma_find_from_bounds(n@, 0, class_pred(CharClass::White));
        }
        if w == n.len() {
            let ns = string_of(&n);
            if crate::inspect::resolve_public_inspect_path(tree, ns.as_str()).is_some() {
                return WorldRoute::Inspect(ns);
            }
        }
        if crate::text::str_eq(ms, "list") {
            return WorldRoute::List;
        }
        if crate::text::str_eq(ms, "ping") {
            return WorldRoute::Ping(arg);
        }
        if crate::text::str_eq(ms, "claim") {
            return WorldRoute::Claim;
        }
        if !self.is_world_owner_caller(caller_base, caller_did) {
            return WorldRoute::OwnerRequired;
        }
        owner_route_exec(&method, arg, &n)
    }
}

pub open spec fn owner_required_fallback() -> Seq<char> {
    "@world only the world owner can run that command."@
}

/// The refusal of an owner-only command, in the caller's language.
pub fn world_owner_required(catalogs: &TextMap<TextMap<String>>, lang: &str) -> (r: String)
    requires
        catalogs_wf(*catalogs),
    ensures
        r@ == tr_spec(catalogs@, lang@, "world.owner.required"@, owner_required_fallback()),
{
    tr_world(catalogs, lang, "world.owner.required", "@world only the world owner can run that command.")
}

/// The reply to a method the world does not know.
pub fn world_unknown_command(normalized: &str) -> (r: String)
    ensures
        r@ == "unknown command: "@ + normalized@,
{
    let mut v: Vec<char> = Vec::new();
    append_lit(&mut v, "unknown command: ");
    append_lit(&mut v, normalized);
    string_of(&v)
}

} // verus!
