//! The commands an avatar gives about its surroundings: `look`, `look <thing>`, `go
//! <exit>`, `inspect <thing>`, and a bare exit name. What an exit is called in the
//! avatar's languages, which exit answers to a word, and who may use it, the exit data
//! itself decides; the caller hands those answers in.
use vstd::prelude::*;
use crate::lang::{catalogs_wf, tr_spec, tr_world, world_lang_from_profile, world_lang_spec};
use crate::text::{
    append_chars, append_lit, chars_eq_lit, chars_of, class_pred, contains_char, eq_ignore_case,
    has_prefix, join, join_chars, lower, lower_chars, lower_seq, slice_chars, split_by, split_class, starts_with_lit,
    string_of, strs, trim, trim_white, views, CharClass,
};
use crate::text_map::TextMap;

verus! {

/// An avatar command, as the world reads it.
#[derive(Debug)]
pub enum AvatarWorldCommand {
    /// `l` or `look`.
    Look,
    /// `l <target>` or `look <target>`.
    LookAt(String),
    /// `go <direction>` (the direction is empty when it cannot be read).
    Go(String),
    /// `inspect <target>`.
    Inspect(String),
    /// A single word: the name of an exit to take, if one answers to it.
    Bare(String),
    /// Blank, or not an avatar command.
    NotMine,
}

pub open spec fn after_n(t: Seq<char>, n: int) -> Seq<char> {
    if t.len() >= n { trim(t.subrange(n, t.len() as int)) } else { Seq::empty() }
}

pub open spec fn go_direction(t: Seq<char>) -> Seq<char> {
    if has_prefix(t, "go "@) || has_prefix(t, "Go "@) || has_prefix(t, "GO "@) {
        after_n(t, 3)
    } else {
        Seq::empty()
    }
}

/// How `execute_avatar_command` reads `command`.
pub open spec fn parsed_as(command: Seq<char>, r: AvatarWorldCommand) -> bool {
    let t = trim(command);
    let lo = lower_seq(t);
    if t.len() == 0 {
        r is NotMine
    } else if lo == "l"@ || lo == "look"@ {
        r is Look
    } else if has_prefix(lo, "l "@) || has_prefix(lo, "look "@) {
        r matches AvatarWorldCommand::LookAt(x) && x@ == (if has_prefix(lo, "l "@) { after_n(t, 2) } else { after_n(t, 5) })
    } else if has_prefix(lo, "go "@) || lo == "go"@ {
        r matches AvatarWorldCommand::Go(x) && x@ == go_direction(t)
    } else if has_prefix(lo, "inspect "@) || lo == "inspect"@ {
        r matches AvatarWorldCommand::Inspect(x) && x@ == after_n(t, 8)
    } else if !t.contains(' ') {
        r matches AvatarWorldCommand::Bare(x) && x@ == t
    } else {
        r is NotMine
    }
}

/// A command that begins with `go `, `Go ` or `GO ` is read as a move: its lowercase form
/// begins with `go ` and with none of the look words.
proof fn lemma_go_word(t: Seq<char>)
    ensures
        (has_prefix(t, "go "@) || has_prefix(t, "Go "@) || has_prefix(t, "GO "@)) ==> {
            let lo = lower_seq(t);
            &&& t.len() >= 3
            &&& has_prefix(lo, "go "@)
            &&& lo != "l"@
            &&& lo != "look"@
            &&& !has_prefix(lo, "l "@)
            &&& !has_prefix(lo, "look "@)
        },
{
    reveal_strlit("go ");
    reveal_strlit("Go ");
    reveal_strlit("GO ");
    reveal_strlit("l");
    reveal_strlit("look");
    reveal_strlit("l ");
    reveal_strlit("look ");
    let spelled_go = has_prefix(t, "go "@) || has_prefix(t, "Go "@) || has_prefix(t, "GO "@);
    if spelled_go {
        let lo = lower_seq(t);
        let head = t.subrange(0, 3);
        assert(head[0] == t[0] && head[1] == t[1] && head[2] == t[2]);
        if has_prefix(t, "go "@) {
            assert(head == "go "@);
        } else if has_prefix(t, "Go "@) {
            assert(head == "Go "@);
        } else {
            assert(head == "GO "@);
        }
        assert(t[0] == 'g' || t[0] == 'G');
        assert(t[1] == 'o' || t[1] == 'O');
        assert(t[2] == ' ');
        assert(lo[0] == lower(t[0]));
        assert(lo[1] == lower(t[1]));
        assert(lo[2] == lower(t[2]));
        assert(lo[0] == 'g');
        assert(lo[1] == 'o');
        assert(lo[2] == ' ');
        assert(lo.subrange(0, 3) =~= "go "@);
        assert(lo != "l"@) by {
            if lo == "l"@ {
                assert(lo.len() == 1);
            }
        }
        assert(lo != "look"@) by {
            if lo == "look"@ {
                assert(lo[0] == 'l');
            }
        }
        assert(!has_prefix(lo, "l "@)) by {
            if has_prefix(lo, "l "@) {
                assert(lo.subrange(0, 2)[0] == 'l');
            }
        }
        assert(!has_prefix(lo, "look "@)) by {
            if has_prefix(lo, "look "@) {
                assert(lo.subrange(0, 5)[0] == 'l');
            }
        }
    }
}

/// A lowercase form that begins with a word and a blank comes from a text with a blank.
proof fn lemma_blank_in_lowercase(t: Seq<char>, p: Seq<char>, k: int)
    requires
        has_prefix(lower_seq(t), p),
        0 <= k < p.len(),
        p[k] == ' ',
    ensures
        t.contains(' '),
{
    assert(lower_seq(t)[k] == lower_seq(t).subrange(0, p.len() as int)[k]);
    assert(lower(t[k]) == ' ');
    assert(t[k] == ' ');
}

/// The look and inspect words, as the lowercase command `lower_seq(t)` begins with them, are
/// none of the commands read before them; a single word without a blank begins with none.
proof fn lemma_look_words(t: Seq<char>)
    ensures
        has_prefix(lower_seq(t), "l "@) ==> t.len() >= 2 && lower_seq(t) != "l"@ && lower_seq(t) != "look"@,
        has_prefix(lower_seq(t), "look "@) ==> {
            &&& t.len() >= 5
            &&& lower_seq(t) != "l"@
            &&& lower_seq(t) != "look"@
            &&& !has_prefix(lower_seq(t), "l "@)
        },
        has_prefix(lower_seq(t), "inspect "@) ==> {
            &&& t.len() >= 8
            &&& lower_seq(t) != "l"@
            &&& lower_seq(t) != "look"@
            &&& !has_prefix(lower_seq(t), "l "@)
            &&& !has_prefix(lower_seq(t), "look "@)
            &&& !has_prefix(lower_seq(t), "go "@)
            &&& lower_seq(t) != "go"@
        },
        !t.contains(' ') ==> {
            &&& !has_prefix(lower_seq(t), "l "@)
            &&& !has_prefix(lower_seq(t), "look "@)
            &&& !has_prefix(lower_seq(t), "go "@)
            &&& !has_prefix(lower_seq(t), "inspect "@)
        },
        (lower_seq(t) == "l"@ || lower_seq(t) == "look"@) ==> t.len() > 0,
{
    reveal_strlit("l");
    reveal_strlit("look");
    reveal_strlit("l ");
    reveal_strlit("look ");
    reveal_strlit("go ");
    reveal_strlit("go");
    reveal_strlit("inspect ");
    let lo = lower_seq(t);
    if has_prefix(lo, "look "@) {
        crate::text::lemma_prefix_excludes(lo, "look "@, "l "@, 1);
    }
    if has_prefix(lo, "inspect "@) {
        crate::text::lemma_prefix_excludes(lo, "inspect "@, "l"@, 0);
        crate::text::lemma_prefix_excludes(lo, "inspect "@, "look"@, 0);
        crate::text::lemma_prefix_excludes(lo, "inspect "@, "l "@, 0);
        crate::text::lemma_prefix_excludes(lo, "inspect "@, "look "@, 0);
        crate::text::lemma_prefix_excludes(lo, "inspect "@, "go "@, 0);
        crate::text::lemma_prefix_excludes(lo, "inspect "@, "go"@, 0);
    }
    if has_prefix(lo, "l "@) {
        lemma_blank_in_lowercase(t, "l "@, 1);
    }
    if has_prefix(lo, "look "@) {
        lemma_blank_in_lowercase(t, "look "@, 4);
    }
    if has_prefix(lo, "go "@) {
        lemma_blank_in_lowercase(t, "go "@, 2);
    }
    if has_prefix(lo, "inspect "@) {
        lemma_blank_in_lowercase(t, "inspect "@, 7);
    }
}

/// A `go` command written `go `, `Go ` or `GO ` moves toward what follows those three
/// characters, trimmed: the capitalised forms are read as the lowercase one.
pub proof fn law_go_takes_the_rest(command: Seq<char>, r: AvatarWorldCommand)
    requires
        parsed_as(command, r),
        has_prefix(trim(command), "go "@) || has_prefix(trim(command), "Go "@)
            || has_prefix(trim(command), "GO "@),
    ensures
        r matches AvatarWorldCommand::Go(x) && x@ == trim(
            trim(command).subrange(3, trim(command).len() as int),
        ),
{
    lemma_go_word(trim(command));
}

fn rest_after(t: &Vec<char>, n: usize) -> (r: String)
    ensures
        r@ == after_n(t@, n as int),
{
    if t.len() >= n {
        string_of(&trim_white(&slice_chars(t, n, t.len())))
    } else {
        String::new()
    }
}

/// Reads an avatar command: `l`/`look` with or without a target, `go`, `inspect`, or a
/// single word (case does not matter for the command words).
pub fn parse_avatar_world_command(command: &str) -> (r: AvatarWorldCommand)
    ensures
        parsed_as(command@, r),
        ({
            let t = trim(command@);
            (has_prefix(t, "go "@) || has_prefix(t, "Go "@) || has_prefix(t, "GO "@)) ==> (r matches AvatarWorldCommand::Go(x)
                && x@ == trim(t.subrange(3, t.len() as int)))
        }),
        ({
            let t = trim(command@);
            let lo = lower_seq(t);
            &&& t.len() == 0 ==> r is NotMine
            &&& (lo == "l"@ || lo == "look"@) ==> r is Look
            &&& has_prefix(lo, "l "@) ==> (r matches AvatarWorldCommand::LookAt(x) && x@ == trim(t.subrange(2, t.len() as int)))
            &&& has_prefix(lo, "look "@) ==> (r matches AvatarWorldCommand::LookAt(x)
                && x@ == trim(t.subrange(5, t.len() as int)))
            &&& has_prefix(lo, "inspect "@) ==> (r matches AvatarWorldCommand::Inspect(x)
                && x@ == trim(t.subrange(8, t.len() as int)))
            &&& (t.len() > 0 && !t.contains(' ') && lo != "l"@ && lo != "look"@ && lo != "go"@ && lo != "inspect"@)
                ==> (r matches AvatarWorldCommand::Bare(x) && x@ == t)
        }),
{
    proof {
        lemma_go_word(trim(command@));
        lemma_look_words(trim(command@));
    }
    let t = trim_white(&chars_of(command));
    if t.len() == 0 {
        return AvatarWorldCommand::NotMine;
    }
    let lo = lower_chars(&t);
    if chars_eq_lit(&lo, "l") || chars_eq_lit(&lo, "look") {
        return AvatarWorldCommand::Look;
    }
    if starts_with_lit(&lo, "l ") {
        return AvatarWorldCommand::LookAt(rest_after(&t, 2));
    }
    if starts_with_lit(&lo, "look ") {
        return AvatarWorldCommand::LookAt(rest_after(&t, 5));
    }
    if starts_with_lit(&lo, "go ") || chars_eq_lit(&lo, "go") {
        if starts_with_lit(&t, "go ") || starts_with_lit(&t, "Go ") || starts_with_lit(&t, "GO ") {
            proof {
                reveal_strlit("go ");
                reveal_strlit("Go ");
                reveal_strlit("GO ");
            }
            return AvatarWorldCommand::Go(rest_after(&t, 3));
        }
        return AvatarWorldCommand::Go(String::new());
    }
    if starts_with_lit(&lo, "inspect ") || chars_eq_lit(&lo, "inspect") {
        return AvatarWorldCommand::Inspect(rest_after(&t, 8));
    }
    if !contains_char(&t, ' ') {
        return AvatarWorldCommand::Bare(string_of(&t));
    }
    AvatarWorldCommand::NotMine
}

/// What the avatar commands read of one exit of the room.
pub struct ExitView {
    pub id: String,
    pub name: String,
    /// The exit's name in the avatar's languages, as the exit data gives it.
    pub display_name: String,
    /// Localized names: (language, name).
    pub names: Vec<(String, String)>,
    pub to: String,
    pub aliases: Vec<String>,
    pub hidden: bool,
    pub locked: bool,
    pub one_way: bool,
    /// Localized travel texts: (language, text).
    pub travel_texts: Vec<(String, String)>,
    /// Whether the exit data lets the calling avatar use the exit.
    pub usable: bool,
}

/// Where an avatar command is given: the room, its exits, who and what is there, and the
/// caller's language profile and DID.
pub struct AvatarCommandContext {
    pub room_name: String,
    pub room_title: String,
    pub room_description: String,
    pub exits: Vec<ExitView>,
    pub avatars: Vec<String>,
    pub things: Vec<String>,
    pub sender_profile: String,
    pub caller_did: String,
}

#[derive(Debug)]
pub enum AvatarAction {
    /// Nothing happens beyond the reply.
    Stay,
    /// Move through the exit at this index of the context's exits.
    Move { exit: usize },
}

pub struct AvatarCommandResult {
    pub response: String,
    pub action: AvatarAction,
}

/// The caller's language preferences: the `;`-separated parts of the profile, trimmed,
/// blank ones left out.
pub open spec fn lang_prefs_spec(profile: Seq<char>) -> Seq<Seq<char>> {
    split_by(profile, class_pred(CharClass::Is(';'))).map_values(|p: Seq<char>| trim(p)).filter(|p: Seq<char>| p.len() > 0)
}

impl AvatarCommandContext {
    pub fn lang_prefs(&self) -> (r: Vec<String>)
        ensures
            strs(r@) == lang_prefs_spec(self.sender_profile@),
    {
        let parts = split_class(&chars_of(self.sender_profile.as_str()), &CharClass::Is(';'));
        let ghost ps = views(parts@);
        let ghost trimmed = ps.map_values(|p: Seq<char>| trim(p));
        let ghost keep = |p: Seq<char>| p.len() > 0;
        let mut out: Vec<String> = Vec::new();
        let mut i: usize = 0;
        while i < parts.len()
            invariant
                ps == views(parts@),
                trimmed == ps.map_values(|p: Seq<char>| trim(p)),
                keep == (|p: Seq<char>| p.len() > 0),
                0 <= i <= parts@.len(),
                strs(out@) == trimmed.subrange(0, i as int).filter(keep),
            decreases parts.len() - i,
        {
            let t = trim_white(&parts[i]);
            proof {
                assert(trimmed[i as int] == t@);
                trimmed.subrange(0, i as int).lemma_filter_push(trimmed[i as int], keep);
                assert(trimmed.subrange(0, i + 1) =~= trimmed.subrange(0, i as int).push(trimmed[i as int]));
            }
            if t.len() > 0 {
                let ghost before = strs(out@);
                out.push(string_of(&t));
                assert(strs(out@) =~= before.push(t@));
            }
            i = i + 1;
        }
        assert(trimmed.subrange(0, trimmed.len() as int) =~= trimmed);
        out
    }
}

pub open spec fn ctx_tr(cats: Map<Seq<char>, TextMap<String>>, ctx: AvatarCommandContext, key: Seq<char>, fallback: Seq<char>) -> Seq<char> {
    tr_spec(cats, world_lang_spec(ctx.sender_profile@), key, fallback)
}

pub open spec fn exit_label(e: ExitView) -> Seq<char> {
    if e.locked { e.display_name@ + " 🔒"@ } else { e.display_name@ }
}

/// The labels of the exits that are not hidden, in order.
pub open spec fn visible_labels(s: Seq<ExitView>) -> Seq<Seq<char>>
    decreases s.len(),
{
    if s.len() == 0 {
        Seq::empty()
    } else if s.last().hidden {
        visible_labels(s.drop_last())
    } else {
        visible_labels(s.drop_last()).push(exit_label(s.last()))
    }
}

/// The names in `s` other than `caller`, in order.
pub open spec fn others(s: Seq<Seq<char>>, caller: Seq<char>) -> Seq<Seq<char>>
    decreases s.len(),
{
    if s.len() == 0 {
        Seq::empty()
    } else if s.last() == caller {
        others(s.drop_last(), caller)
    } else {
        others(s.drop_last(), caller).push(s.last())
    }
}

/// The lines `look` answers with.
pub open spec fn look_lines(cats: Map<Seq<char>, TextMap<String>>, ctx: AvatarCommandContext) -> Seq<Seq<char>> {
    let title = if ctx.room_title@.len() == 0 { ctx.room_name@ } else { ctx.room_title@ };
    let desc = if ctx.room_description@.len() == 0 || ctx.room_description@ == "(no description)"@ {
        ctx_tr(cats, ctx, "avatar.look.no-description"@, "Nothing special here."@)
    } else {
        ctx.room_description@
    };
    let vis = visible_labels(ctx.exits@);
    let exits_line = if vis.len() == 0 {
        ctx_tr(cats, ctx, "avatar.look.no-exits"@, "There are no obvious exits."@)
    } else {
        ctx_tr(cats, ctx, "avatar.look.exits-label"@, "Exits:"@) + " "@ + join(vis, ", "@)
    };
    let present = others(strs(ctx.avatars@), ctx.caller_did@);
    let present_lines = if present.len() == 0 {
        Seq::<Seq<char>>::empty()
    } else {
        seq![ctx_tr(cats, ctx, "avatar.look.present-label"@, "Present:"@) + " "@ + join(present, ", "@)]
    };
    let things_lines = if ctx.things@.len() == 0 {
        Seq::<Seq<char>>::empty()
    } else {
        seq![ctx_tr(cats, ctx, "avatar.look.things-label"@, "You see:"@) + " "@ + join(strs(ctx.things@), ", "@)]
    };
    seq!["── "@ + title + " ──"@, desc, exits_line] + present_lines + things_lines
}

fn append_joined(out: &mut Vec<char>, parts: &Vec<Vec<char>>, sep: &str)
    ensures
        final(out)@ == old(out)@ + join(views(parts@), sep@),
{
    let j = join_chars(parts, sep);
    append_chars(out, &j);
}

pub(crate) fn strings_chars(v: &Vec<String>) -> (r: Vec<Vec<char>>)
    ensures
        views(r@) == strs(v@),
{
    let mut out: Vec<Vec<char>> = Vec::new();
    let mut i: usize = 0;
    while i < v.len()
        invariant
            0 <= i <= v@.len(),
            views(out@) == strs(v@).subrange(0, i as int),
        decreases v.len() - i,
    {
        let ghost before = views(out@);
        out.push(chars_of(v[i].as_str()));
        proof {
            assert(views(out@) =~= before.push(strs(v@)[i as int]));
            assert(strs(v@).subrange(0, i + 1) =~= strs(v@).subrange(0, i as int).push(strs(v@)[i as int]));
        }
        i = i + 1;
    }
    assert(strs(v@).subrange(0, v@.len() as int) =~= strs(v@));
    out
}

/// The answer to `look`: the room's title and description, its visible exits (locked
/// ones marked), the other avatars present and the things there, one per line.
pub fn cmd_look(ctx: &AvatarCommandContext, catalogs: &TextMap<TextMap<String>>) -> (r: AvatarCommandResult)
    requires
        catalogs_wf(*catalogs),
    ensures
        r.response@ == join(look_lines(catalogs@, *ctx), "\n"@),
        (r.action is Stay),
{
    let lang = world_lang_from_profile(ctx.sender_profile.as_str());
    let title = if ctx.room_title.unicode_len() == 0 { ctx.room_name.clone() } else { ctx.room_title.clone() };
    let desc = if ctx.room_description.unicode_len() == 0 || crate::text::str_eq(ctx.room_description.as_str(), "(no description)") {
        tr_world(catalogs, lang.as_str(), "avatar.look.no-description", "Nothing special here.")
    } else {
        ctx.room_description.clone()
    };
    let mut lines: Vec<Vec<char>> = Vec::new();
    let mut l1: Vec<char> = Vec::new();
    append_lit(&mut l1, "── ");
    append_lit(&mut l1, title.as_str());
    append_lit(&mut l1, " ──");
    lines.push(l1);
    lines.push(chars_of(desc.as_str()));

    let mut vis: Vec<Vec<char>> = Vec::new();
    let mut i: usize = 0;
    while i < ctx.exits.len()
        invariant
            0 <= i <= ctx.exits@.len(),
            views(vis@) == visible_labels(ctx.exits@.subrange(0, i as int)),
        decreases ctx.exits.len() - i,
    {
        let e = &ctx.exits[i];
        proof {
            assert(ctx.exits@.subrange(0, i + 1).drop_last() =~= ctx.exits@.subrange(0, i as int));
            assert(ctx.exits@.subrange(0, i + 1).last() == ctx.exits@[i as int]);
        }
        if !e.hidden {
            let mut label: Vec<char> = chars_of(e.display_name.as_str());
            if e.locked {
                append_lit(&mut label, " 🔒");
            }
            let ghost before = views(vis@);
            vis.push(label);
            assert(views(vis@) =~= before.push(exit_label(*e)));
        }
        i = i + 1;
    }
    assert(ctx.exits@.subrange(0, ctx.exits@.len() as int) =~= ctx.exits@);
    if vis.len() == 0 {
        lines.push(chars_of(tr_world(catalogs, lang.as_str(), "avatar.look.no-exits", "There are no obvious exits.").as_str()));
    } else {
        let mut l: Vec<char> = chars_of(tr_world(catalogs, lang.as_str(), "avatar.look.exits-label", "Exits:").as_str());
        append_lit(&mut l, " ");
        append_joined(&mut l, &vis, ", ");
        lines.push(l);
    }

    let mut present: Vec<Vec<char>> = Vec::new();
    let mut k: usize = 0;
    let ghost av = strs(ctx.avatars@);
    while k < ctx.avatars.len()
        invariant
            av == strs(ctx.avatars@),
            0 <= k <= ctx.avatars@.len(),
            views(present@) == others(av.subrange(0, k as int), ctx.caller_did@),
        decreases ctx.avatars.len() - k,
    {
        proof {
            assert(av.subrange(0, k + 1).drop_last() =~= av.subrange(0, k as int));
            assert(av.subrange(0, k + 1).last() == ctx.avatars@[k as int]@);
        }
        if !crate::text::str_eq(ctx.avatars[k].as_str(), ctx.caller_did.as_str()) {
            let ghost before = views(present@);
            present.push(chars_of(ctx.avatars[k].as_str()));
            assert(views(present@) =~= before.push(ctx.avatars@[k as int]@));
        }
        k = k + 1;
    }
    assert(av.subrange(0, ctx.avatars@.len() as int) =~= av);
    let ghost head = views(lines@);
    if present.len() > 0 {
        let mut l: Vec<char> = chars_of(tr_world(catalogs, lang.as_str(), "avatar.look.present-label", "Present:").as_str());
        append_lit(&mut l, " ");
        append_joined(&mut l, &present, ", ");
        lines.push(l);
    }
    let ghost mid = views(lines@);
    if ctx.things.len() > 0 {
        let mut l: Vec<char> = chars_of(tr_world(catalogs, lang.as_str(), "avatar.look.things-label", "You see:").as_str());
        append_lit(&mut l, " ");
        let th = strings_chars(&ctx.things);
        append_joined(&mut l, &th, ", ");
        lines.push(l);
    }
    proof {
        let ll = look_lines(catalogs@, *ctx);
        assert(views(lines@) =~= ll);
    }
    let out = join_chars(&lines, "\n");
    AvatarCommandResult { response: string_of(&out), action: AvatarAction::Stay }
}

pub open spec fn any_named(v: Seq<String>, t: Seq<char>) -> bool {
    exists|i: int| 0 <= i < v.len() && eq_ignore_case(#[trigger] v[i]@, t)
}

fn any_named_exec(v: &Vec<String>, t: &Vec<char>) -> (r: bool)
    ensures
        r == any_named(v@, t@),
{
    let mut i: usize = 0;
    while i < v.len()
        invariant
            0 <= i <= v@.len(),
            forall|k: int| 0 <= k < i ==> !eq_ignore_case(#[trigger] v@[k]@, t@),
        decreases v.len() - i,
    {
        if crate::text::chars_eq_ignore_case(&chars_of(v[i].as_str()), t) {
            return true;
        }
        i = i + 1;
    }
    false
}

fn tr_chars(catalogs: &TextMap<TextMap<String>>, lang: &String, key: &str, fallback: &str) -> (r: Vec<char>)
    requires
        catalogs_wf(*catalogs),
    ensures
        r@ == tr_spec(catalogs@, lang@, key@, fallback@),
{
    chars_of(tr_world(catalogs, lang.as_str(), key, fallback).as_str())
}

fn stay(v: &Vec<char>) -> (r: AvatarCommandResult)
    ensures
        r.response@ == v@,
        (r.action is Stay),
{
    AvatarCommandResult { response: string_of(v), action: AvatarAction::Stay }
}

/// The answer to `look <target>` when `target` is not blank; `matched` is the first exit
/// that answers to the target, if one does.
pub open spec fn look_at_text(cats: Map<Seq<char>, TextMap<String>>, ctx: AvatarCommandContext, target: Seq<char>, matched: Option<usize>) -> Seq<char> {
    match matched {
        Some(i) => {
            let e = ctx.exits@[i as int];
            e.display_name@ + " — "@ + (if e.locked {
                ctx_tr(cats, ctx, "avatar.look.exit-locked"@, "It is locked."@)
            } else {
                ctx_tr(cats, ctx, "avatar.look.exit-open"@, "It is open."@)
            })
        },
        None => if any_named(ctx.things@, target) || any_named(ctx.avatars@, target) {
            target
        } else {
            ctx_tr(cats, ctx, "avatar.look.nothing"@, "You see nothing called"@) + " '"@ + target + "'"@
        },
    }
}

/// The answer to `look <target>`: the room for a blank target; for an exit, its name and
/// whether it is locked; a thing or avatar present (any case) by name; else that nothing
/// goes by that name.
pub fn cmd_look_at(target: &str, ctx: &AvatarCommandContext, matched: Option<usize>, catalogs: &TextMap<TextMap<String>>) -> (r: AvatarCommandResult)
    requires
        catalogs_wf(*catalogs),
        matched matches Some(i) ==> i < ctx.exits@.len(),
    ensures
        target@.len() == 0 ==> r.response@ == join(look_lines(catalogs@, *ctx), "\n"@),
        target@.len() > 0 ==> r.response@ == look_at_text(catalogs@, *ctx, target@, matched),
        (r.action is Stay),
{
    if target.unicode_len() == 0 {
        return cmd_look(ctx, catalogs);
    }
    let lang = world_lang_from_profile(ctx.sender_profile.as_str());
    let t = chars_of(target);
    match matched {
        Some(i) => {
            let e = &ctx.exits[i];
            let mut v: Vec<char> = chars_of(e.display_name.as_str());
            append_lit(&mut v, " — ");
            let status = if e.locked {
                tr_chars(catalogs, &lang, "avatar.look.exit-locked", "It is locked.")
            } else {
                tr_chars(catalogs, &lang, "avatar.look.exit-open", "It is open.")
            };
            append_chars(&mut v, &status);
            stay(&v)
        },
        None => {
            if any_named_exec(&ctx.things, &t) || any_named_exec(&ctx.avatars, &t) {
                return stay(&t);
            }
            let mut v = tr_chars(catalogs, &lang, "avatar.look.nothing", "You see nothing called");
            append_lit(&mut v, " '");
            append_chars(&mut v, &t);
            append_lit(&mut v, "'");
            stay(&v)
        },
    }
}

/// `r` answers taking the exit at index `i`.
pub open spec fn go_exit_reply(cats: Map<Seq<char>, TextMap<String>>, ctx: AvatarCommandContext, i: usize, r: AvatarCommandResult) -> bool {
    let e = ctx.exits@[i as int];
    if e.locked {
        &&& r.response@ == ctx_tr(cats, ctx, "avatar.go.locked"@, "The way is locked:"@) + " "@ + e.display_name@
        &&& r.action is Stay
    } else if !e.usable {
        &&& r.response@ == ctx_tr(cats, ctx, "avatar.go.denied"@, "You cannot use exit"@) + " '"@ + e.display_name@ + "'"@
        &&& r.action is Stay
    } else {
        &&& r.response@.len() == 0
        &&& r.action == (AvatarAction::Move { exit: i })
    }
}

/// The answer to taking the exit at index `i`: refused when it is locked or the caller
/// may not use it, else an empty reply and the move.
pub fn cmd_go_exit(i: usize, ctx: &AvatarCommandContext, catalogs: &TextMap<TextMap<String>>) -> (r: AvatarCommandResult)
    requires
        catalogs_wf(*catalogs),
        i < ctx.exits@.len(),
    ensures
        go_exit_reply(catalogs@, *ctx, i, r),
{
    let lang = world_lang_from_profile(ctx.sender_profile.as_str());
    let e = &ctx.exits[i];
    if e.locked {
        let mut v = tr_chars(catalogs, &lang, "avatar.go.locked", "The way is locked:");
        append_lit(&mut v, " ");
        append_lit(&mut v, e.display_name.as_str());
        return stay(&v);
    }
    if !e.usable {
        let mut v = tr_chars(catalogs, &lang, "avatar.go.denied", "You cannot use exit");
        append_lit(&mut v, " '");
        append_lit(&mut v, e.display_name.as_str());
        append_lit(&mut v, "'");
        return stay(&v);
    }
    AvatarCommandResult { response: String::new(), action: AvatarAction::Move { exit: i } }
}

/// The answer to `go <direction>`: a usage hint for a blank direction, the exit that
/// answers to it (`matched`), or that there is no such exit.
pub fn cmd_go(direction: &str, ctx: &AvatarCommandContext, matched: Option<usize>, catalogs: &TextMap<TextMap<String>>) -> (r: AvatarCommandResult)
    requires
        catalogs_wf(*catalogs),
        matched matches Some(i) ==> i < ctx.exits@.len(),
    ensures
        direction@.len() == 0 ==> (r.response@ == ctx_tr(catalogs@, *ctx, "avatar.go.usage"@, "Go where?"@) && (r.action is Stay)),
        direction@.len() > 0 && (matched is None) ==> (r.response@ == ctx_tr(catalogs@, *ctx, "avatar.go.no-exit"@, "No exit"@)
            + " '"@ + direction@ + "'"@ && (r.action is Stay)),
        direction@.len() > 0 && (matched is Some) ==> go_exit_reply(catalogs@, *ctx, matched->Some_0, r),
{
    let lang = world_lang_from_profile(ctx.sender_profile.as_str());
    if direction.unicode_len() == 0 {
        let v = tr_chars(catalogs, &lang, "avatar.go.usage", "Go where?");
        return stay(&v);
    }
    match matched {
        Some(i) => cmd_go_exit(i, ctx, catalogs),
        None => {
            let mut v = tr_chars(catalogs, &lang, "avatar.go.no-exit", "No exit");
            append_lit(&mut v, " '");
            append_lit(&mut v, direction);
            append_lit(&mut v, "'");
            stay(&v)
        },
    }
}

pub open spec fn bool_text(b: bool) -> Seq<char> {
    if b { "true"@ } else { "false"@ }
}

pub open spec fn pair_lines(prefix: Seq<char>, v: Seq<(String, String)>) -> Seq<Seq<char>> {
    v.map_values(|p: (String, String)| prefix + p.0@ + "="@ + p.1@)
}

/// The lines `inspect` shows of an exit.
pub open spec fn inspect_exit_lines(e: ExitView) -> Seq<Seq<char>> {
    seq!["@inspect exit id="@ + e.id@, "  name="@ + e.name@] + pair_lines("  name."@, e.names@)
        + seq!["  to="@ + e.to@]
        + (if e.aliases@.len() > 0 { seq!["  aliases="@ + join(strs(e.aliases@), ", "@)] } else { Seq::<Seq<char>>::empty() })
        + seq!["  hidden="@ + bool_text(e.hidden), "  locked="@ + bool_text(e.locked), "  one_way="@ + bool_text(e.one_way)]
        + pair_lines("  travel_text."@, e.travel_texts@)
}

fn push_bool_line(lines: &mut Vec<Vec<char>>, label: &str, b: bool)
    ensures
        views(final(lines)@) == views(old(lines)@).push(label@ + bool_text(b)),
{
    let mut l: Vec<char> = chars_of(label);
    if b {
        append_lit(&mut l, "true");
    } else {
        append_lit(&mut l, "false");
    }
    let ghost before = views(lines@);
    lines.push(l);
    assert(views(lines@) =~= before.push(label@ + bool_text(b)));
}

fn push_pair_lines(lines: &mut Vec<Vec<char>>, prefix: &str, v: &Vec<(String, String)>)
    ensures
        views(final(lines)@) == views(old(lines)@) + pair_lines(prefix@, v@),
{
    let ghost start = views(lines@);
    let mut i: usize = 0;
    while i < v.len()
        invariant
            0 <= i <= v@.len(),
            views(lines@) == start + pair_lines(prefix@, v@.subrange(0, i as int)),
        decreases v.len() - i,
    {
        let mut l: Vec<char> = chars_of(prefix);
        append_lit(&mut l, v[i].0.as_str());
        append_lit(&mut l, "=");
        append_lit(&mut l, v[i].1.as_str());
        let ghost before = views(lines@);
        lines.push(l);
        proof {
            assert(views(lines@) =~= before.push(prefix@ + v@[i as int].0@ + "="@ + v@[i as int].1@));
            assert(pair_lines(prefix@, v@.subrange(0, i + 1)) =~= pair_lines(prefix@, v@.subrange(0, i as int)).push(prefix@ + v@[i as int].0@ + "="@ + v@[i as int].1@));
        }
        i = i + 1;
    }
    assert(v@.subrange(0, v@.len() as int) =~= v@);
}

/// The answer to `inspect <target>` when `target` is not blank.
pub open spec fn inspect_text(cats: Map<Seq<char>, TextMap<String>>, ctx: AvatarCommandContext, target: Seq<char>, matched: Option<usize>) -> Seq<char> {
    match matched {
        Some(i) => join(inspect_exit_lines(ctx.exits@[i as int]), "\n"@),
        None => if any_named(ctx.things@, target) {
            "@inspect object name="@ + target + " room="@ + ctx.room_name@
        } else if any_named(ctx.avatars@, target) {
            "@inspect avatar handle="@ + target + " room="@ + ctx.room_name@
        } else {
            ctx_tr(cats, ctx, "avatar.inspect.not-found"@, "Nothing to inspect:"@) + " '"@ + target + "'"@
        },
    }
}

/// The answer to `inspect <target>`: a usage hint for a blank target; for an exit, its
/// fields one per line; a thing or avatar present (any case) as such; else that there
/// is nothing to inspect by that name.
pub fn cmd_inspect(target: &str, ctx: &AvatarCommandContext, matched: Option<usize>, catalogs: &TextMap<TextMap<String>>) -> (r: AvatarCommandResult)
    requires
        catalogs_wf(*catalogs),
        matched matches Some(i) ==> i < ctx.exits@.len(),
    ensures
        target@.len() == 0 ==> r.response@ == ctx_tr(catalogs@, *ctx, "avatar.inspect.usage"@, "Inspect what?"@),
        target@.len() > 0 ==> r.response@ == inspect_text(catalogs@, *ctx, target@, matched),
        (r.action is Stay),
{
    let lang = world_lang_from_profile(ctx.sender_profile.as_str());
    if target.unicode_len() == 0 {
        let v = tr_chars(catalogs, &lang, "avatar.inspect.usage", "Inspect what?");
        return stay(&v);
    }
    let t = chars_of(target);
    match matched {
        Some(i) => {
            let e = &ctx.exits[i];
            let mut lines: Vec<Vec<char>> = Vec::new();
            let mut l0: Vec<char> = chars_of("@inspect exit id=");
            append_lit(&mut l0, e.id.as_str());
            lines.push(l0);
            let mut l1: Vec<char> = chars_of("  name=");
            append_lit(&mut l1, e.name.as_str());
            lines.push(l1);
            let ghost s1 = seq!["@inspect exit id="@ + e.id@, "  name="@ + e.name@];
            assert(views(lines@) =~= s1);
            push_pair_lines(&mut lines, "  name.", &e.names);
            let ghost s2 = s1 + pair_lines("  name."@, e.names@);
            assert(views(lines@) =~= s2);
            let mut l2: Vec<char> = chars_of("  to=");
            append_lit(&mut l2, e.to.as_str());
            lines.push(l2);
            let ghost s3 = s2 + seq!["  to="@ + e.to@];
            assert(views(lines@) =~= s3);
            if e.aliases.len() > 0 {
                let mut l3: Vec<char> = chars_of("  aliases=");
                let al = strings_chars(&e.aliases);
                append_joined(&mut l3, &al, ", ");
                lines.push(l3);
            }
            let ghost s4 = s3 + (if e.aliases@.len() > 0 { seq!["  aliases="@ + join(strs(e.aliases@), ", "@)] } else { Seq::<Seq<char>>::empty() });
            assert(views(lines@) =~= s4);
            push_bool_line(&mut lines, "  hidden=", e.hidden);
            push_bool_line(&mut lines, "  locked=", e.locked);
            push_bool_line(&mut lines, "  one_way=", e.one_way);
            let ghost s5 = s4 + seq!["  hidden="@ + bool_text(e.hidden), "  locked="@ + bool_text(e.locked), "  one_way="@ + bool_text(e.one_way)];
            assert(views(lines@) =~= s5);
            push_pair_lines(&mut lines, "  travel_text.", &e.travel_texts);
            proof {
                assert(views(lines@) =~= s5 + pair_lines("  travel_text."@, e.travel_texts@));
                assert(inspect_exit_lines(*e) =~= s5 + pair_lines("  travel_text."@, e.travel_texts@));
            }
            let out = join_chars(&lines, "\n");
            stay(&out)
        },
        None => {
            if any_named_exec(&ctx.things, &t) {
                let mut v: Vec<char> = chars_of("@inspect object name=");
                append_chars(&mut v, &t);
                append_lit(&mut v, " room=");
                append_lit(&mut v, ctx.room_name.as_str());
                return stay(&v);
            }
            if any_named_exec(&ctx.avatars, &t) {
                let mut v: Vec<char> = chars_of("@inspect avatar handle=");
                append_chars(&mut v, &t);
                append_lit(&mut v, " room=");
                append_lit(&mut v, ctx.room_name.as_str());
                return stay(&v);
            }
            let mut v = tr_chars(catalogs, &lang, "avatar.inspect.not-found", "Nothing to inspect:");
            append_lit(&mut v, " '");
            append_chars(&mut v, &t);
            append_lit(&mut v, "'");
            stay(&v)
        },
    }
}

} // verus!
