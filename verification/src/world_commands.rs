//! World commands of the owner and of visitors: claim, ping, invite, flush and the
//! knock inbox.
use vstd::prelude::*;
use crate::knock::{kept_at, KnockError, KnockMessage, KnockStatus, parse_knock_id_arg, invalid_knock_id};
use crate::text::{
    append_chars, append_lit, chars_eq_lit, chars_of, class_pred, decimal, decimal_chars, eq_ignore_case,
    join, lower_chars, lower_seq, split_by, split_class, string_of, trim, trim_start_by, trim_start_class,
    trim_white, views, CharClass, parse_u64_spec, sorted_lex,
};
use crate::text_map::TextMap;
use crate::world::{world_did_text, unconfigured, World};

verus! {

/// The whitespace-separated words of `s` (`str::split_whitespace`).
pub open spec fn words(s: Seq<char>) -> Seq<Seq<char>> {
    split_by(s, class_pred(CharClass::White)).filter(|w: Seq<char>| w.len() > 0)
}

fn split_words(s: &Vec<char>) -> (r: Vec<Vec<char>>)
    ensures
        views(r@) == words(s@),
{
    let parts = split_class(s, &CharClass::White);
    let ghost ps = views(parts@);
    let ghost pred = |w: Seq<char>| w.len() > 0;
    let mut out: Vec<Vec<char>> = Vec::new();
    let mut i: usize = 0;
    while i < parts.len()
        invariant
            0 <= i <= parts@.len(),
            ps == views(parts@),
            pred == (|w: Seq<char>| w.len() > 0),
            views(out@) == ps.subrange(0, i as int).filter(pred),
        decreases parts.len() - i,
    {
        proof {
            ps.subrange(0, i as int).lemma_filter_push(ps[i as int], pred);
            assert(ps.subrange(0, i + 1) =~= ps.subrange(0, i as int).push(ps[i as int]));
        }
        if parts[i].len() > 0 {
            let ghost before = views(out@);
            let w = crate::text::slice_chars(&parts[i], 0, parts[i].len());
            assert(w@ =~= parts@[i as int]@);
            out.push(w);
            assert(views(out@) =~= before.push(ps[i as int]));
        }
        i = i + 1;
    }
    assert(ps.subrange(0, ps.len() as int) =~= ps);
    out
}

pub open spec fn status_name(s: KnockStatus) -> Seq<char> {
    match s {
        KnockStatus::Pending => "Pending"@,
        KnockStatus::Accepted => "Accepted"@,
        KnockStatus::Rejected => "Rejected"@,
    }
}

/// One line of the knock listing.
pub open spec fn knock_line(k: KnockMessage) -> Seq<char> {
    "id="@ + decimal(k.id as nat) + " status="@ + status_name(k.status) + " room="@ + k.room@ + " did="@
        + k.requester_did@ + " at="@ + k.requested_at@
}

pub open spec fn knock_usage() -> Seq<char> {
    "usage: @world.knock list [all] | @world.knock accept <id> | @world.knock reject <id> [note] | @world.knock delete <id>"@
}

pub open spec fn knock_error_text(e: KnockError) -> Seq<char> {
    match e {
        KnockError::NotFound(id) => "knock id "@ + decimal(id as nat) + " not found"@,
        KnockError::NotPending(id) => "knock id "@ + decimal(id as nat) + " is not pending"@,
    }
}

fn knock_error_string(e: &KnockError) -> (r: String)
    ensures
        r@ == knock_error_text(*e),
{
    let mut v: Vec<char> = Vec::new();
    append_lit(&mut v, "knock id ");
    match e {
        KnockError::NotFound(id) => {
            let d = decimal_chars(*id);
            append_chars(&mut v, &d);
            append_lit(&mut v, " not found");
        },
        KnockError::NotPending(id) => {
            let d = decimal_chars(*id);
            append_chars(&mut v, &d);
            append_lit(&mut v, " is not pending");
        },
    }
    string_of(&v)
}

fn knock_line_chars(k: &KnockMessage) -> (r: Vec<char>)
    ensures
        r@ == knock_line(*k),
{
    let mut v: Vec<char> = Vec::new();
    append_lit(&mut v, "id=");
    let d = decimal_chars(k.id);
    append_chars(&mut v, &d);
    append_lit(&mut v, " status=");
    match k.status {
        KnockStatus::Pending => append_lit(&mut v, "Pending"),
        KnockStatus::Accepted => append_lit(&mut v, "Accepted"),
        KnockStatus::Rejected => append_lit(&mut v, "Rejected"),
    }
    append_lit(&mut v, " room=");
    append_lit(&mut v, k.room.as_str());
    append_lit(&mut v, " did=");
    append_lit(&mut v, k.requester_did.as_str());
    append_lit(&mut v, " at=");
    append_lit(&mut v, k.requested_at.as_str());
    v
}

impl World {
    /// `claim`: the first caller to claim an unowned world becomes its owner.
    pub fn claim_world(&mut self, caller_base: &str) -> (r: String)
        requires
            old(self).wf(),
        ensures
            final(self).wf(),
            old(self).owner_did is Some ==> r@ == "already claimed by "@ + old(self).owner_did->Some_0@
                && *final(self) == *old(self),
            old(self).owner_did is None ==> {
                &&& r@ == "claimed by "@ + caller_base@
                &&& final(self).owner_view() == Some(caller_base@)
                &&& final(self).entry_acl.did_set().contains(caller_base@)
                &&& final(self).rooms == old(self).rooms
            },
    {
        match &self.owner_did {
            Some(o) => {
                let mut v: Vec<char> = Vec::new();
                append_lit(&mut v, "already claimed by ");
                append_lit(&mut v, o.as_str());
                string_of(&v)
            },
            None => {
                let _ = self.set_owner_did(caller_base);
                let mut v: Vec<char> = Vec::new();
                append_lit(&mut v, "claimed by ");
                append_lit(&mut v, caller_base);
                string_of(&v)
            },
        }
    }

    /// `ping [room]`: marks the caller's avatar as seen in the named room (or the current
    /// one) and answers with that room's DID and whether the avatar was there.
    pub fn world_ping(&mut self, room_name: &str, arg: &str, caller_did: &str, now: u64) -> (r: String)
        requires
            old(self).wf(),
        ensures
            final(self).wf(),
            ({
                let hint = trim_start_by(trim(arg@), class_pred(CharClass::Is('#')));
                let eff = if hint.len() > 0 && old(self).rooms@.dom().contains(hint) { hint } else { room_name@ };
                let touched = old(self).rooms@.dom().contains(eff) && old(self).rooms@[eff].has_did(caller_did@);
                let ipns = match old(self).world_ipns { Some(i) => i@, None => unconfigured() };
                r@ == "pong room_did="@ + world_did_text(ipns, eff) + " touched="@ + (if touched { "true"@ } else { "false"@ })
            }),
            final(self).owner_did == old(self).owner_did,
            final(self).entry_acl == old(self).entry_acl,
            final(self).knock_inbox == old(self).knock_inbox,
            final(self).room_cids == old(self).room_cids,
            final(self).exit_reverse_index == old(self).exit_reverse_index,
            final(self).avatar_registry == old(self).avatar_registry,
    {
        let a = chars_of(arg);
        let t = trim_white(&a);
        let hint = trim_start_class(&t, &CharClass::Is('#'));
        let effective: String = if hint.len() > 0 && self.rooms.contains_key(&hint) {
            string_of(&hint)
        } else {
            String::from_str(room_name)
        };
        let touched = self.touch_avatar_presence_for_did(effective.as_str(), caller_did, now);
        let did = self.build_room_did(effective.as_str());
        let mut v: Vec<char> = Vec::new();
        append_lit(&mut v, "pong room_did=");
        append_lit(&mut v, did.as_str());
        append_lit(&mut v, " touched=");
        if touched {
            append_lit(&mut v, "true");
        } else {
            append_lit(&mut v, "false");
        }
        string_of(&v)
    }

    /// `invite <did> [note]`: allows the DID (parsed by the caller into its root id, or the
    /// parse error text) to enter; the note defaults to an acceptance message.
    pub fn world_invite(&mut self, arg: &str, target: Result<String, String>) -> (r: String)
        requires
            old(self).wf(),
        ensures
            final(self).wf(),
            ({
                let ws = words(arg@);
                &&& ws.len() == 0 ==> r@ == "usage: @world.invite <did> [note]"@ && *final(self) == *old(self)
                &&& ws.len() > 0 && target is Err ==> r@ == "invalid DID '"@ + ws[0] + "': "@ + target->Err_0@
                    && *final(self) == *old(self)
                &&& ws.len() > 0 && target is Ok ==> {
                    let note = if ws.len() > 1 {
                        join(ws.subrange(1, ws.len() as int), " "@)
                    } else {
                        "Your knock request was accepted. You may enter now."@
                    };
                    &&& r@ == "invited "@ + target->Ok_0@ + " (allowlisted). note='"@ + note + "'"@
                    &&& final(self).entry_acl.did_set().contains(target->Ok_0@)
                    &&& final(self).rooms == old(self).rooms
                    &&& final(self).owner_did == old(self).owner_did
                }
            }),
    {
        let a = chars_of(arg);
        let ws = split_words(&a);
        if ws.len() == 0 {
            return String::from_str("usage: @world.invite <did> [note]");
        }
        match target {
            Err(e) => {
                let mut v: Vec<char> = Vec::new();
                append_lit(&mut v, "invalid DID '");
                append_chars(&mut v, &ws[0]);
                append_lit(&mut v, "': ");
                append_lit(&mut v, e.as_str());
                string_of(&v)
            },
            Ok(did) => {
                self.allow_entry_did(did.as_str());
                let mut v: Vec<char> = Vec::new();
                append_lit(&mut v, "invited ");
                append_lit(&mut v, did.as_str());
                append_lit(&mut v, " (allowlisted). note='");
                if ws.len() > 1 {
                    let rest = rest_words(&ws, 1);
                    let joined = crate::text::join_chars(&rest, " ");
                    append_chars(&mut v, &joined);
                } else {
                    append_lit(&mut v, "Your knock request was accepted. You may enter now.");
                }
                append_lit(&mut v, "'");
                string_of(&v)
            },
        }
    }

    /// `flush [knock|all]`: empties the knock inbox.
    pub fn world_flush(&mut self, arg: &str) -> (r: String)
        requires
            old(self).wf(),
        ensures
            final(self).wf(),
            ({
                let scope = lower_seq(trim(arg@));
                let n = old(self).knock_inbox.items@.len();
                &&& (scope.len() == 0 || scope == "all"@) ==> r@ == "flush all: knocks="@ + decimal(n)
                    && final(self).knock_inbox.items@.len() == 0
                &&& (scope == "knock"@ || scope == "knocks"@) ==> r@ == "flush knock: removed="@ + decimal(n)
                    && final(self).knock_inbox.items@.len() == 0
                &&& !(scope.len() == 0 || scope == "all"@ || scope == "knock"@ || scope == "knocks"@) ==>
                    r@ == "usage: @world.flush [knock|all]"@ && *final(self) == *old(self)
            }),
            *final(self) == (World { knock_inbox: final(self).knock_inbox, ..*old(self) }),
    {
        let a = chars_of(arg);
        let scope = lower_chars(&trim_white(&a));
        proof {
            reveal_strlit("all");
            reveal_strlit("knock");
            reveal_strlit("knocks");
        }
        if scope.len() == 0 || chars_eq_lit(&scope, "all") {
            let n = self.flush_knock_inbox();
            let mut v: Vec<char> = Vec::new();
            append_lit(&mut v, "flush all: knocks=");
            append_chars(&mut v, &decimal_chars(n as u64));
            return string_of(&v);
        }
        if chars_eq_lit(&scope, "knock") || chars_eq_lit(&scope, "knocks") {
            let n = self.flush_knock_inbox();
            let mut v: Vec<char> = Vec::new();
            append_lit(&mut v, "flush knock: removed=");
            append_chars(&mut v, &decimal_chars(n as u64));
            return string_of(&v);
        }
        String::from_str("usage: @world.flush [knock|all]")
    }
}

fn rest_words(ws: &Vec<Vec<char>>, from: usize) -> (r: Vec<Vec<char>>)
    requires
        from <= ws@.len(),
    ensures
        views(r@) == views(ws@).subrange(from as int, ws@.len() as int),
{
    let mut out: Vec<Vec<char>> = Vec::new();
    let mut i: usize = from;
    while i < ws.len()
        invariant
            from <= i <= ws@.len(),
            views(out@) == views(ws@).subrange(from as int, i as int),
        decreases ws.len() - i,
    {
        let ghost before = views(out@);
        let w = crate::text::slice_chars(&ws[i], 0, ws[i].len());
        assert(w@ =~= ws@[i as int]@);
        out.push(w);
        assert(views(out@) =~= before.push(views(ws@)[i as int]));
        assert(views(ws@).subrange(from as int, i + 1) =~= views(ws@).subrange(from as int, i as int).push(views(ws@)[i as int]));
        i = i + 1;
    }
    out
}


/// The knock subcommand of `knock <args>` (`list` when none is given), lowercased.
pub open spec fn knock_sub(ws: Seq<Seq<char>>) -> Seq<char> {
    if ws.len() == 0 { "list"@ } else { lower_seq(ws[0]) }
}

pub open spec fn knock_listing(items: Seq<KnockMessage>) -> Seq<char> {
    "knock inbox:\n"@ + join(items.map_values(|k: KnockMessage| knock_line(k)), "\n"@)
}

impl World {
    /// `knock list [all] | accept <id> | reject <id> [note] | delete <id>`, at `now`.
    pub fn world_knock_command(
        &mut self,
        arg: &str,
        catalogs: &TextMap<TextMap<String>>,
        lang: &str,
        now_text: &str,
        now: i64,
    ) -> (r: String)
        requires
            old(self).wf(),
            crate::lang::catalogs_wf(*catalogs),
        ensures
            final(self).wf(),
            final(self).rooms == old(self).rooms,
            final(self).owner_did == old(self).owner_did,
            ({
                let ws = words(arg@);
                let sub = knock_sub(ws);
                let p = kept_at(old(self).knock_inbox.items@, now);
                if sub == "list"@ {
                    let all = ws.len() > 1 && eq_ignore_case(ws[1], "all"@);
                    let items = p.filter(|k: KnockMessage| all || k.status == KnockStatus::Pending);
                    &&& final(self).knock_inbox.items@ == p
                    &&& items.len() == 0 ==> r@ == crate::lang::tr_spec(catalogs@, lang@, "world.knock.empty"@,
                        "@world knock inbox is empty"@)
                    &&& items.len() > 0 ==> r@ == knock_listing(items)
                } else if sub == "accept"@ || sub == "reject"@ || sub == "delete"@ {
                    if ws.len() < 2 {
                        &&& r@ == (if sub == "accept"@ {
                            "usage: @world.knock accept <id>"@
                        } else if sub == "reject"@ {
                            "usage: @world.knock reject <id> [note]"@
                        } else {
                            "usage: @world.knock delete <id>"@
                        })
                        &&& final(self).knock_inbox == old(self).knock_inbox
                    } else if parse_u64_spec(ws[1]) is None {
                        &&& r@ == invalid_knock_id(ws[1])
                        &&& final(self).knock_inbox == old(self).knock_inbox
                    } else {
                        let id = parse_u64_spec(ws[1])->Some_0;
                        let found = exists|j: int| 0 <= j < p.len() && #[trigger] p[j].id == id;
                        let pending = exists|j: int| 0 <= j < p.len() && #[trigger] p[j].id == id && p[j].status == KnockStatus::Pending;
                        if sub == "delete"@ {
                            &&& found ==> r@ == "knock deleted id="@ + decimal(id as nat)
                                && final(self).knock_inbox.items@ == p.filter(|k: KnockMessage| k.id != id)
                            &&& !found ==> r@ == "knock delete failed: "@ + knock_error_text(KnockError::NotFound(id))
                                && final(self).knock_inbox.items@ == p
                        } else {
                            let failed = if sub == "accept"@ { "knock accept failed: "@ } else { "knock reject failed: "@ };
                            &&& !found ==> r@ == failed + knock_error_text(KnockError::NotFound(id))
                            &&& found && !pending ==> r@ == failed + knock_error_text(KnockError::NotPending(id))
                            &&& !pending ==> final(self).knock_inbox.items@ == p
                            &&& pending ==> exists|j: int| 0 <= j < p.len() && #[trigger] p[j].id == id && {
                                let k = final(self).knock_inbox.items@[j];
                                &&& final(self).knock_inbox.items@.len() == p.len()
                                &&& k.id == id && k.room == p[j].room && k.requester_did == p[j].requester_did
                                &&& k.status == (if sub == "accept"@ { KnockStatus::Accepted } else { KnockStatus::Rejected })
                                &&& r@ == if sub == "accept"@ {
                                    "knock accepted id="@ + decimal(id as nat) + " did="@ + k.requester_did@ + " room="@ + k.room@
                                        + " (entry allowlist updated)"@
                                } else {
                                    "knock rejected id="@ + decimal(id as nat) + " did="@ + k.requester_did@ + " room="@ + k.room@
                                }
                                &&& sub == "accept"@ ==> final(self).entry_acl.did_set().contains(k.requester_did@)
                            }
                        }
                    }
                } else {
                    &&& r@ == knock_usage()
                    &&& final(self).knock_inbox == old(self).knock_inbox
                }
            }),
    {
        let ghost p = kept_at(self.knock_inbox.items@, now);
        let a = chars_of(arg);
        let ws = split_words(&a);
        let sub: Vec<char> = if ws.len() == 0 {
            chars_of("list")
        } else {
            lower_chars(&ws[0])
        };
        proof {
            reveal_strlit("list");
            reveal_strlit("accept");
            reveal_strlit("reject");
            reveal_strlit("delete");
            reveal_strlit("all");
        }
        if chars_eq_lit(&sub, "list") {
            let all = ws.len() > 1 && crate::text::chars_eq_ignore_case(&ws[1], &chars_of("all"));
            let items = self.list_knocks(!all, now);
            proof {
                let f1 = |k: KnockMessage| !!all || k.status == KnockStatus::Pending;
                let f2 = |k: KnockMessage| all || k.status == KnockStatus::Pending;
                assert(f1 =~= f2);
            }
            if items.len() == 0 {
                return crate::lang::tr_world(catalogs, lang, "world.knock.empty", "@world knock inbox is empty");
            }
            let mut lines: Vec<Vec<char>> = Vec::new();
            let mut i: usize = 0;
            while i < items.len()
                invariant
                    0 <= i <= items@.len(),
                    views(lines@) == items@.subrange(0, i as int).map_values(|k: KnockMessage| knock_line(k)),
                decreases items.len() - i,
            {
                let ghost before = views(lines@);
                lines.push(knock_line_chars(&items[i]));
                assert(views(lines@) =~= before.push(knock_line(items@[i as int])));
                assert(items@.subrange(0, i + 1).map_values(|k: KnockMessage| knock_line(k)) =~= items@.subrange(0, i as int).map_values(|k: KnockMessage| knock_line(k)).push(knock_line(items@[i as int])));
                i = i + 1;
            }
            assert(items@.subrange(0, items@.len() as int) =~= items@);
            let body = crate::text::join_chars(&lines, "\n");
            let mut v: Vec<char> = Vec::new();
            append_lit(&mut v, "knock inbox:\n");
            append_chars(&mut v, &body);
            return string_of(&v);
        }
        let is_accept = chars_eq_lit(&sub, "accept");
        let is_reject = chars_eq_lit(&sub, "reject");
        let is_delete = chars_eq_lit(&sub, "delete");
        if !(is_accept || is_reject || is_delete) {
            return String::from_str(
                "usage: @world.knock list [all] | @world.knock accept <id> | @world.knock reject <id> [note] | @world.knock delete <id>",
            );
        }
        if ws.len() < 2 {
            if is_accept {
                return String::from_str("usage: @world.knock accept <id>");
            } else if is_reject {
                return String::from_str("usage: @world.knock reject <id> [note]");
            } else {
                return String::from_str("usage: @world.knock delete <id>");
            }
        }
        let raw = string_of(&ws[1]);
        let id = match parse_knock_id_arg(raw.as_str()) {
            Ok(id) => id,
            Err(e) => {
                return e;
            },
        };
        if is_delete {
            return match self.delete_knock(id, now) {
                Ok(()) => {
                    let mut v: Vec<char> = Vec::new();
                    append_lit(&mut v, "knock deleted id=");
                    append_chars(&mut v, &decimal_chars(id));
                    string_of(&v)
                },
                Err(e) => {
                    let mut v: Vec<char> = Vec::new();
                    append_lit(&mut v, "knock delete failed: ");
                    append_lit(&mut v, knock_error_string(&e).as_str());
                    string_of(&v)
                },
            };
        }
        let result = if is_accept {
            self.accept_knock(id, now_text, now)
        } else {
            let note: Option<String> = if ws.len() > 2 {
                let rest = rest_words(&ws, 2);
                Some(string_of(&crate::text::join_chars(&rest, " ")))
            } else {
                None
            };
            self.reject_knock(id, note, now_text, now)
        };
        match result {
            Ok(k) => {
                let mut v: Vec<char> = Vec::new();
                if is_accept {
                    append_lit(&mut v, "knock accepted id=");
                } else {
                    append_lit(&mut v, "knock rejected id=");
                }
                append_chars(&mut v, &decimal_chars(k.id));
                append_lit(&mut v, " did=");
                append_lit(&mut v, k.requester_did.as_str());
                append_lit(&mut v, " room=");
                append_lit(&mut v, k.room.as_str());
                if is_accept {
                    append_lit(&mut v, " (entry allowlist updated)");
                }
                string_of(&v)
            },
            Err(e) => {
                proof {
                    if exists|j: int| 0 <= j < p.len() && #[trigger] p[j].id == id && p[j].status == KnockStatus::Pending {
                        let j = choose|j: int| 0 <= j < p.len() && #[trigger] p[j].id == id && p[j].status == KnockStatus::Pending;
                        if e is NotPending {
                            let j2 = choose|j2: int| 0 <= j2 < p.len() && #[trigger] p[j2].id == id && p[j2].status != KnockStatus::Pending;
                            assert(self.knock_inbox.items@ == p);
                            if j < j2 {
                                assert(p[j].id < p[j2].id);
                            } else if j2 < j {
                                assert(p[j2].id < p[j].id);
                            }
                        }
                    }
                }
                let mut v: Vec<char> = Vec::new();
                if is_accept {
                    append_lit(&mut v, "knock accept failed: ");
                } else {
                    append_lit(&mut v, "knock reject failed: ");
                }
                append_lit(&mut v, knock_error_string(&e).as_str());
                string_of(&v)
            },
        }
    }
}

pub open spec fn opt_or_none(o: Option<String>) -> Seq<char> {
    match o {
        Some(s) => s@,
        None => "(none)"@,
    }
}

/// The room names listed one per line in code-point order, or `(none)`.
pub open spec fn rooms_listing(names: Seq<Seq<char>>, r: Seq<char>) -> bool {
    if names.len() == 0 {
        r == "(none)"@
    } else {
        exists|rows: Seq<Seq<char>>| sorted_lex(rows) && rows.to_multiset() == names.to_multiset() && r == join(rows, "\n"@)
    }
}

impl World {
    /// The value of a readable world attribute: `owner_did`, `did`, `rooms` or
    /// `lang_cid`; `None` for any other name.
    pub fn world_attribute(&self, key: &str) -> (r: Option<String>)
        requires
            self.wf(),
        ensures
            key@ == "owner_did"@ ==> (r matches Some(v) && v@ == opt_or_none(self.owner_did)),
            key@ == "did"@ ==> (r matches Some(v) && v@ == match self.world_did {
                Some(d) => d@,
                None => "did:ma:unconfigured"@,
            }),
            key@ == "rooms"@ ==> (r matches Some(v) && rooms_listing(self.rooms.key_seq(), v@)),
            key@ == "lang_cid"@ ==> (r matches Some(v) && v@ == opt_or_none(self.lang_cid)),
            !(key@ == "owner_did"@ || key@ == "did"@ || key@ == "rooms"@ || key@ == "lang_cid"@) ==> r is None,
    {
        proof {
            reveal_strlit("owner_did");
            reveal_strlit("did");
            reveal_strlit("rooms");
            reveal_strlit("lang_cid");
            assert(("owner_did"@).len() == 9 && ("did"@).len() == 3 && ("rooms"@).len() == 5 && ("lang_cid"@).len() == 8);
        }
        if crate::text::str_eq(key, "owner_did") {
            return Some(match &self.owner_did {
                Some(o) => o.clone(),
                None => String::from_str("(none)"),
            });
        }
        if crate::text::str_eq(key, "did") {
            return Some(match &self.world_did {
                Some(d) => d.clone(),
                None => String::from_str("did:ma:unconfigured"),
            });
        }
        if crate::text::str_eq(key, "lang_cid") {
            return Some(match &self.lang_cid {
                Some(c) => c.clone(),
                None => String::from_str("(none)"),
            });
        }
        if !crate::text::str_eq(key, "rooms") {
            return None;
        }
        let names = self.room_names();
        if names.len() == 0 {
            return Some(String::from_str("(none)"));
        }
        let mut parts: Vec<Vec<char>> = Vec::new();
        let mut i: usize = 0;
        while i < names.len()
            invariant
                0 <= i <= names@.len(),
                views(parts@) == crate::text::strs(names@).subrange(0, i as int),
            decreases names.len() - i,
        {
            let ghost before = views(parts@);
            parts.push(chars_of(names[i].as_str()));
            proof {
                assert(views(parts@) =~= before.push(crate::text::strs(names@)[i as int]));
                assert(crate::text::strs(names@).subrange(0, i + 1) =~= crate::text::strs(names@).subrange(0, i as int).push(crate::text::strs(names@)[i as int]));
            }
            i = i + 1;
        }
        assert(crate::text::strs(names@).subrange(0, names@.len() as int) =~= crate::text::strs(names@));
        let sorted = crate::text::sort_chars(parts);
        let joined = crate::text::join_chars(&sorted, "\n");
        proof {
            let rows = views(sorted@);
            assert(sorted_lex(rows) && rows.to_multiset() == self.rooms.key_seq().to_multiset() && joined@ == join(rows, "\n"@));
        }
        Some(string_of(&joined))
    }
}

} // verus!
