//! World-owner administration of rooms: `room <name> owner <did>` and
//! `room <name> acl show|open|close|allow <did>|deny <did>`.
use vstd::prelude::*;
use crate::acl::{star, RoomAcl};
use crate::room::Room;
use crate::text::{
    after_first, append_lit, before_first, chars_eq_lit, chars_of, class_pred, contains_class,
    lower_chars, lower_seq, split_first, string_of, trim, trim_white, CharClass, seq_added,
};
use crate::world::{rooms_same_except, World};

verus! {

/// A `room` administration command, parsed.
#[derive(Debug)]
pub enum WorldRoomCommand {
    Usage,
    OwnerUsage(String),
    /// Room and DID text: the DID has no `#`.
    OwnerMissingFragment(String, String),
    /// Room and DID text to parse.
    Owner(String, String),
    AclShow(String),
    AclOpen(String),
    AclClose(String),
    AclAllowUsage(String),
    AclAllow(String, String),
    AclDenyUsage(String),
    AclDeny(String, String),
    /// Room and the unknown subcommand.
    AclUnknown(String, String),
}

/// The part before the first whitespace character, and the part after it.
pub open spec fn ws_head(s: Seq<char>) -> Seq<char> {
    before_first(s, class_pred(CharClass::White))
}

pub open spec fn ws_tail(s: Seq<char>) -> Seq<char> {
    after_first(s, class_pred(CharClass::White))
}

/// The room name, the lowercased subcommand and its argument of `arg`, split at the
/// first two whitespace characters and trimmed.
pub open spec fn room_cmd_parts(arg: Seq<char>) -> (Seq<char>, Seq<char>, Seq<char>) {
    (trim(ws_head(arg)), lower_seq(trim(ws_head(ws_tail(arg)))), trim(ws_tail(ws_tail(arg))))
}

/// The acl subcommand (lowercased) and its argument.
pub open spec fn acl_parts(sub_arg: Seq<char>) -> (Seq<char>, Seq<char>) {
    (lower_seq(trim(ws_head(sub_arg))), trim(ws_tail(sub_arg)))
}

pub open spec fn has_hash(s: Seq<char>) -> bool {
    contains_class(s, class_pred(CharClass::Is('#')))
}

/// What `parse_world_room_command` makes of `arg`.
pub open spec fn parsed_room_command(arg: Seq<char>, r: WorldRoomCommand) -> bool {
    let (room, sub, sa) = room_cmd_parts(arg);
    let (ac, aa) = acl_parts(sa);
    if room.len() == 0 || sub.len() == 0 {
        r is Usage
    } else if sub == "owner"@ {
        if sa.len() == 0 {
            r matches WorldRoomCommand::OwnerUsage(x) && x@ == room
        } else if !has_hash(sa) {
            r matches WorldRoomCommand::OwnerMissingFragment(x, d) && x@ == room && d@ == sa
        } else {
            r matches WorldRoomCommand::Owner(x, d) && x@ == room && d@ == sa
        }
    } else if sub != "acl"@ {
        r is Usage
    } else if ac.len() == 0 || ac == "show"@ {
        r matches WorldRoomCommand::AclShow(x) && x@ == room
    } else if ac == "open"@ {
        r matches WorldRoomCommand::AclOpen(x) && x@ == room
    } else if ac == "close"@ {
        r matches WorldRoomCommand::AclClose(x) && x@ == room
    } else if ac == "allow"@ {
        if aa.len() == 0 {
            r matches WorldRoomCommand::AclAllowUsage(x) && x@ == room
        } else {
            r matches WorldRoomCommand::AclAllow(x, d) && x@ == room && d@ == aa
        }
    } else if ac == "deny"@ {
        if aa.len() == 0 {
            r matches WorldRoomCommand::AclDenyUsage(x) && x@ == room
        } else {
            r matches WorldRoomCommand::AclDeny(x, d) && x@ == room && d@ == aa
        }
    } else {
        r matches WorldRoomCommand::AclUnknown(x, c) && x@ == room && c@ == ac
    }
}

fn split_ws(v: &Vec<char>) -> (r: (Vec<char>, Vec<char>))
    ensures
        r.0@ == ws_head(v@),
        r.1@ == ws_tail(v@),
{
    let (a, b, _) = split_first(v, &CharClass::White);
    (a, b)
}

/// The room administration words differ from one another.
proof fn lemma_room_words_distinct()
    ensures
        "acl"@ != "owner"@,
        "acl"@.len() > 0,
        "open"@ != "show"@,
        "close"@ != "show"@,
        "close"@ != "open"@,
        "allow"@ != "show"@,
        "allow"@ != "open"@,
        "allow"@ != "close"@,
        "deny"@ != "show"@,
        "deny"@ != "open"@,
        "deny"@ != "close"@,
        "deny"@ != "allow"@,
        "show"@.len() > 0,
        "owner"@.len() > 0,
        "open"@.len() > 0,
        "close"@.len() > 0,
        "allow"@.len() > 0,
        "deny"@.len() > 0,
{
    reveal_strlit("acl");
    reveal_strlit("owner");
    reveal_strlit("show");
    reveal_strlit("open");
    reveal_strlit("close");
    reveal_strlit("allow");
    reveal_strlit("deny");
    assert("acl"@.len() == 3 && "owner"@.len() == 5);
    assert("show"@.len() == 4 && "open"@.len() == 4 && "deny"@.len() == 4);
    assert("close"@.len() == 5 && "allow"@.len() == 5);
    assert("open"@[0] != "show"@[0]);
    assert("deny"@[0] != "show"@[0]);
    assert("deny"@[0] != "open"@[0]);
    assert("close"@[0] != "allow"@[0]);
}

/// Parses the argument of a `room` administration command.
pub fn parse_world_room_command(arg: &str) -> (r: WorldRoomCommand)
    ensures
        parsed_room_command(arg@, r),
        ({
            let (room, sub, sa) = room_cmd_parts(arg@);
            let (ac, aa) = acl_parts(sa);
            &&& (room.len() > 0 && sub == "acl"@) ==> {
                &&& (ac.len() == 0 || ac == "show"@) ==> (r matches WorldRoomCommand::AclShow(x) && x@ == room)
                &&& ac == "open"@ ==> (r matches WorldRoomCommand::AclOpen(x) && x@ == room)
                &&& ac == "close"@ ==> (r matches WorldRoomCommand::AclClose(x) && x@ == room)
                &&& (ac == "allow"@ && aa.len() > 0) ==> (r matches WorldRoomCommand::AclAllow(x, d) && x@ == room && d@ == aa)
                &&& (ac == "deny"@ && aa.len() > 0) ==> (r matches WorldRoomCommand::AclDeny(x, d) && x@ == room && d@ == aa)
            }
            &&& (room.len() > 0 && sub == "owner"@ && sa.len() > 0 && has_hash(sa)) ==> (r matches WorldRoomCommand::Owner(x, d)
                && x@ == room && d@ == sa)
        }),
{
    proof {
        lemma_room_words_distinct();
    }
    let c = chars_of(arg);
    let (a, rest) = split_ws(&c);
    let (b, sub_arg0) = split_ws(&rest);
    let room = trim_white(&a);
    let sub = lower_chars(&trim_white(&b));
    let sa = trim_white(&sub_arg0);
    if room.len() == 0 || sub.len() == 0 {
        return WorldRoomCommand::Usage;
    }
    let rs = string_of(&room);
    if chars_eq_lit(&sub, "owner") {
        if sa.len() == 0 {
            return WorldRoomCommand::OwnerUsage(rs);
        }
        if !crate::text::contains_char(&sa, '#') {
            proof {
                if has_hash(sa@) {
                    let k = choose|k: int| 0 <= k < sa@.len() && class_pred(CharClass::Is('#'))(sa@[k]);
                    assert(sa@.contains('#')) by {
                        assert(sa@[k] == '#');
                    }
                }
            }
            return WorldRoomCommand::OwnerMissingFragment(rs, string_of(&sa));
        }
        proof {
            let k = choose|k: int| 0 <= k < sa@.len() && sa@[k] == '#';
            assert(class_pred(CharClass::Is('#'))(sa@[k]));
        }
        return WorldRoomCommand::Owner(rs, string_of(&sa));
    }
    if !chars_eq_lit(&sub, "acl") {
        return WorldRoomCommand::Usage;
    }
    let (x, y) = split_ws(&sa);
    let ac = lower_chars(&trim_white(&x));
    let aa = trim_white(&y);
    if ac.len() == 0 || chars_eq_lit(&ac, "show") {
        WorldRoomCommand::AclShow(rs)
    } else if chars_eq_lit(&ac, "open") {
        WorldRoomCommand::AclOpen(rs)
    } else if chars_eq_lit(&ac, "close") {
        WorldRoomCommand::AclClose(rs)
    } else if chars_eq_lit(&ac, "allow") {
        if aa.len() == 0 {
            WorldRoomCommand::AclAllowUsage(rs)
        } else {
            WorldRoomCommand::AclAllow(rs, string_of(&aa))
        }
    } else if chars_eq_lit(&ac, "deny") {
        if aa.len() == 0 {
            WorldRoomCommand::AclDenyUsage(rs)
        } else {
            WorldRoomCommand::AclDeny(rs, string_of(&aa))
        }
    } else {
        WorldRoomCommand::AclUnknown(rs, string_of(&ac))
    }
}


/// A change to a room ACL.
pub enum AclOp {
    SetOwner(String),
    Open,
    Close,
    Allow(String),
    Deny(String),
}

/// `n` is the ACL `o` after `op` (a denial of the owner leaves it unchanged).
pub open spec fn acl_after(o: RoomAcl, op: AclOp, n: RoomAcl) -> bool {
    match op {
        AclOp::SetOwner(d) => {
            &&& n.owner == Some(d)
            &&& n.allow_set() == seq_added(o.allow_set(), d@)
            &&& n.deny_set() == o.deny_set().filter(|e: Seq<char>| e != d@)
        },
        AclOp::Open => {
            &&& n.owner == o.owner
            &&& n.deny@ == o.deny@
            &&& n.allow_set() == seq_added(o.allow_set(), star())
        },
        AclOp::Close => {
            &&& n.owner == o.owner
            &&& n.deny@ == o.deny@
            &&& n.allow_set() == o.allow_set().filter(|e: Seq<char>| e != star())
        },
        AclOp::Allow(d) => {
            &&& n.owner == o.owner
            &&& n.allow_set() == seq_added(o.allow_set(), d@)
            &&& n.deny_set() == o.deny_set().filter(|e: Seq<char>| e != d@)
        },
        AclOp::Deny(d) => if o.owner is Some && o.owner->Some_0@ == d@ {
            n == o
        } else {
            &&& n.owner == o.owner
            &&& n.deny_set() == seq_added(o.deny_set(), d@)
            &&& n.allow_set() == o.allow_set().filter(|e: Seq<char>| e != d@)
        },
    }
}

proof fn lemma_added_contains(s: Seq<Seq<char>>, x: Seq<char>)
    ensures
        seq_added(s, x).contains(x),
        forall|y: Seq<char>| s.contains(y) ==> #[trigger] seq_added(s, x).contains(y),
{
    if !s.contains(x) {
        let n = s.push(x);
        assert(n[s.len() as int] == x);
        assert forall|y: Seq<char>| s.contains(y) implies #[trigger] n.contains(y) by {
            let i = choose|i: int| 0 <= i < s.len() && s[i] == y;
            assert(n[i] == y);
        }
    }
}

proof fn lemma_filtered_lacks(s: Seq<Seq<char>>, x: Seq<char>)
    ensures
        !s.filter(|e: Seq<char>| e != x).contains(x),
        forall|y: Seq<char>| #[trigger] s.contains(y) && y != x ==> s.filter(|e: Seq<char>| e != x).contains(y),
{
    let f = |e: Seq<char>| e != x;
    let t = s.filter(f);
    if t.contains(x) {
        let i = choose|i: int| 0 <= i < t.len() && t[i] == x;
        s.lemma_filter_pred(f, i);
    }
    assert forall|y: Seq<char>| s.contains(y) && y != x implies #[trigger] t.contains(y) by {
        let i = choose|i: int| 0 <= i < s.len() && s[i] == y;
        s.lemma_filter_contains(f, i);
    }
}

/// Opening a room puts `*` on its allow list and keeps its denials: everyone who is not
/// denied may enter.
pub proof fn law_open_admits_everyone_not_denied(o: RoomAcl, n: RoomAcl)
    requires
        acl_after(o, AclOp::Open, n),
    ensures
        n.allow_set().contains(star()),
        n.deny_set() == o.deny_set(),
        forall|id: Seq<char>| !o.deny_set().contains(id) ==> #[trigger] n.admits(id),
{
    lemma_added_contains(o.allow_set(), star());
}

/// Closing a room takes `*` off its allow list and keeps every named entry and denial.
pub proof fn law_close_removes_only_star(o: RoomAcl, n: RoomAcl)
    requires
        acl_after(o, AclOp::Close, n),
    ensures
        !n.allow_set().contains(star()),
        n.deny_set() == o.deny_set(),
        forall|id: Seq<char>| o.allow_set().contains(id) && id != star() ==> #[trigger] n.allow_set().contains(id),
{
    lemma_filtered_lacks(o.allow_set(), star());
}

/// Allowing an identity lets it in, whatever the room said of it before.
pub proof fn law_allow_admits(o: RoomAcl, n: RoomAcl, d: String)
    requires
        acl_after(o, AclOp::Allow(d), n),
    ensures
        n.admits(d@),
        n.allow_set().contains(d@),
        !n.deny_set().contains(d@),
{
    lemma_added_contains(o.allow_set(), d@);
    lemma_filtered_lacks(o.deny_set(), d@);
}

/// Denying an identity other than the owner keeps it out, whatever the allow list says.
pub proof fn law_deny_refuses(o: RoomAcl, n: RoomAcl, d: String)
    requires
        acl_after(o, AclOp::Deny(d), n),
        !(o.owner is Some && o.owner->Some_0@ == d@),
    ensures
        !n.admits(d@),
        n.deny_set().contains(d@),
        !n.allow_set().contains(d@),
{
    lemma_added_contains(o.deny_set(), d@);
    lemma_filtered_lacks(o.allow_set(), d@);
}

pub open spec fn denies_owner(o: RoomAcl, op: AclOp) -> bool {
    op matches AclOp::Deny(d) && o.owner is Some && o.owner->Some_0@ == d@
}

impl World {
    /// Applies `op` to the ACL of `room_name`: `None` when there is no such room,
    /// `Some(false)` when it would deny the owner (nothing changes), `Some(true)` otherwise.
    pub fn update_room_acl(&mut self, room_name: &str, op: AclOp) -> (r: Option<bool>)
        requires
            old(self).wf(),
        ensures
            final(self).wf(),
            r is None <==> !old(self).rooms@.dom().contains(room_name@),
            r is None ==> final(self).rooms@ == old(self).rooms@,
            r is Some ==> {
                let o = old(self).rooms@[room_name@];
                let n = final(self).rooms@[room_name@];
                &&& rooms_same_except(old(self).rooms@, final(self).rooms@, room_name@)
                &&& r->Some_0 == !denies_owner(o.acl, op)
                &&& acl_after(o.acl, op, n.acl)
                &&& n == (Room { acl: n.acl, ..o })
                &&& o.acl.distinct() ==> n.acl.distinct()
            },
            *final(self) == (World { rooms: final(self).rooms, ..*old(self) }),
    {
        let rk = chars_of(room_name);
        let i = match self.rooms.find(&rk) {
            None => {
                return None;
            },
            Some(i) => i,
        };
        let ghost orooms = self.rooms@;
        let (k, mut room) = self.rooms.take_at(i);
        let ghost ro = room;
        let applied = match op {
            AclOp::SetOwner(d) => {
                room.acl.set_owner(d);
                true
            },
            AclOp::Open => {
                room.acl.open_access();
                true
            },
            AclOp::Close => {
                room.acl.close_access();
                true
            },
            AclOp::Allow(d) => {
                room.acl.allow_identity(d);
                true
            },
            AclOp::Deny(d) => match room.acl.deny_identity(d) {
                Ok(()) => true,
                Err(_) => false,
            },
        };
        let ghost nr = room;
        self.rooms.insert_at(i, k, room);
        proof {
            assert(orooms.remove(rk@).insert(rk@, nr) =~= orooms.insert(rk@, nr));
            assert forall|d: Seq<char>| #[trigger] nr.has_did(d) implies orooms[rk@].has_did(d) by {
                let h = choose|h: Seq<char>| #[trigger] nr.avatars@.dom().contains(h) && nr.avatars@[h].agent_did@ == d;
                assert(ro.avatars@.dom().contains(h));
            }
            crate::world::lemma_single_membership_shrink(orooms, rk@, nr);
        }
        Some(applied)
    }
}


pub open spec fn room_usage_text() -> Seq<char> {
    "usage: @world.room <name> acl show|open|close|allow <did>|deny <did> | @world.room <name> owner <did:ma:...#fragment>"@
}

pub open spec fn room_not_found(room: Seq<char>) -> Seq<char> {
    "room '"@ + room + "' not found"@
}

/// The ACL change a command makes once its DID is parsed: the DID's canonical id and
/// whether it has a fragment, or the parse error.
pub open spec fn room_cmd_op(cmd: WorldRoomCommand, did: Result<(String, bool), String>) -> Option<(Seq<char>, AclOp)> {
    match cmd {
        WorldRoomCommand::Owner(room, _) => match did {
            Ok((id, true)) => Some((room@, AclOp::SetOwner(id))),
            _ => None,
        },
        WorldRoomCommand::AclOpen(room) => Some((room@, AclOp::Open)),
        WorldRoomCommand::AclClose(room) => Some((room@, AclOp::Close)),
        WorldRoomCommand::AclAllow(room, _) => match did {
            Ok((id, _)) => Some((room@, AclOp::Allow(id))),
            _ => None,
        },
        WorldRoomCommand::AclDeny(room, _) => match did {
            Ok((id, _)) => Some((room@, AclOp::Deny(id))),
            _ => None,
        },
        _ => None,
    }
}

/// The reply to a room administration command, against the rooms before it.
pub open spec fn room_cmd_reply(cmd: WorldRoomCommand, did: Result<(String, bool), String>, rooms: Map<Seq<char>, Room>) -> Seq<char> {
    match cmd {
        WorldRoomCommand::Usage => room_usage_text(),
        WorldRoomCommand::OwnerUsage(room) => "usage: @world.room "@ + room@ + " owner <did:ma:...#fragment>"@,
        WorldRoomCommand::OwnerMissingFragment(_, d) => "invalid owner DID '"@ + d@ + "': missing #fragment"@,
        WorldRoomCommand::Owner(room, d) => match did {
            Err(e) => "invalid owner DID '"@ + d@ + "': "@ + e@,
            Ok((id, frag)) => if !frag {
                "invalid owner DID '"@ + d@ + "': missing #fragment"@
            } else if !rooms.dom().contains(room@) {
                room_not_found(room@)
            } else {
                "room '"@ + room@ + "' owner set to "@ + id@
            },
        },
        WorldRoomCommand::AclShow(room) => if !rooms.dom().contains(room@) {
            room_not_found(room@)
        } else {
            "room '"@ + room@ + "' acl: "@ + rooms[room@].acl.summary_text() + " owner="@ + match rooms[room@].acl.owner {
                Some(o) => o@,
                None => "(none)"@,
            }
        },
        WorldRoomCommand::AclOpen(room) => if !rooms.dom().contains(room@) {
            room_not_found(room@)
        } else {
            "room '"@ + room@ + "' acl opened (public)"@
        },
        WorldRoomCommand::AclClose(room) => if !rooms.dom().contains(room@) {
            room_not_found(room@)
        } else {
            "room '"@ + room@ + "' acl closed (private)"@
        },
        WorldRoomCommand::AclAllowUsage(room) => "usage: @world.room "@ + room@ + " acl allow <did>"@,
        WorldRoomCommand::AclAllow(room, d) => match did {
            Err(e) => "invalid DID '"@ + d@ + "': "@ + e@,
            Ok((id, _)) => if !rooms.dom().contains(room@) {
                room_not_found(room@)
            } else {
                "room '"@ + room@ + "' acl: allowed "@ + id@
            },
        },
        WorldRoomCommand::AclDenyUsage(room) => "usage: @world.room "@ + room@ + " acl deny <did>"@,
        WorldRoomCommand::AclDeny(room, d) => match did {
            Err(e) => "invalid DID '"@ + d@ + "': "@ + e@,
            Ok((id, _)) => if !rooms.dom().contains(room@) {
                room_not_found(room@)
            } else if rooms[room@].acl.owner is Some && rooms[room@].acl.owner->Some_0@ == id@ {
                "room '"@ + room@ + "' owner cannot be denied"@
            } else {
                "room '"@ + room@ + "' acl: denied "@ + id@
            },
        },
        WorldRoomCommand::AclUnknown(room, c) => "unknown acl subcommand '"@ + c@ + "'. usage: @world.room "@ + room@
            + " acl show|open|close|allow <did>|deny <did>"@,
    }
}


fn cat(a: &str, b: &str, c: &str) -> (r: String)
    ensures
        r@ == a@ + b@ + c@,
{
    let mut v: Vec<char> = Vec::new();
    append_lit(&mut v, a);
    append_lit(&mut v, b);
    append_lit(&mut v, c);
    assert(v@ =~= a@ + b@ + c@);
    string_of(&v)
}

fn cat4(a: &str, b: &str, c: &str, d: &str) -> (r: String)
    ensures
        r@ == a@ + b@ + c@ + d@,
{
    let mut v: Vec<char> = Vec::new();
    append_lit(&mut v, a);
    append_lit(&mut v, b);
    append_lit(&mut v, c);
    append_lit(&mut v, d);
    assert(v@ =~= a@ + b@ + c@ + d@);
    string_of(&v)
}

impl World {
    /// Runs a parsed room administration command. `did` is what parsing the command's
    /// DID gave (its canonical id and whether it has a fragment, or the error text); it is
    /// not read by commands without a DID. Returns the reply and whether a room changed
    /// (to be stored again).
    pub fn run_world_room_command(&mut self, cmd: WorldRoomCommand, did: Result<(String, bool), String>) -> (r: (String, bool))
        requires
            old(self).wf(),
        ensures
            final(self).wf(),
            r.0@ == room_cmd_reply(cmd, did, old(self).rooms@),
            match room_cmd_op(cmd, did) {
                Some((room, op)) => if old(self).rooms@.dom().contains(room) {
                    let o = old(self).rooms@[room];
                    let n = final(self).rooms@[room];
                    &&& r.1 == !denies_owner(o.acl, op)
                    &&& rooms_same_except(old(self).rooms@, final(self).rooms@, room)
                    &&& acl_after(o.acl, op, n.acl)
                    &&& n == (Room { acl: n.acl, ..o })
                } else {
                    !r.1 && final(self).rooms@ == old(self).rooms@
                },
                None => !r.1 && final(self).rooms@ == old(self).rooms@,
            },
            *final(self) == (World { rooms: final(self).rooms, ..*old(self) }),
            (cmd is AclOpen && old(self).rooms@.dom().contains(cmd->AclOpen_0@)) ==> ({
                let o = old(self).rooms@[cmd->AclOpen_0@].acl;
                let n = final(self).rooms@[cmd->AclOpen_0@].acl;
                &&& r.1
                &&& n.allow_set().contains(star())
                &&& forall|id: Seq<char>| !o.deny_set().contains(id) ==> #[trigger] n.admits(id)
            }),
            (cmd is AclClose && old(self).rooms@.dom().contains(cmd->AclClose_0@)) ==> ({
                let n = final(self).rooms@[cmd->AclClose_0@].acl;
                &&& r.1
                &&& !n.allow_set().contains(star())
            }),
            (cmd is AclAllow && did is Ok && old(self).rooms@.dom().contains(cmd->AclAllow_0@)) ==> ({
                let n = final(self).rooms@[cmd->AclAllow_0@].acl;
                &&& r.1
                &&& n.admits(did->Ok_0.0@)
            }),
            (cmd is AclDeny && did is Ok && old(self).rooms@.dom().contains(cmd->AclDeny_0@)) ==> ({
                let o = old(self).rooms@[cmd->AclDeny_0@].acl;
                let n = final(self).rooms@[cmd->AclDeny_0@].acl;
                let id = did->Ok_0.0@;
                !(o.owner is Some && o.owner->Some_0@ == id) ==> (r.1 && !n.admits(id))
            }),
            (cmd is Owner && did is Ok && did->Ok_0.1 && old(self).rooms@.dom().contains(cmd->Owner_0@)) ==> ({
                let n = final(self).rooms@[cmd->Owner_0@].acl;
                &&& r.1
                &&& n.owner == Some(did->Ok_0.0)
            }),
    {
        let ghost rooms0 = self.rooms@;
        match cmd {
            WorldRoomCommand::Usage => (String::from_str(
                "usage: @world.room <name> acl show|open|close|allow <did>|deny <did> | @world.room <name> owner <did:ma:...#fragment>",
            ), false),
            WorldRoomCommand::OwnerUsage(room) => (cat("usage: @world.room ", room.as_str(), " owner <did:ma:...#fragment>"), false),
            WorldRoomCommand::OwnerMissingFragment(_, d) => (cat("invalid owner DID '", d.as_str(), "': missing #fragment"), false),
            WorldRoomCommand::Owner(room, d) => match did {
                Err(e) => (cat4("invalid owner DID '", d.as_str(), "': ", e.as_str()), false),
                Ok((id, frag)) => {
                    if !frag {
                        return (cat("invalid owner DID '", d.as_str(), "': missing #fragment"), false);
                    }
                    let reply = cat4("room '", room.as_str(), "' owner set to ", id.as_str());
                    match self.update_room_acl(room.as_str(), AclOp::SetOwner(id)) {
                        None => (cat("room '", room.as_str(), "' not found"), false),
                        Some(_) => (reply, true),
                    }
                },
            },
            WorldRoomCommand::AclShow(room) => {
                let k = chars_of(room.as_str());
                match self.rooms.get(&k) {
                    None => (cat("room '", room.as_str(), "' not found"), false),
                    Some(rm) => {
                        let summary = rm.acl.summary();
                        let owner = match &rm.acl.owner {
                            Some(o) => o.clone(),
                            None => String::from_str("(none)"),
                        };
                        let mut v: Vec<char> = Vec::new();
                        append_lit(&mut v, "room '");
                        append_lit(&mut v, room.as_str());
                        append_lit(&mut v, "' acl: ");
                        append_lit(&mut v, summary.as_str());
                        append_lit(&mut v, " owner=");
                        append_lit(&mut v, owner.as_str());
                        proof {
                            reveal_strlit("(none)");
                        }
                        (string_of(&v), false)
                    },
                }
            },
            WorldRoomCommand::AclOpen(room) => match self.update_room_acl(room.as_str(), AclOp::Open) {
                None => (cat("room '", room.as_str(), "' not found"), false),
                Some(_) => {
                    proof {
                        law_open_admits_everyone_not_denied(rooms0[room@].acl, self.rooms@[room@].acl);
                    }
                    (cat("room '", room.as_str(), "' acl opened (public)"), true)
                },
            },
            WorldRoomCommand::AclClose(room) => match self.update_room_acl(room.as_str(), AclOp::Close) {
                None => (cat("room '", room.as_str(), "' not found"), false),
                Some(_) => {
                    proof {
                        law_close_removes_only_star(rooms0[room@].acl, self.rooms@[room@].acl);
                    }
                    (cat("room '", room.as_str(), "' acl closed (private)"), true)
                },
            },
            WorldRoomCommand::AclAllowUsage(room) => (cat("usage: @world.room ", room.as_str(), " acl allow <did>"), false),
            WorldRoomCommand::AclAllow(room, d) => match did {
                Err(e) => (cat4("invalid DID '", d.as_str(), "': ", e.as_str()), false),
                Ok((id, _)) => {
                    let reply = cat4("room '", room.as_str(), "' acl: allowed ", id.as_str());
                    let ghost gid = id;
                    match self.update_room_acl(room.as_str(), AclOp::Allow(id)) {
                        None => (cat("room '", room.as_str(), "' not found"), false),
                        Some(_) => {
                            proof {
                                law_allow_admits(rooms0[room@].acl, self.rooms@[room@].acl, gid);
                            }
                            (reply, true)
                        },
                    }
                },
            },
            WorldRoomCommand::AclDenyUsage(room) => (cat("usage: @world.room ", room.as_str(), " acl deny <did>"), false),
            WorldRoomCommand::AclDeny(room, d) => match did {
                Err(e) => (cat4("invalid DID '", d.as_str(), "': ", e.as_str()), false),
                Ok((id, _)) => {
                    let reply = cat4("room '", room.as_str(), "' acl: denied ", id.as_str());
                    let ghost gid = id;
                    match self.update_room_acl(room.as_str(), AclOp::Deny(id)) {
                        None => (cat("room '", room.as_str(), "' not found"), false),
                        Some(false) => (cat("room '", room.as_str(), "' owner cannot be denied"), false),
                        Some(true) => {
                            proof {
                                law_deny_refuses(rooms0[room@].acl, self.rooms@[room@].acl, gid);
                            }
                            (reply, true)
                        },
                    }
                },
            },
            WorldRoomCommand::AclUnknown(room, c) => {
                let mut v: Vec<char> = Vec::new();
                append_lit(&mut v, "unknown acl subcommand '");
                append_lit(&mut v, c.as_str());
                append_lit(&mut v, "'. usage: @world.room ");
                append_lit(&mut v, room.as_str());
                append_lit(&mut v, " acl show|open|close|allow <did>|deny <did>");
                (string_of(&v), false)
            },
        }
    }
}

} // verus!
