//! Access control: room ACLs, actor ACLs and the world entry ACL.
use vstd::prelude::*;
use crate::text::{
    append_chars, chars_eq, chars_eq_ignore_case, chars_of, class_pred, eq_ignore_case, join, lower_seq,
    join_chars, seq_added, set_add, set_remove, split_by, split_class, string_of, strs, strs_contains, trim,
    trim_white, views, CharClass,
};

verus! {

/// The wildcard entry that opens a list to everyone.
pub open spec fn star() -> Seq<char> {
    seq!['*']
}

pub open spec fn comma_space() -> Seq<char> {
    seq![',', ' ']
}

pub open spec fn bang(d: Seq<char>) -> Seq<char> {
    seq!['!'] + d
}

fn star_chars() -> (r: Vec<char>)
    ensures
        r@ == star(),
{
    let mut v: Vec<char> = Vec::new();
    v.push('*');
    assert(v@ =~= star());
    v
}

fn bang_chars(d: &Vec<char>) -> (r: Vec<char>)
    ensures
        r@ == bang(d@),
{
    let mut v: Vec<char> = Vec::new();
    v.push('!');
    append_chars(&mut v, d);
    assert(v@ =~= bang(d@));
    v
}

fn join_comma(parts: &Vec<Vec<char>>) -> (r: Vec<char>)
    ensures
        r@ == join(views(parts@), comma_space()),
{
    let r = join_chars(parts, ", ");
    proof {
        reveal_strlit(", ");
        assert(", "@ =~= comma_space());
    }
    r
}

fn push_all_views(parts: &mut Vec<Vec<char>>, src: &Vec<String>)
    ensures
        views(final(parts)@) == views(old(parts)@) + strs(src@),
{
    let ghost start = views(parts@);
    let mut i: usize = 0;
    while i < src.len()
        invariant
            0 <= i <= src.len(),
            views(parts@) == start + strs(src@).subrange(0, i as int),
        decreases src.len() - i,
    {
        let c = chars_of(src[i].as_str());
        let ghost before = views(parts@);
        parts.push(c);
        assert(views(parts@) =~= before.push(src@[i as int]@));
        assert(strs(src@).subrange(0, i + 1) =~= strs(src@).subrange(0, i as int).push(
            src@[i as int]@,
        ));
        i = i + 1;
    }
    assert(strs(src@).subrange(0, src.len() as int) =~= strs(src@));
}

pub open spec fn banged(s: Seq<Seq<char>>) -> Seq<Seq<char>> {
    s.map_values(|d: Seq<char>| bang(d))
}

fn push_all_banged(parts: &mut Vec<Vec<char>>, src: &Vec<String>)
    ensures
        views(final(parts)@) == views(old(parts)@) + banged(strs(src@)),
{
    let ghost start = views(parts@);
    let mut i: usize = 0;
    while i < src.len()
        invariant
            0 <= i <= src.len(),
            views(parts@) == start + banged(strs(src@).subrange(0, i as int)),
        decreases src.len() - i,
    {
        let c = chars_of(src[i].as_str());
        let b = bang_chars(&c);
        let ghost before = views(parts@);
        parts.push(b);
        assert(views(parts@) =~= before.push(bang(src@[i as int]@)));
        assert(banged(strs(src@).subrange(0, i + 1)) =~= banged(strs(src@).subrange(0, i as int)).push(
            bang(src@[i as int]@),
        ));
        i = i + 1;
    }
    assert(strs(src@).subrange(0, src.len() as int) =~= strs(src@));
}

// ------------------------------------------------------------------
// room ACL
// ------------------------------------------------------------------
/// Access control list for a room.
/// Evaluation order: deny list, then allow list (with the `*` wildcard).
/// Owner access goes through ACL membership, never through a bypass.
pub struct RoomAcl {
    /// Root DID of the room owner.
    pub owner: Option<String>,
    /// Allowed identities; `*` opens the room.
    pub allow: Vec<String>,
    /// Denied identities; these take priority over the allow list.
    pub deny: Vec<String>,
}

#[derive(Debug)]
pub enum AclError {
    /// The room owner cannot be put on the deny list.
    OwnerCannotBeDenied,
}

impl RoomAcl {
    pub open spec fn allow_set(&self) -> Seq<Seq<char>> {
        strs(self.allow@)
    }

    pub open spec fn deny_set(&self) -> Seq<Seq<char>> {
        strs(self.deny@)
    }

    /// Both lists are free of repeats, as the sets they stand for.
    pub open spec fn distinct(&self) -> bool {
        self.allow_set().no_duplicates() && self.deny_set().no_duplicates()
    }

    /// Whether `id` may enter: not denied, and allowed by name or by `*`.
    pub open spec fn admits(&self, id: Seq<char>) -> bool {
        !self.deny_set().contains(id) && (self.allow_set().contains(star())
            || self.allow_set().contains(id))
    }

    pub open spec fn summary_parts(&self) -> Seq<Seq<char>> {
        (if self.allow_set().contains(star()) {
            seq![star()]
        } else {
            Seq::<Seq<char>>::empty()
        }) + self.allow_set().filter(|d: Seq<char>| d != star()) + banged(self.deny_set())
    }

    /// `*` for a fully open room; otherwise `*`, the named entries and `!`-marked
    /// denials, joined by `, `.
    pub open spec fn summary_text(&self) -> Seq<char> {
        if self.allow_set().contains(star()) && self.deny@.len() == 0 {
            star()
        } else {
            join(self.summary_parts(), comma_space())
        }
    }

    /// Open room (lobby default): everyone welcome, no owner.
    pub fn open() -> (r: Self)
        ensures
            r.owner is None,
            r.allow_set() == seq![star()],
            r.deny@.len() == 0,
            r.distinct(),
            forall|id: Seq<char>| r.admits(id),
    {
        let mut allow: Vec<String> = Vec::new();
        allow.push(String::from_str("*"));
        let r = RoomAcl { owner: None, allow, deny: Vec::new() };
        proof {
            reveal_strlit("*");
            assert("*"@ =~= star());
            assert(r.allow_set() =~= seq![star()]);
            assert(r.allow_set()[0] == star());
            assert(r.deny_set() =~= Seq::<Seq<char>>::empty());
        }
        r
    }

    /// Returns `true` if `identity` is allowed to enter this room.
    pub fn can_enter(&self, identity: &str) -> (r: bool)
        ensures
            r == self.admits(identity@),
    {
        let id = chars_of(identity);
        if strs_contains(&self.deny, &id) {
            return false;
        }
        let st = star_chars();
        strs_contains(&self.allow, &st) || strs_contains(&self.allow, &id)
    }

    /// Human-readable summary for status and log display.
    pub fn summary(&self) -> (r: String)
        ensures
            r@ == self.summary_text(),
    {
        let st = star_chars();
        let has_star = strs_contains(&self.allow, &st);
        if has_star && self.deny.len() == 0 {
            return string_of(&st);
        }
        let mut parts: Vec<Vec<char>> = Vec::new();
        if has_star {
            parts.push(star_chars());
        }
        let ghost head = views(parts@);
        let ghost pred = |d: Seq<char>| d != star();
        let mut i: usize = 0;
        while i < self.allow.len()
            invariant
                0 <= i <= self.allow.len(),
                st@ == star(),
                pred == (|d: Seq<char>| d != star()),
                views(parts@) == head + self.allow_set().subrange(0, i as int).filter(pred),
            decreases self.allow.len() - i,
        {
            let c = chars_of(self.allow[i].as_str());
            proof {
                self.allow_set().subrange(0, i as int).lemma_filter_push(self.allow_set()[i as int], pred);
                assert(self.allow_set().subrange(0, i + 1) =~= self.allow_set().subrange(0, i as int).push(
                    self.allow_set()[i as int],
                ));
            }
            if !chars_eq(&c, &st) {
                let ghost before = views(parts@);
                parts.push(c);
                assert(views(parts@) =~= before.push(self.allow_set()[i as int]));
            }
            i = i + 1;
        }
        assert(self.allow_set().subrange(0, self.allow.len() as int) =~= self.allow_set());
        push_all_banged(&mut parts, &self.deny);
        proof {
            if has_star {
                assert(head =~= seq![star()]);
            } else {
                assert(head =~= Seq::<Seq<char>>::empty());
            }
            assert(views(parts@) =~= self.summary_parts());
        }
        let joined = join_comma(&parts);
        string_of(&joined)
    }

    /// Makes `did` the owner: it joins the allow list and leaves the deny list.
    pub fn set_owner(&mut self, did: String)
        ensures
            final(self).owner == Some(did),
            final(self).allow_set() == seq_added(old(self).allow_set(), did@),
            final(self).allow_set().contains(did@),
            final(self).admits(did@),
            final(self).deny_set() == old(self).deny_set().filter(|e: Seq<char>| e != did@),
            forall|e: Seq<char>| old(self).allow_set().contains(e) ==> final(self).allow_set().contains(e),
            old(self).distinct() ==> final(self).distinct(),
    {
        let d = chars_of(did.as_str());
        let owner = did.clone();
        set_add(&mut self.allow, did);
        set_remove(&mut self.deny, &d);
        self.owner = Some(owner);
    }

    /// Opens the room to everyone not denied.
    pub fn open_access(&mut self)
        ensures
            final(self).owner == old(self).owner,
            final(self).deny@ == old(self).deny@,
            final(self).allow_set() == seq_added(old(self).allow_set(), star()),
            final(self).allow_set().contains(star()),
            forall|id: Seq<char>| !final(self).deny_set().contains(id) ==> final(self).admits(id),
            old(self).distinct() ==> final(self).distinct(),
    {
        let s = String::from_str("*");
        proof {
            reveal_strlit("*");
            assert("*"@ =~= star());
        }
        set_add(&mut self.allow, s);
    }

    /// Closes the room: only named identities may enter.
    pub fn close_access(&mut self)
        ensures
            final(self).owner == old(self).owner,
            final(self).deny@ == old(self).deny@,
            final(self).allow_set() == old(self).allow_set().filter(|e: Seq<char>| e != star()),
            forall|id: Seq<char>| id != star() ==> (final(self).admits(id) == (!final(self).deny_set().contains(id) && old(self).allow_set().contains(id))),
            old(self).distinct() ==> final(self).distinct(),
    {
        let st = star_chars();
        set_remove(&mut self.allow, &st);
        assert((|e: Seq<char>| e != st@) =~= (|e: Seq<char>| e != star()));
    }

    /// Allows `did` explicitly and lifts any denial of it.
    pub fn allow_identity(&mut self, did: String)
        ensures
            final(self).owner == old(self).owner,
            final(self).admits(did@),
            final(self).allow_set() == seq_added(old(self).allow_set(), did@),
            final(self).allow_set().contains(did@),
            final(self).deny_set() == old(self).deny_set().filter(|e: Seq<char>| e != did@),
            old(self).distinct() ==> final(self).distinct(),
    {
        let d = chars_of(did.as_str());
        set_add(&mut self.allow, did);
        set_remove(&mut self.deny, &d);
    }

    /// Denies `did` and removes it from the allow list, unless it is the owner.
    pub fn deny_identity(&mut self, did: String) -> (r: Result<(), AclError>)
        ensures
            r is Err <==> (old(self).owner is Some && old(self).owner->Some_0@ == did@),
            r is Err ==> *final(self) == *old(self),
            r is Ok ==> {
                &&& !final(self).admits(did@)
                &&& final(self).deny_set().contains(did@)
                &&& final(self).deny_set() == seq_added(old(self).deny_set(), did@)
                &&& final(self).allow_set() == old(self).allow_set().filter(|e: Seq<char>| e != did@)
                &&& final(self).owner == old(self).owner
            },
            old(self).distinct() ==> final(self).distinct(),
    {
        let d = chars_of(did.as_str());
        let is_owner = match &self.owner {
            Some(o) => {
                let oc = chars_of(o.as_str());
                chars_eq(&oc, &d)
            },
            None => false,
        };
        if is_owner {
            return Err(AclError::OwnerCannotBeDenied);
        }
        set_add(&mut self.deny, did);
        set_remove(&mut self.allow, &d);
        Ok(())
    }
}

// ------------------------------------------------------------------
// actor ACL
// ------------------------------------------------------------------
pub struct ActorAcl {
    pub allow_all: bool,
    pub allow: Vec<String>,
    pub deny: Vec<String>,
}

pub open spec fn none_text() -> Seq<char> {
    seq!['(', 'n', 'o', 'n', 'e', ')']
}

impl ActorAcl {
    pub open spec fn summary_parts(&self) -> Seq<Seq<char>> {
        (if self.allow_all {
            seq![star()]
        } else {
            Seq::<Seq<char>>::empty()
        }) + strs(self.allow@) + banged(strs(self.deny@))
    }

    /// `(none)` when nothing is listed, else `*`, the allowed and the `!`-marked
    /// denied entries, joined by `, `.
    pub open spec fn summary_text(&self) -> Seq<char> {
        if self.summary_parts().len() == 0 {
            none_text()
        } else {
            join(self.summary_parts(), comma_space())
        }
    }

    pub fn open() -> (r: Self)
        ensures
            r.allow_all,
            r.allow@.len() == 0,
            r.deny@.len() == 0,
    {
        ActorAcl { allow_all: true, allow: Vec::new(), deny: Vec::new() }
    }

    pub fn summary(&self) -> (r: String)
        ensures
            r@ == self.summary_text(),
    {
        let mut parts: Vec<Vec<char>> = Vec::new();
        if self.allow_all {
            parts.push(star_chars());
        }
        let ghost head = views(parts@);
        push_all_views(&mut parts, &self.allow);
        push_all_banged(&mut parts, &self.deny);
        proof {
            if self.allow_all {
                assert(head =~= seq![star()]);
            } else {
                assert(head =~= Seq::<Seq<char>>::empty());
            }
            assert(views(parts@) =~= self.summary_parts());
        }
        if parts.len() == 0 {
            let r = String::from_str("(none)");
            proof {
                reveal_strlit("(none)");
                assert("(none)"@ =~= none_text());
            }
            return r;
        }
        let joined = join_comma(&parts);
        string_of(&joined)
    }
}

// ------------------------------------------------------------------
// world entry ACL
// ------------------------------------------------------------------
/// Who may enter the world: everyone, the owner, and/or listed DIDs.
pub struct EntryAcl {
    pub allow_all: bool,
    pub allow_owner: bool,
    pub allowed_dids: Vec<String>,
    pub source: String,
}

#[derive(Debug)]
pub enum EntryAclError {
    /// The ACL text holds no token at all.
    Empty,
    /// A token that is neither `*` nor `owner` is not a valid DID.
    InvalidDid(String),
    /// Nothing at all is allowed.
    NothingAllowed,
}

pub open spec fn owner_word() -> Seq<char> {
    seq!['o', 'w', 'n', 'e', 'r']
}

/// The comma-separated tokens of an entry ACL, trimmed, empty ones dropped.
pub open spec fn entry_tokens(raw: Seq<char>) -> Seq<Seq<char>> {
    split_by(raw, class_pred(CharClass::Is(','))).map_values(|t: Seq<char>| trim(t)).filter(
        |t: Seq<char>| t.len() > 0,
    )
}

pub open spec fn is_star_token(t: Seq<char>) -> bool {
    t == star()
}

pub open spec fn is_owner_token(t: Seq<char>) -> bool {
    eq_ignore_case(t, owner_word())
}

pub open spec fn is_did_token(t: Seq<char>) -> bool {
    !is_star_token(t) && !is_owner_token(t)
}

pub open spec fn runtime_public_source() -> Seq<char> {
    "runtime:public(+allowlist)"@
}

pub open spec fn runtime_private_source() -> Seq<char> {
    "runtime:private(+allowlist)"@
}

impl EntryAcl {
    pub open spec fn did_set(&self) -> Seq<Seq<char>> {
        strs(self.allowed_dids@)
    }

    /// World entry decision: everyone, the owner (when the owner token is set),
    /// or a listed DID.
    pub open spec fn admits(&self, did_id: Seq<char>, owner: Option<Seq<char>>) -> bool {
        self.allow_all || (self.allow_owner && owner == Some(did_id)) || self.did_set().contains(
            did_id,
        )
    }

    pub fn can_enter(&self, did_id: &str, owner: &Option<String>) -> (r: bool)
        ensures
            r == self.admits(
                did_id@,
                match owner {
                    Some(o) => Some(o@),
                    None => None,
                },
            ),
    {
        if self.allow_all {
            return true;
        }
        let d = chars_of(did_id);
        if self.allow_owner {
            match owner {
                Some(o) => {
                    let oc = chars_of(o.as_str());
                    if chars_eq(&oc, &d) {
                        return true;
                    }
                },
                None => {},
            }
        }
        strs_contains(&self.allowed_dids, &d)
    }

    /// Adds `did` to the allow list and marks the ACL as changed at runtime.
    pub fn allow_did(&mut self, did: String)
        ensures
            final(self).allow_all == old(self).allow_all,
            final(self).allow_owner == old(self).allow_owner,
            final(self).did_set().contains(did@),
            forall|e: Seq<char>| old(self).did_set().contains(e) ==> final(self).did_set().contains(e),
            forall|e: Seq<char>| final(self).did_set().contains(e) ==> (old(self).did_set().contains(e) || e == did@),
            old(self).did_set().no_duplicates() ==> final(self).did_set().no_duplicates(),
            final(self).source@ == (if old(self).allow_all {
                runtime_public_source()
            } else {
                runtime_private_source()
            }),
    {
        set_add(&mut self.allowed_dids, did);
        if self.allow_all {
            self.source = String::from_str("runtime:public(+allowlist)");
        } else {
            self.source = String::from_str("runtime:private(+allowlist)");
        }
    }
}

/// The tokens of an entry ACL, in order (see `entry_tokens`).
pub fn entry_acl_tokens(raw: &str) -> (r: Vec<String>)
    ensures
        strs(r@) == entry_tokens(raw@),
{
    let v = chars_of(raw);
    let pieces = split_class(&v, &CharClass::Is(','));
    let ghost trimmed = views(pieces@).map_values(|t: Seq<char>| trim(t));
    let ghost pred = |t: Seq<char>| t.len() > 0;
    let mut out: Vec<String> = Vec::new();
    let mut i: usize = 0;
    while i < pieces.len()
        invariant
            0 <= i <= pieces.len(),
            trimmed == views(pieces@).map_values(|t: Seq<char>| trim(t)),
            pred == (|t: Seq<char>| t.len() > 0),
            strs(out@) == trimmed.subrange(0, i as int).filter(pred),
        decreases pieces.len() - i,
    {
        let t = trim_white(&pieces[i]);
        proof {
            trimmed.subrange(0, i as int).lemma_filter_push(trimmed[i as int], pred);
            assert(trimmed.subrange(0, i + 1) =~= trimmed.subrange(0, i as int).push(trimmed[i as int]));
            assert(t@ == trimmed[i as int]);
        }
        if t.len() > 0 {
            let ghost before = strs(out@);
            out.push(string_of(&t));
            assert(strs(out@) =~= before.push(t@));
        }
        i = i + 1;
    }
    assert(trimmed.subrange(0, pieces.len() as int) =~= trimmed);
    out
}

/// Index of the first DID token (neither `*` nor `owner`) whose DID did not parse.
pub open spec fn first_bad_did(toks: Seq<Seq<char>>, ids: Seq<Option<String>>) -> Option<int> {
    if exists|i: int| 0 <= i < toks.len() && is_did_token(toks[i]) && ids[i] is None {
        Some(
            choose|i: int|
                0 <= i < toks.len() && is_did_token(toks[i]) && ids[i] is None && forall|j: int|
                    0 <= j < i ==> !(is_did_token(toks[j]) && ids[j] is None),
        )
    } else {
        None
    }
}

/// Parses the world entry ACL `raw` (`*`, `owner`, or DIDs, comma separated).
/// `did_ids[i]` is the canonical DID id of the `i`-th token of `entry_acl_tokens(raw)`,
/// or `None` when that token is not a valid DID; it is read only for tokens that are
/// neither `*` nor `owner`.
pub fn parse_entry_acl(raw: &str, did_ids: &Vec<Option<String>>) -> (r: Result<
    EntryAcl,
    EntryAclError,
>)
    requires
        did_ids@.len() == entry_tokens(raw@).len(),
    ensures
        (r matches Err(EntryAclError::Empty)) <==> entry_tokens(raw@).len() == 0,
        r matches Err(EntryAclError::InvalidDid(t)) ==> (entry_tokens(raw@).len() > 0
            && first_bad_did(entry_tokens(raw@), did_ids@) is Some && t@ == entry_tokens(
            raw@,
        )[first_bad_did(entry_tokens(raw@), did_ids@)->Some_0]),
        (entry_tokens(raw@).len() > 0 && first_bad_did(entry_tokens(raw@), did_ids@) is Some) ==> (
        r matches Err(EntryAclError::InvalidDid(_))),
        !(r matches Err(EntryAclError::NothingAllowed)),
        (entry_tokens(raw@).len() > 0 && first_bad_did(entry_tokens(raw@), did_ids@) is None)
            <==> r is Ok,
        r matches Ok(acl) ==> {
            let toks = entry_tokens(raw@);
            &&& acl.allow_all == toks.contains(star())
            &&& acl.allow_owner == (exists|i: int|
                0 <= i < toks.len() && is_owner_token(#[trigger] toks[i]))
            &&& acl.did_set().no_duplicates()
            &&& forall|e: Seq<char>|
                acl.did_set().contains(e) <==> exists|i: int|
                    0 <= i < toks.len() && is_did_token(#[trigger] toks[i]) && did_ids@[i] is Some
                        && did_ids@[i]->Some_0@ == e
            &&& acl.source@ == trim(raw@)
        },
{
    let tokens = entry_acl_tokens(raw);
    let ghost toks = entry_tokens(raw@);
    if tokens.len() == 0 {
        return Err(EntryAclError::Empty);
    }
    let st = star_chars();
    let ow = chars_of("owner");
    proof {
        reveal_strlit("owner");
        assert(ow@ =~= owner_word());
    }
    let mut allow_all = false;
    let mut owner_present = false;
    let mut dids: Vec<String> = Vec::new();
    let mut i: usize = 0;
    while i < tokens.len()
        invariant
            0 <= i <= tokens.len(),
            strs(tokens@) == toks,
            toks == entry_tokens(raw@),
            toks.len() == did_ids@.len(),
            st@ == star(),
            ow@ == owner_word(),
            allow_all == (exists|j: int| 0 <= j < i && toks[j] == star()),
            owner_present == (exists|j: int| 0 <= j < i && is_owner_token(#[trigger] toks[j])),
            forall|j: int| 0 <= j < i ==> !(is_did_token(toks[j]) && did_ids@[j] is None),
            strs(dids@).no_duplicates(),
            forall|e: Seq<char>|
                strs(dids@).contains(e) <==> exists|j: int|
                    0 <= j < i && is_did_token(#[trigger] toks[j]) && did_ids@[j] is Some
                        && did_ids@[j]->Some_0@ == e,
        decreases tokens.len() - i,
    {
        let t = chars_of(tokens[i].as_str());
        assert(t@ == toks[i as int]);
        if chars_eq(&t, &st) {
            assert(lower_seq(t@).len() == 1);
            assert(lower_seq(owner_word()).len() == 5);
            allow_all = true;
        } else if chars_eq_ignore_case(&t, &ow) {
            owner_present = true;
        } else {
            match &did_ids[i] {
                Some(id) => {
                    let ghost before = strs(dids@);
                    set_add(&mut dids, id.clone());
                    proof {
                        assert forall|e: Seq<char>|
                            strs(dids@).contains(e) <==> exists|j: int|
                                0 <= j < i + 1 && is_did_token(#[trigger] toks[j]) && did_ids@[j] is Some
                                    && did_ids@[j]->Some_0@ == e by {
                            if strs(dids@).contains(e) && e != id@ {
                                assert(before.contains(e)) by {
                                    if !before.contains(e) {
                                        assert(strs(dids@) == before || strs(dids@) == before.push(id@));
                                        if strs(dids@) == before.push(id@) {
                                            let k = choose|k: int| 0 <= k < strs(dids@).len() && strs(dids@)[k] == e;
                                            assert(k < before.len());
                                            assert(before[k] == e);
                                        }
                                    }
                                }
                            }
                            if e == id@ {
                                assert(is_did_token(toks[i as int]));
                            }
                        }
                    }
                },
                None => {
                    proof {
                        let w = i as int;
                        assert(is_did_token(toks[w]) && did_ids@[w] is None && forall|j: int|
                            0 <= j < w ==> !(is_did_token(toks[j]) && did_ids@[j] is None));
                        assert(first_bad_did(toks, did_ids@) is Some);
                        let c = first_bad_did(toks, did_ids@)->Some_0;
                        assert(c == w) by {
                            if c < w {
                            } else if c > w {
                            }
                        }
                    }
                    let bad = tokens[i].clone();
                    assert(bad@ == strs(tokens@)[i as int]);
                    assert(first_bad_did(toks, did_ids@) == Some(i as int));
                    return Err(EntryAclError::InvalidDid(bad));
                },
            }
        }
        i = i + 1;
    }
    proof {
        assert(first_bad_did(toks, did_ids@) is None);
        assert(toks.contains(star()) == allow_all) by {
            if toks.contains(star()) {
                let k = choose|k: int| 0 <= k < toks.len() && toks[k] == star();
            }
        }
    }
    if !allow_all && dids.len() == 0 && !owner_present {
        proof {
            // the first token is either `*`, `owner`, or a parsed DID
            assert(is_did_token(toks[0]) ==> did_ids@[0] is Some);
            if is_did_token(toks[0]) {
                assert(strs(dids@).contains(did_ids@[0]->Some_0@));
            }
        }
        return Err(EntryAclError::NothingAllowed);
    }
    let rv = chars_of(raw);
    let src = trim_white(&rv);
    Ok(EntryAcl { allow_all, allow_owner: owner_present, allowed_dids: dids, source: string_of(&src) })
}


/// A denied identity never enters a room, whatever the allow list says; with `*` allowed,
/// every identity that is not denied enters.
pub proof fn law_room_deny_wins(acl: RoomAcl, id: Seq<char>)
    ensures
        acl.deny_set().contains(id) ==> !acl.admits(id),
        acl.allow_set().contains(star()) && !acl.deny_set().contains(id) ==> acl.admits(id),
{
}

/// With `*`, the world lets everyone in; a listed DID always enters; the owner enters
/// when the owner token is set.
pub proof fn law_entry_acl_admits(acl: EntryAcl, did: Seq<char>, owner: Option<Seq<char>>)
    ensures
        acl.allow_all ==> acl.admits(did, owner),
        acl.did_set().contains(did) ==> acl.admits(did, owner),
        acl.allow_owner && owner == Some(did) ==> acl.admits(did, owner),
        !acl.allow_all && !acl.did_set().contains(did) && !(acl.allow_owner && owner == Some(did)) ==> !acl.admits(did, owner),
{
}

} // verus!
