//! Rooms: their ACL, avatars, event log and dispatch queue.
use vstd::prelude::*;
use crate::acl::RoomAcl;
use crate::avatar::{Avatar, und, und_chars};
use crate::text::{
    append_chars, chars_of, class_pred, has_prefix, has_suffix, join, join_chars, slice_chars,
    split_by, split_class, string_of, trim, trim_white, upper, views, CharClass, starts_with_lit,
    ends_with_lit, skip_class, back_class,
};
use crate::text_map::{TextMap, lemma_wf_dom, lemma_wf_index};

verus! {

pub const DEFAULT_AVATAR_STATE_TTL_SECS: u64 = 30;

/// Work a room hands to the transport layer.
#[derive(Debug)]
pub enum RoomDispatchTask {
    PresenceSnapshot,
    PresenceRoomStateTo(String),
    PresenceRefreshRequest,
    RoomEventsSince(u64),
    WorldBroadcast(String),
}

/// One entry of a room's event log.
pub struct RoomEvent {
    pub sequence: u64,
    pub room: String,
    pub kind: String,
    pub sender: Option<String>,
    pub sender_did: Option<String>,
    pub sender_endpoint: Option<String>,
    pub message: String,
    pub message_cbor_b64: Option<String>,
    pub occurred_at: String,
}


pub fn clone_opt_string(o: &Option<String>) -> (r: Option<String>)
    ensures
        r == *o,
{
    match o {
        Some(s) => Some(s.clone()),
        None => None,
    }
}

impl RoomEvent {
    pub fn duplicate(&self) -> (r: Self)
        ensures
            r == *self,
    {
        RoomEvent {
            sequence: self.sequence,
            room: self.room.clone(),
            kind: self.kind.clone(),
            sender: clone_opt_string(&self.sender),
            sender_did: clone_opt_string(&self.sender_did),
            sender_endpoint: clone_opt_string(&self.sender_endpoint),
            message: self.message.clone(),
            message_cbor_b64: clone_opt_string(&self.message_cbor_b64),
            occurred_at: self.occurred_at.clone(),
        }
    }
}

/// A passage from one room to another.
pub struct Exit {
    pub id: String,
    pub name: String,
    pub to: String,
}

/// Runtime state of a room: presence, dispatch queue and bounded event log.
pub struct RoomState {
    /// Presence cache: avatar DID id to handle.
    pub avatars: TextMap<String>,
    /// Time to live of presence entries, in seconds.
    pub avatar_ttl_secs: u64,
    pub dispatch_queue: Vec<RoomDispatchTask>,
    pub events: Vec<RoomEvent>,
    pub next_event_sequence: u64,
}

impl RoomState {
    pub fn new(ttl_secs: u64) -> (r: Self)
        ensures
            r.avatars.wf(),
            r.avatars@ == Map::<Seq<char>, String>::empty(),
            r.avatar_ttl_secs == ttl_secs,
            r.dispatch_queue@.len() == 0,
            r.events@.len() == 0,
            r.next_event_sequence == 0,
    {
        RoomState {
            avatars: TextMap::new(),
            avatar_ttl_secs: ttl_secs,
            dispatch_queue: Vec::new(),
            events: Vec::new(),
            next_event_sequence: 0,
        }
    }

    /// A state with the default presence time to live.
    pub fn default_state() -> (r: Self)
        ensures
            r.avatars.wf(),
            r.avatars@ == Map::<Seq<char>, String>::empty(),
            r.avatar_ttl_secs == DEFAULT_AVATAR_STATE_TTL_SECS,
            r.dispatch_queue@.len() == 0,
            r.events@.len() == 0,
            r.next_event_sequence == 0,
    {
        Self::new(DEFAULT_AVATAR_STATE_TTL_SECS)
    }

    pub fn set_avatar_ttl(&mut self, ttl_secs: u64)
        ensures
            final(self).avatar_ttl_secs == ttl_secs,
            final(self).avatars == old(self).avatars,
            final(self).dispatch_queue == old(self).dispatch_queue,
            final(self).events == old(self).events,
            final(self).next_event_sequence == old(self).next_event_sequence,
    {
        self.avatar_ttl_secs = ttl_secs;
    }

    pub fn touch_avatar(&mut self, url: &str, handle: &str)
        requires
            old(self).avatars.wf(),
        ensures
            final(self).avatars.wf(),
            final(self).avatars@.dom() == old(self).avatars@.dom().insert(url@),
            final(self).avatars@[url@]@ == handle@,
            forall|k: Seq<char>| k != url@ ==> final(self).avatars@.dom().contains(k) ==> final(self).avatars@[k] == old(self).avatars@[k],
            final(self).avatar_ttl_secs == old(self).avatar_ttl_secs,
            final(self).dispatch_queue == old(self).dispatch_queue,
            final(self).events == old(self).events,
            final(self).next_event_sequence == old(self).next_event_sequence,
    {
        let k = chars_of(url);
        let v = String::from_str(handle);
        self.avatars.insert(k, v);
    }

    pub fn remove_avatar(&mut self, url: &str)
        requires
            old(self).avatars.wf(),
        ensures
            final(self).avatars.wf(),
            final(self).avatars@ == old(self).avatars@.remove(url@),
            final(self).avatar_ttl_secs == old(self).avatar_ttl_secs,
            final(self).dispatch_queue == old(self).dispatch_queue,
            final(self).events == old(self).events,
            final(self).next_event_sequence == old(self).next_event_sequence,
    {
        let k = chars_of(url);
        let _ = self.avatars.remove(&k);
    }

    pub fn enqueue_dispatch(&mut self, task: RoomDispatchTask)
        ensures
            final(self).dispatch_queue@ == old(self).dispatch_queue@.push(task),
            final(self).avatars == old(self).avatars,
            final(self).avatar_ttl_secs == old(self).avatar_ttl_secs,
            final(self).events == old(self).events,
            final(self).next_event_sequence == old(self).next_event_sequence,
    {
        self.dispatch_queue.push(task);
    }

    /// Takes every queued task, oldest first.
    pub fn drain_dispatch_queue(&mut self) -> (r: Vec<RoomDispatchTask>)
        ensures
            r@ == old(self).dispatch_queue@,
            final(self).dispatch_queue@.len() == 0,
            final(self).avatars == old(self).avatars,
            final(self).avatar_ttl_secs == old(self).avatar_ttl_secs,
            final(self).events == old(self).events,
            final(self).next_event_sequence == old(self).next_event_sequence,
    {
        let mut out: Vec<RoomDispatchTask> = Vec::new();
        std::mem::swap(&mut out, &mut self.dispatch_queue);
        out
    }

    /// Appends `entry`, first dropping the oldest event when `max_events` are held.
    pub fn push_event(&mut self, max_events: usize, entry: RoomEvent)
        ensures
            final(self).events@ == (if old(self).events@.len() >= max_events && old(
                self,
            ).events@.len() > 0 {
                old(self).events@.drop_first()
            } else {
                old(self).events@
            }).push(entry),
            old(self).events@.len() <= max_events && max_events >= 1 ==> final(self).events@.len()
                <= max_events,
            final(self).avatars == old(self).avatars,
            final(self).avatar_ttl_secs == old(self).avatar_ttl_secs,
            final(self).dispatch_queue == old(self).dispatch_queue,
            final(self).next_event_sequence == old(self).next_event_sequence,
    {
        if self.events.len() >= max_events && self.events.len() > 0 {
            let _ = self.events.remove(0);
        }
        self.events.push(entry);
    }
}

// ------------------------------------------------------------------
// room titles
// ------------------------------------------------------------------
/// Unicode uppercase mapping of one character (`char::to_uppercase`).
pub uninterp spec fn unicode_upper(c: char) -> Seq<char>;

/// Uppercases `c` with `char::to_uppercase`: the Unicode uppercase mapping, one or
/// more characters; an ASCII character maps to its ASCII uppercase form.
#[verifier::external_body]
fn char_to_uppercase(c: char) -> (r: Vec<char>)
    ensures
        r@ == unicode_upper(c),
        (c as u32) < 128 ==> r@ == seq![upper(c)],
{
    c.to_uppercase().collect()
}

pub open spec fn title_separators() -> Seq<char> {
    seq!['-', '_', ' ']
}

pub open spec fn title_word(p: Seq<char>) -> Seq<char> {
    unicode_upper(p[0]) + p.drop_first()
}

pub open spec fn room_text() -> Seq<char> {
    seq!['R', 'o', 'o', 'm']
}

/// The words of `name` (split at `-`, `_` and space, empty pieces dropped), each with
/// its first character uppercased, joined by single spaces; `Room` when there is none.
pub open spec fn default_room_title_spec(name: Seq<char>) -> Seq<char> {
    let words = split_by(name, |c: char| title_separators().contains(c)).filter(
        |p: Seq<char>| p.len() > 0,
    ).map_values(|p: Seq<char>| title_word(p));
    if words.len() == 0 {
        room_text()
    } else {
        join(words, seq![' '])
    }
}

pub fn default_room_title(name: &str) -> (r: String)
    ensures
        r@ == default_room_title_spec(name@),
{
    let v = chars_of(name);
    let mut seps: Vec<char> = Vec::new();
    seps.push('-');
    seps.push('_');
    seps.push(' ');
    let cc = CharClass::AnyOf(seps);
    let pieces = split_class(&v, &cc);
    proof {
        assert(seps@ =~= title_separators());
        assert(class_pred(cc) =~= (|c: char| title_separators().contains(c)));
    }
    let ghost pred = |p: Seq<char>| p.len() > 0;
    let ghost f = |p: Seq<char>| title_word(p);
    let ghost ps = views(pieces@);
    let mut words: Vec<Vec<char>> = Vec::new();
    let mut i: usize = 0;
    while i < pieces.len()
        invariant
            0 <= i <= pieces.len(),
            ps == views(pieces@),
            pred == (|p: Seq<char>| p.len() > 0),
            f == (|p: Seq<char>| title_word(p)),
            views(words@) == ps.subrange(0, i as int).filter(pred).map_values(f),
        decreases pieces.len() - i,
    {
        proof {
            ps.subrange(0, i as int).lemma_filter_push(ps[i as int], pred);
            assert(ps.subrange(0, i + 1) =~= ps.subrange(0, i as int).push(ps[i as int]));
        }
        let p = &pieces[i];
        if p.len() > 0 {
            let mut w = char_to_uppercase(p[0]);
            let rest = slice_chars(p, 1, p.len());
            append_chars(&mut w, &rest);
            let ghost before = views(words@);
            assert(w@ =~= title_word(p@));
            words.push(w);
            assert(views(words@) =~= before.push(title_word(p@)));
            assert(ps.subrange(0, i as int).filter(pred).push(ps[i as int]).map_values(f) =~= ps.subrange(0, i as int).filter(pred).map_values(f).push(f(ps[i as int])));
        }
        i = i + 1;
    }
    assert(ps.subrange(0, pieces.len() as int) =~= ps);
    if words.len() == 0 {
        let r = String::from_str("Room");
        proof {
            reveal_strlit("Room");
            assert("Room"@ =~= room_text());
        }
        return r;
    }
    let joined = join_chars(&words, " ");
    proof {
        reveal_strlit(" ");
        assert(" "@ =~= seq![' ']);
    }
    string_of(&joined)
}

// ------------------------------------------------------------------
// room inbox symbols
// ------------------------------------------------------------------
pub open spec fn room_dot() -> Seq<char> {
    seq!['r', 'o', 'o', 'm', '.']
}

pub open spec fn dot_inbox() -> Seq<char> {
    seq!['.', 'i', 'n', 'b', 'o', 'x']
}

/// The object of a `room.<object>.inbox` symbol: the trimmed text between `room.` and
/// `.inbox` of the trimmed symbol, when it is not empty.
pub open spec fn inbox_object(symbol: Seq<char>) -> Option<Seq<char>> {
    let t = trim(symbol);
    if has_prefix(t, room_dot()) && has_suffix(t.subrange(5, t.len() as int), dot_inbox()) {
        let o = trim(t.subrange(5, t.len() - 6));
        if o.len() > 0 {
            Some(o)
        } else {
            None
        }
    } else {
        None
    }
}

/// Parses `room.<object>.inbox` and returns the object part.
pub fn parse_room_inbox_symbol(symbol: &str) -> (r: Option<&str>)
    ensures
        match r {
            Some(o) => inbox_object(symbol@) == Some(o@),
            None => inbox_object(symbol@) is None,
        },
{
    let v = chars_of(symbol);
    let a = skip_class(&v, 0, &CharClass::White);
    let b = back_class(&v, a, v.len(), &CharClass::White);
    let t = slice_chars(&v, a, b);
    assert(t@ == trim(symbol@));
    if !starts_with_lit(&t, "room.") {
        proof {
            reveal_strlit("room.");
            assert("room."@ =~= room_dot());
        }
        return None;
    }
    proof {
        reveal_strlit("room.");
        assert("room."@ =~= room_dot());
    }
    let rest = slice_chars(&t, 5, t.len());
    if !ends_with_lit(&rest, ".inbox") {
        proof {
            reveal_strlit(".inbox");
            assert(".inbox"@ =~= dot_inbox());
        }
        return None;
    }
    proof {
        reveal_strlit(".inbox");
        assert(".inbox"@ =~= dot_inbox());
    }
    // object bounds inside `symbol`
    let lo = a + 5;
    let hi = b - 6;
    let mid = slice_chars(&v, lo, hi);
    assert(mid@ =~= t@.subrange(5, t@.len() - 6));
    let a2 = skip_class(&mid, 0, &CharClass::White);
    let b2 = back_class(&mid, a2, mid.len(), &CharClass::White);
    if a2 == b2 {
        return None;
    }
    let o = symbol.substring_char(lo + a2, lo + b2);
    assert(o@ =~= mid@.subrange(a2 as int, b2 as int));
    Some(o)
}


/// Age of `a` at `now` (zero when it was seen in the future) exceeds `stale_after`.
pub open spec fn avatar_is_stale(a: Avatar, now: u64, stale_after: u64) -> bool {
    (if now >= a.last_seen_at { now - a.last_seen_at } else { 0 }) > stale_after
}

// ------------------------------------------------------------------
// rooms
// ------------------------------------------------------------------
pub struct Room {
    pub name: String,
    pub titles: TextMap<String>,
    /// Avatars present, keyed by handle.
    pub avatars: TextMap<Avatar>,
    pub state: RoomState,
    pub exits: Vec<Exit>,
    pub acl: RoomAcl,
    pub descriptions: TextMap<String>,
    /// Full DID URL of the room (`did:ma:<ipns>#<room-id>`).
    pub url: String,
}

pub open spec fn no_description_text() -> Seq<char> {
    "(no description)"@
}

impl Room {
    pub open spec fn wf(&self) -> bool {
        &&& self.acl.distinct()
        &&& self.titles.wf()
        &&& self.avatars.wf()
        &&& self.descriptions.wf()
        &&& self.state.avatars.wf()
        &&& self.unique_dids()
        &&& forall|h: Seq<char>| #[trigger] self.avatars@.dom().contains(h) ==> self.avatars@[h].wf()
    }

    /// No DID is present under two handles.
    pub open spec fn unique_dids(&self) -> bool {
        forall|h1: Seq<char>, h2: Seq<char>|
            #![trigger self.avatars@[h1], self.avatars@[h2]]
            self.avatars@.dom().contains(h1) && self.avatars@.dom().contains(h2) && h1 != h2
                ==> self.avatars@[h1].agent_did@ != self.avatars@[h2].agent_did@
    }

    /// Whether an avatar with DID id `did` is present.
    pub open spec fn has_did(&self, did: Seq<char>) -> bool {
        exists|h: Seq<char>| #[trigger]
            self.avatars@.dom().contains(h) && self.avatars@[h].agent_did@ == did
    }

    pub fn new(name: String, url: String) -> (r: Self)
        ensures
            r.wf(),
            r.name == name,
            r.url == url,
            r.avatars@ == Map::<Seq<char>, Avatar>::empty(),
            r.titles@ == Map::<Seq<char>, String>::empty(),
            r.descriptions@ == Map::<Seq<char>, String>::empty(),
            r.exits@.len() == 0,
            r.acl.owner is None,
            r.acl.distinct(),
            forall|id: Seq<char>| r.acl.admits(id),
            r.state.events@.len() == 0,
            r.state.next_event_sequence == 0,
            r.state.avatar_ttl_secs == DEFAULT_AVATAR_STATE_TTL_SECS,
            r.state.dispatch_queue@.len() == 0,
    {
        Room {
            name,
            titles: TextMap::new(),
            avatars: TextMap::new(),
            state: RoomState::default_state(),
            exits: Vec::new(),
            acl: RoomAcl::open(),
            descriptions: TextMap::new(),
            url,
        }
    }

    pub fn set_title(&mut self, value: String)
        requires
            old(self).wf(),
        ensures
            final(self).wf(),
            final(self).titles@ == old(self).titles@.insert(und(), value),
            *final(self) == (Room { titles: final(self).titles, ..*old(self) }),
            final(self).avatars == old(self).avatars,
            final(self).name == old(self).name,
    {
        let k = und_chars();
        self.titles.insert(k, value);
    }

    pub fn set_description(&mut self, value: String)
        requires
            old(self).wf(),
        ensures
            final(self).wf(),
            final(self).descriptions@ == old(self).descriptions@.insert(und(), value),
            *final(self) == (Room { descriptions: final(self).descriptions, ..*old(self) }),
            final(self).avatars == old(self).avatars,
            final(self).name == old(self).name,
    {
        let k = und_chars();
        self.descriptions.insert(k, value);
    }

    /// The `und` description, or `(no description)`.
    pub fn description_or_default(&self) -> (r: String)
        requires
            self.wf(),
        ensures
            self.descriptions@.dom().contains(und()) ==> r == self.descriptions@[und()],
            !self.descriptions@.dom().contains(und()) ==> r@ == no_description_text(),
    {
        let k = und_chars();
        match self.descriptions.get(&k) {
            Some(v) => v.clone(),
            None => {
                let r = String::from_str("(no description)");
                proof {
                    reveal_strlit("(no description)");
                }
                r
            },
        }
    }

    /// The `und` title when it is not blank, else the title derived from the name.
    pub fn title_or_default(&self) -> (r: String)
        requires
            self.wf(),
        ensures
            (self.titles@.dom().contains(und()) && trim(self.titles@[und()]@).len() > 0) ==> r
                == self.titles@[und()],
            !(self.titles@.dom().contains(und()) && trim(self.titles@[und()]@).len() > 0) ==> r@
                == default_room_title_spec(self.name@),
    {
        let k = und_chars();
        match self.titles.get(&k) {
            Some(v) => {
                let c = chars_of(v.as_str());
                let t = trim_white(&c);
                if t.len() > 0 {
                    return v.clone();
                }
            },
            None => {},
        }
        default_room_title(self.name.as_str())
    }

    /// Adds `avatar` under its handle and records its presence.
    pub fn add_avatar(&mut self, avatar: Avatar)
        requires
            old(self).wf(),
            avatar.wf(),
            !old(self).has_did(avatar.agent_did@),
        ensures
            final(self).wf(),
            final(self).avatars@ == old(self).avatars@.insert(avatar.inbox@, avatar),
            final(self).state.avatars@.dom() == old(self).state.avatars@.dom().insert(
                avatar.agent_did@,
            ),
            final(self).name == old(self).name,
            final(self).acl == old(self).acl,
            final(self).url == old(self).url,
            final(self).state.events == old(self).state.events,
            final(self).state.next_event_sequence == old(self).state.next_event_sequence,
            final(self).state.dispatch_queue == old(self).state.dispatch_queue,
            final(self).state.avatar_ttl_secs == old(self).state.avatar_ttl_secs,
            *final(self) == (Room { avatars: final(self).avatars, state: final(self).state, ..*old(self) }),
    {
        self.state.touch_avatar(avatar.agent_did.as_str(), avatar.inbox.as_str());
        let k = chars_of(avatar.inbox.as_str());
        let ghost old_av = self.avatars@;
        let ghost a = avatar;
        self.avatars.insert(k, avatar);
        proof {
            assert forall|h1: Seq<char>, h2: Seq<char>|
                self.avatars@.dom().contains(h1) && self.avatars@.dom().contains(h2) && h1 != h2
                implies #[trigger] self.avatars@[h1].agent_did@ != #[trigger] self.avatars@[h2].agent_did@ by {
                if h1 != a.inbox@ && h2 != a.inbox@ {
                    assert(old_av[h1] == self.avatars@[h1]);
                } else if h1 == a.inbox@ {
                    assert(old_av.dom().contains(h2));
                } else {
                    assert(old_av.dom().contains(h1));
                }
            }
        }
    }

    /// Removes the avatar with handle `name`, and its presence entry.
    pub fn remove_avatar(&mut self, name: &str)
        requires
            old(self).wf(),
        ensures
            final(self).wf(),
            final(self).avatars@ == old(self).avatars@.remove(name@),
            old(self).avatars@.dom().contains(name@) ==> final(self).state.avatars@ == old(
                self,
            ).state.avatars@.remove(old(self).avatars@[name@].agent_did@),
            !old(self).avatars@.dom().contains(name@) ==> final(self).state.avatars == old(
                self,
            ).state.avatars,
            final(self).name == old(self).name,
            final(self).acl == old(self).acl,
            final(self).url == old(self).url,
            final(self).state.events == old(self).state.events,
            final(self).state.next_event_sequence == old(self).state.next_event_sequence,
            final(self).state.dispatch_queue == old(self).state.dispatch_queue,
            final(self).state.avatar_ttl_secs == old(self).state.avatar_ttl_secs,
    {
        let k = chars_of(name);
        match self.avatars.remove(&k) {
            Some(avatar) => {
                self.state.remove_avatar(avatar.agent_did.as_str());
            },
            None => {},
        }
    }

    /// Whether some avatar of the room is stale at `now`.
    pub open spec fn has_stale_avatar(&self, now: u64, stale_after: u64) -> bool {
        exists|h: Seq<char>| #[trigger] self.avatars@.dom().contains(h) && avatar_is_stale(self.avatars@[h], now, stale_after)
    }

    /// Removes the avatars not seen for more than `stale_after` seconds at `now`
    /// (presence entries stay); returns whether any was removed.
    pub fn remove_stale_avatars(&mut self, now: u64, stale_after: u64) -> (r: bool)
        requires
            old(self).wf(),
        ensures
            final(self).wf(),
            r == old(self).has_stale_avatar(now, stale_after),
            forall|h: Seq<char>| #[trigger] final(self).avatars@.dom().contains(h) <==> (old(self).avatars@.dom().contains(h)
                && !avatar_is_stale(old(self).avatars@[h], now, stale_after)),
            forall|h: Seq<char>| #[trigger] final(self).avatars@.dom().contains(h) ==> final(self).avatars@[h] == old(self).avatars@[h],
            *final(self) == (Room { avatars: final(self).avatars, ..*old(self) }),
    {
        let ghost o = self.avatars;
        proof {
            lemma_wf_dom(o);
        }
        let mut rest: Vec<(Vec<char>, Avatar)> = Vec::new();
        std::mem::swap(&mut rest, &mut self.avatars.entries);
        let ghost s = rest@;
        assert(s.len() == rest.len());
        let mut kept: TextMap<Avatar> = TextMap::new();
        let mut removed = false;
        let mut j: usize = 0;
        while rest.len() > 0
            invariant
                s == o.entries@,
                o.wf(),
                j <= s.len(),
                s.len() <= usize::MAX,
                rest@ == s.subrange(j as int, s.len() as int),
                kept.wf(),
                forall|k: Seq<char>| #[trigger] kept@.dom().contains(k) <==> exists|i: int|
                    0 <= i < j && s[i].0@ == k && !avatar_is_stale(s[i].1, now, stale_after),
                forall|k: Seq<char>| #[trigger] kept@.dom().contains(k) ==> o@.dom().contains(k) && kept@[k] == o@[k],
                removed <==> exists|i: int| 0 <= i < j && avatar_is_stale(#[trigger] s[i].1, now, stale_after),
            decreases rest.len(),
        {
            proof {
                assert(j < s.len());
            }
            let (k, a) = rest.remove(0);
            proof {
                assert(s[j as int] == (k, a));
                lemma_wf_index(o, j as int);
            }
            let age: u64 = if now >= a.last_seen_at { now - a.last_seen_at } else { 0 };
            if age > stale_after {
                removed = true;
            } else {
                proof {
                    assert(!kept@.dom().contains(k@)) by {
                        if kept@.dom().contains(k@) {
                            let i = choose|i: int| 0 <= i < j && s[i].0@ == k@ && !avatar_is_stale(s[i].1, now, stale_after);
                            assert(s[i].0@ != s[j as int].0@);
                        }
                    }
                }
                kept.insert(k, a);
            }
            proof {
                assert(rest@ =~= s.subrange(j + 1, s.len() as int));
            }
            j = j + 1;
        }
        let ghost kv = kept@;
        self.avatars = kept;
        proof {
            assert forall|h: Seq<char>| #[trigger] kv.dom().contains(h) <==> (o@.dom().contains(h)
                && !avatar_is_stale(o@[h], now, stale_after)) by {
                if o@.dom().contains(h) {
                    let i = choose|i: int| 0 <= i < s.len() && s[i].0@ == h;
                    lemma_wf_index(o, i);
                }
            }
            if removed {
                let i = choose|i: int| 0 <= i < j && avatar_is_stale(#[trigger] s[i].1, now, stale_after);
                lemma_wf_index(o, i);
                assert(o@.dom().contains(s[i].0@));
            }
            if old(self).has_stale_avatar(now, stale_after) {
                let h = choose|h: Seq<char>| #[trigger] o@.dom().contains(h) && avatar_is_stale(o@[h], now, stale_after);
                let i = choose|i: int| 0 <= i < s.len() && s[i].0@ == h;
                lemma_wf_index(o, i);
            }
            assert forall|h1: Seq<char>, h2: Seq<char>|
                kv.dom().contains(h1) && kv.dom().contains(h2) && h1 != h2
                implies #[trigger] kv[h1].agent_did@ != #[trigger] kv[h2].agent_did@ by {
                assert(o@[h1].agent_did@ != o@[h2].agent_did@);
            }
        }
        removed
    }
}

} // verus!
