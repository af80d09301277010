//! The world: rooms, avatar membership, handles and the entry ACL.
use vstd::prelude::*;
use crate::acl::EntryAcl;
use crate::codec::{b64_encode, base64_standard};
use crate::knock::{KnockError, KnockInbox, KnockMessage, kept_at};
use crate::keys::WorldRuntimeSecrets;
use crate::exits::IncomingExitRef;
use crate::registry::AvatarRegistryEntry;
use crate::avatar::{Avatar, AvatarRequest};
use crate::room::{Room, RoomDispatchTask, RoomEvent, RoomState, avatar_is_stale};
use crate::text::{append_lit, chars_eq, chars_of, class_pred, is_ascii_alnum, slice_chars, str_eq,
    string_of, strs, trim, trim_start_by, trim_start_class, trim_white, CharClass,
};
use crate::text_map::{TextMap, keys_of, lemma_wf_dom, lemma_wf_index};

verus! {

pub const DEFAULT_ROOM: &'static str = "lobby";

pub const MAX_EVENTS: usize = 200;

pub const PRESENCE_STALE_AFTER_SECS_DEFAULT: u64 = 30;

/// Failures of world operations.
#[derive(Debug)]
pub enum WorldError {
    /// Room ids must be made of `[A-Za-z0-9_-]`, at least one.
    InvalidRoomId(String),
    RoomExists(String),
    RoomNotFound(String),
    /// The room ACL refused the DID.
    RoomAclDenied(String),
    /// The sender is not present in the room.
    SenderNotInRoom(String),
}

pub open spec fn is_id_char(c: char) -> bool {
    is_ascii_alnum(c) || c == '_' || c == '-'
}

/// A nanoid-compatible id: non-empty, made of `[A-Za-z0-9_-]`.
pub open spec fn valid_nanoid_id(s: Seq<char>) -> bool {
    s.len() > 0 && forall|i: int| 0 <= i < s.len() ==> is_id_char(#[trigger] s[i])
}

pub fn is_valid_nanoid_id(v: &Vec<char>) -> (r: bool)
    ensures
        r == valid_nanoid_id(v@),
{
    if v.len() == 0 {
        return false;
    }
    let mut i: usize = 0;
    while i < v.len()
        invariant
            0 <= i <= v.len(),
            forall|j: int| 0 <= j < i ==> is_id_char(#[trigger] v@[j]),
        decreases v.len() - i,
    {
        let c = v[i];
        if !(('A' <= c && c <= 'Z') || ('a' <= c && c <= 'z') || ('0' <= c && c <= '9') || c
            == '_' || c == '-') {
            assert(!is_id_char(v@[i as int]));
            return false;
        }
        i = i + 1;
    }
    true
}

pub open spec fn did_prefix() -> Seq<char> {
    seq!['d', 'i', 'd', ':', 'm', 'a', ':']
}

/// `did:ma:<ipns>#<fragment>`.
pub open spec fn world_did_text(ipns: Seq<char>, fragment: Seq<char>) -> Seq<char> {
    did_prefix() + ipns + seq!['#'] + fragment
}

pub open spec fn unconfigured() -> Seq<char> {
    "unconfigured"@
}

pub fn world_did_string(ipns: &str, fragment: &str) -> (r: String)
    ensures
        r@ == world_did_text(ipns@, fragment@),
{
    let mut v: Vec<char> = Vec::new();
    append_lit(&mut v, "did:ma:");
    append_lit(&mut v, ipns);
    v.push('#');
    append_lit(&mut v, fragment);
    proof {
        reveal_strlit("did:ma:");
        assert(v@ =~= world_did_text(ipns@, fragment@));
    }
    string_of(&v)
}

/// Whether some room of `rooms` holds an avatar with DID id `did`.
pub open spec fn any_room_has_did(rooms: Map<Seq<char>, Room>, did: Seq<char>) -> bool {
    exists|r: Seq<char>| #[trigger] rooms.dom().contains(r) && rooms[r].has_did(did)
}

/// Each DID is present in at most one room (within a room, `Room::wf` keeps it under
/// one handle).
pub open spec fn single_membership(rooms: Map<Seq<char>, Room>) -> bool {
    forall|r1: Seq<char>, r2: Seq<char>, d: Seq<char>|
        rooms.dom().contains(r1) && rooms.dom().contains(r2) && r1 != r2 && #[trigger] rooms[r1].has_did(d)
            ==> !#[trigger] rooms[r2].has_did(d)
}


// ------------------------------------------------------------------
// handles
// ------------------------------------------------------------------
/// A handle as written by a client: trimmed, leading `@`s removed.
pub open spec fn strip_handle(s: Seq<char>) -> Seq<char> {
    trim_start_by(trim(s), class_pred(CharClass::Is('@')))
}

/// A map of strings taken by the values' character sequences.
pub open spec fn sview(m: Map<Seq<char>, String>) -> Map<Seq<char>, Seq<char>> {
    Map::new(|k: Seq<char>| m.dom().contains(k), |k: Seq<char>| m[k]@)
}

/// `h` is unassigned, or already assigned to `did`.
pub open spec fn free_for(h2d: Map<Seq<char>, Seq<char>>, h: Seq<char>, did: Seq<char>) -> bool {
    !h2d.dom().contains(h) || h2d[h] == did
}

/// The preferred handle, stripped, when it is a valid nanoid.
pub open spec fn preferred_candidate(preferred: Option<Seq<char>>) -> Option<Seq<char>> {
    match preferred {
        Some(p) => if valid_nanoid_id(strip_handle(p)) {
            Some(strip_handle(p))
        } else {
            None
        },
        None => None,
    }
}

/// The last four characters of a DID (all of it when shorter).
pub open spec fn did_tail(did: Seq<char>) -> Seq<char> {
    if did.len() >= 4 { did.subrange(did.len() - 4, did.len() as int) } else { did }
}

/// The first candidate for a DID's handle: the preferred handle when valid, else the DID
/// fragment when valid.
pub open spec fn first_candidate(preferred: Option<Seq<char>>, fragment: Seq<char>) -> Option<Seq<char>> {
    let p = preferred_candidate(preferred);
    let f = strip_handle(fragment);
    if p is Some { p } else if valid_nanoid_id(f) { Some(f) } else { None }
}

/// The handle a DID without one gets: the preferred handle, else the DID fragment,
/// whichever is valid and not held by another DID; on a collision, the first candidate
/// with the DID's last four characters appended (when that is free); else the DID itself.
pub open spec fn new_handle(
    h2d: Map<Seq<char>, Seq<char>>,
    did: Seq<char>,
    preferred: Option<Seq<char>>,
    fragment: Seq<char>,
) -> Seq<char> {
    let p = preferred_candidate(preferred);
    let f = strip_handle(fragment);
    if p is Some && free_for(h2d, p->Some_0, did) {
        p->Some_0
    } else if valid_nanoid_id(f) && free_for(h2d, f, did) {
        f
    } else {
        match first_candidate(preferred, fragment) {
            Some(b) => if free_for(h2d, b + did_tail(did), did) { b + did_tail(did) } else { did },
            None => did,
        }
    }
}

/// Handle registration for `did`: the handle, and the handle-to-DID and DID-to-handle
/// maps after it. A DID that has a handle keeps it, with a legacy `@` prefix removed.
pub open spec fn registration(
    h2d: Map<Seq<char>, Seq<char>>,
    d2h: Map<Seq<char>, Seq<char>>,
    did: Seq<char>,
    preferred: Option<Seq<char>>,
    fragment: Seq<char>,
) -> (Seq<char>, Map<Seq<char>, Seq<char>>, Map<Seq<char>, Seq<char>>) {
    if d2h.dom().contains(did) {
        let e = d2h[did];
        let n = strip_handle(e);
        if n.len() > 0 && n != e {
            (n, h2d.remove(e).insert(n, did), d2h.insert(did, n))
        } else {
            (e, h2d, d2h)
        }
    } else {
        let h = new_handle(h2d, did, preferred, fragment);
        (h, h2d.insert(h, did), d2h.insert(did, h))
    }
}

/// The two handle maps are inverse to each other.
pub open spec fn handles_inverse(h2d: Map<Seq<char>, Seq<char>>, d2h: Map<Seq<char>, Seq<char>>) -> bool {
    &&& forall|h: Seq<char>| #[trigger] h2d.dom().contains(h) ==> d2h.dom().contains(h2d[h]) && d2h[h2d[h]] == h
    &&& forall|d: Seq<char>| #[trigger] d2h.dom().contains(d) ==> h2d.dom().contains(d2h[d]) && h2d[d2h[d]] == d
}

pub open spec fn opt_view(o: Option<String>) -> Option<Seq<char>> {
    match o {
        Some(s) => Some(s@),
        None => None,
    }
}

fn strip_handle_chars(s: &str) -> (r: Vec<char>)
    ensures
        r@ == strip_handle(s@),
{
    let c = chars_of(s);
    let t = trim_white(&c);
    trim_start_class(&t, &CharClass::Is('@'))
}

proof fn lemma_sview_insert(m: Map<Seq<char>, String>, k: Seq<char>, v: String)
    ensures
        sview(m.insert(k, v)) == sview(m).insert(k, v@),
{
    assert(sview(m.insert(k, v)) =~= sview(m).insert(k, v@));
}

proof fn lemma_sview_remove(m: Map<Seq<char>, String>, k: Seq<char>)
    ensures
        sview(m.remove(k)) == sview(m).remove(k),
{
    assert(sview(m.remove(k)) =~= sview(m).remove(k));
}

/// After registration, the DID maps to its handle and the handle maps back to the DID.
pub proof fn law_registration_binds(
    h2d: Map<Seq<char>, Seq<char>>,
    d2h: Map<Seq<char>, Seq<char>>,
    did: Seq<char>,
    preferred: Option<Seq<char>>,
    fragment: Seq<char>,
)
    requires
        d2h.dom().contains(did) ==> h2d.dom().contains(d2h[did]) && h2d[d2h[did]] == did,
    ensures
        ({
            let reg = registration(h2d, d2h, did, preferred, fragment);
            &&& reg.2.dom().contains(did) && reg.2[did] == reg.0
            &&& reg.1.dom().contains(reg.0) && reg.1[reg.0] == did
        }),
{
}

/// A DID whose handle is already in normal form gets that handle back, and nothing changes.
pub proof fn law_registration_recovers_handle(
    h2d: Map<Seq<char>, Seq<char>>,
    d2h: Map<Seq<char>, Seq<char>>,
    did: Seq<char>,
    preferred: Option<Seq<char>>,
    fragment: Seq<char>,
)
    requires
        d2h.dom().contains(did),
        strip_handle(d2h[did]) == d2h[did] || strip_handle(d2h[did]).len() == 0,
    ensures
        registration(h2d, d2h, did, preferred, fragment) == (d2h[did], h2d, d2h),
{
}

/// A new handle is never one that another DID holds, unless it is the DID itself.
pub proof fn law_new_handle_not_taken(
    h2d: Map<Seq<char>, Seq<char>>,
    d2h: Map<Seq<char>, Seq<char>>,
    did: Seq<char>,
    preferred: Option<Seq<char>>,
    fragment: Seq<char>,
)
    ensures
        ({
            let h = registration(h2d, d2h, did, preferred, fragment).0;
            !d2h.dom().contains(did) && h != did ==> free_for(h2d, h, did)
        }),
{
}

/// Registration keeps the two handle maps inverse to each other when the handle it gives
/// is not held by another DID.
pub proof fn law_registration_keeps_inverse(
    h2d: Map<Seq<char>, Seq<char>>,
    d2h: Map<Seq<char>, Seq<char>>,
    did: Seq<char>,
    preferred: Option<Seq<char>>,
    fragment: Seq<char>,
)
    requires
        handles_inverse(h2d, d2h),
        free_for(h2d, registration(h2d, d2h, did, preferred, fragment).0, did),
    ensures
        ({
            let reg = registration(h2d, d2h, did, preferred, fragment);
            handles_inverse(reg.1, reg.2)
        }),
{
    let reg = registration(h2d, d2h, did, preferred, fragment);
    let n = reg.0;
    if d2h.dom().contains(did) {
        let e = d2h[did];
        if strip_handle(e).len() > 0 && strip_handle(e) != e {
            assert forall|h: Seq<char>| #[trigger] reg.1.dom().contains(h) implies reg.2.dom().contains(reg.1[h]) && reg.2[reg.1[h]] == h by {
                if h != n {
                    assert(h2d.dom().contains(h) && h != e);
                    assert(d2h[h2d[h]] == h);
                }
            }
            assert forall|d: Seq<char>| #[trigger] reg.2.dom().contains(d) implies reg.1.dom().contains(reg.2[d]) && reg.1[reg.2[d]] == d by {
                if d != did {
                    assert(h2d.dom().contains(d2h[d]) && h2d[d2h[d]] == d);
                    assert(d2h[d] != e);
                }
            }
        }
    } else {
        assert forall|h: Seq<char>| #[trigger] reg.1.dom().contains(h) implies reg.2.dom().contains(reg.1[h]) && reg.2[reg.1[h]] == h by {
            if h != n {
                assert(d2h[h2d[h]] == h);
            }
        }
        assert forall|d: Seq<char>| #[trigger] reg.2.dom().contains(d) implies reg.1.dom().contains(reg.2[d]) && reg.1[reg.2[d]] == d by {
            if d != did {
                assert(h2d.dom().contains(d2h[d]) && h2d[d2h[d]] == d);
            }
        }
    }
}

/// `b` holds the same rooms as `a`, all but `name` unchanged.
pub open spec fn rooms_same_except(a: Map<Seq<char>, Room>, b: Map<Seq<char>, Room>, name: Seq<char>) -> bool {
    &&& a.dom() == b.dom()
    &&& forall|k: Seq<char>| #[trigger] b.dom().contains(k) && k != name ==> b[k] == a[k]
}

/// The room `room` with the dispatch queue `q`.
pub open spec fn room_with_queue(room: Room, q: Vec<RoomDispatchTask>) -> Room {
    Room { state: RoomState { dispatch_queue: q, ..room.state }, ..room }
}

/// The event log after appending `entry` to `events` at capacity `max`.
pub open spec fn pushed_events(events: Seq<RoomEvent>, max: usize, entry: RoomEvent) -> Seq<RoomEvent> {
    (if events.len() >= max && events.len() > 0 {
        events.drop_first()
    } else {
        events
    }).push(entry)
}

pub(crate) proof fn lemma_single_membership_replace(rooms: Map<Seq<char>, Room>, name: Seq<char>, nr: Room)
    requires
        single_membership(rooms),
        forall|r: Seq<char>, d: Seq<char>|
            rooms.dom().contains(r) && r != name && #[trigger] nr.has_did(d) ==> !#[trigger] rooms[r].has_did(d),
    ensures
        single_membership(rooms.insert(name, nr)),
{
    let nrooms = rooms.insert(name, nr);
    assert forall|r1: Seq<char>, r2: Seq<char>, d: Seq<char>|
        nrooms.dom().contains(r1) && nrooms.dom().contains(r2) && r1 != r2 && #[trigger] nrooms[r1].has_did(d)
            implies !#[trigger] nrooms[r2].has_did(d) by {
        if r1 == name {
            assert(nr.has_did(d));
            assert(!rooms[r2].has_did(d));
        } else if r2 == name {
            assert(rooms[r1].has_did(d));
            if nr.has_did(d) {
                assert(!rooms[r1].has_did(d));
            }
        } else {
            assert(rooms[r1].has_did(d));
        }
    }
}

/// A room whose DIDs are among those of the room it replaces keeps single membership.
pub(crate) proof fn lemma_single_membership_shrink(rooms: Map<Seq<char>, Room>, name: Seq<char>, nr: Room)
    requires
        single_membership(rooms),
        rooms.dom().contains(name),
        forall|d: Seq<char>| #[trigger] nr.has_did(d) ==> rooms[name].has_did(d),
    ensures
        single_membership(rooms.insert(name, nr)),
{
    assert forall|r: Seq<char>, d: Seq<char>|
        rooms.dom().contains(r) && r != name && #[trigger] nr.has_did(d) implies !#[trigger] rooms[r].has_did(d) by {
        assert(rooms[name].has_did(d));
    }
    lemma_single_membership_replace(rooms, name, nr);
}

/// What a join did, for the caller to act on.
#[derive(Debug)]
pub struct JoinOutcome {
    /// The handle the avatar is known by in the room.
    pub handle: String,
    /// The room the avatar moved from, when it was present in another one.
    pub moved_from: Option<String>,
    /// Whether the avatar registry entry of the DID must be refreshed.
    pub refresh_registry: bool,
}

/// The avatar `a` with the endpoint, languages, owner and encryption key of `req`,
/// seen at `now`.
pub open spec fn refreshed(a: Avatar, req: AvatarRequest, now: u64) -> Avatar {
    Avatar {
        agent_endpoint: req.agent_endpoint,
        language_order: req.language_order,
        owner: req.owner,
        encryption_pubkey_multibase: req.encryption_pubkey_multibase,
        last_seen_at: now,
        ..a
    }
}

/// Whether `req` changes a field of `a` that the avatar registry records.
pub open spec fn request_changes(a: Avatar, req: AvatarRequest) -> bool {
    ||| a.agent_endpoint@ != req.agent_endpoint@
    ||| a.language_order@ != req.language_order@
    ||| a.owner@ != req.owner@
    ||| opt_view(a.encryption_pubkey_multibase) != opt_view(req.encryption_pubkey_multibase)
}

/// The handle under which `room` holds the DID `did`.
pub open spec fn handle_of(room: Room, did: Seq<char>) -> Seq<char> {
    choose|h: Seq<char>| #[trigger] room.avatars@.dom().contains(h) && room.avatars@[h].agent_did@ == did
}

/// The room that holds the DID `did`.
pub open spec fn room_of(rooms: Map<Seq<char>, Room>, did: Seq<char>) -> Seq<char> {
    choose|r: Seq<char>| #[trigger] rooms.dom().contains(r) && rooms[r].has_did(did)
}

/// The avatar a first join with `req` creates under `handle` at `now`.
pub open spec fn joined_avatar(a: Avatar, handle: Seq<char>, req: AvatarRequest, now: u64) -> bool {
    &&& a.inbox@ == handle
    &&& a.agent_did == req.did
    &&& a.agent_endpoint == req.agent_endpoint
    &&& a.language_order == req.language_order
    &&& a.owner == req.owner
    &&& a.signing_secret == req.signing_secret
    &&& a.encryption_pubkey_multibase == req.encryption_pubkey_multibase
    &&& a.joined_at == now && a.last_seen_at == now
    &&& a.descriptions@ == Map::<Seq<char>, String>::empty()
    &&& a.object_shortcuts@ == Map::<Seq<char>, String>::empty()
}

pub(crate) proof fn lemma_handle_of(room: Room, did: Seq<char>, h: Seq<char>)
    requires
        room.wf(),
        room.avatars@.dom().contains(h),
        room.avatars@[h].agent_did@ == did,
    ensures
        handle_of(room, did) == h,
{
    let c = handle_of(room, did);
    assert(room.avatars@.dom().contains(c) && room.avatars@[c].agent_did@ == did);
    if c != h {
        assert(room.avatars@[c].agent_did@ != room.avatars@[h].agent_did@);
    }
}

proof fn lemma_room_of(rooms: Map<Seq<char>, Room>, did: Seq<char>, r: Seq<char>)
    requires
        single_membership(rooms),
        rooms.dom().contains(r),
        rooms[r].has_did(did),
    ensures
        room_of(rooms, did) == r,
{
    let c = room_of(rooms, did);
    assert(rooms.dom().contains(c) && rooms[c].has_did(did));
    if c != r {
        assert(!rooms[r].has_did(did));
    }
}

fn opt_str_eq(a: &Option<String>, b: &Option<String>) -> (r: bool)
    ensures
        r == (opt_view(*a) == opt_view(*b)),
{
    match (a, b) {
        (Some(x), Some(y)) => str_eq(x.as_str(), y.as_str()),
        (None, None) => true,
        _ => false,
    }
}

fn copy_chars(v: &Vec<char>) -> (r: Vec<char>)
    ensures
        r@ == v@,
{
    let r = slice_chars(v, 0, v.len());
    assert(r@ =~= v@);
    r
}

/// `n` is the room `o` after its stale avatars were removed and, if there were any, a
/// presence snapshot was queued.
pub open spec fn pruned_room(o: Room, n: Room, now: u64, stale_after: u64) -> bool {
    &&& forall|h: Seq<char>| #[trigger] n.avatars@.dom().contains(h) <==> (o.avatars@.dom().contains(h)
        && !avatar_is_stale(o.avatars@[h], now, stale_after))
    &&& forall|h: Seq<char>| #[trigger] n.avatars@.dom().contains(h) ==> n.avatars@[h] == o.avatars@[h]
    &&& n.state.dispatch_queue@ == if o.has_stale_avatar(now, stale_after) {
        o.state.dispatch_queue@.push(RoomDispatchTask::PresenceSnapshot)
    } else {
        o.state.dispatch_queue@
    }
    &&& n == (Room {
        avatars: n.avatars,
        state: RoomState { dispatch_queue: n.state.dispatch_queue, ..o.state },
        ..o
    })
}

/// A DID present in a room of a world with single membership is in no other room.
pub proof fn law_avatar_in_one_room(rooms: Map<Seq<char>, Room>, name: Seq<char>, did: Seq<char>)
    requires
        single_membership(rooms),
        rooms.dom().contains(name),
        rooms[name].has_did(did),
    ensures
        forall|r: Seq<char>| #[trigger] rooms.dom().contains(r) && r != name ==> !rooms[r].has_did(did),
        any_room_has_did(rooms, did),
        room_of(rooms, did) == name,
{
    lemma_room_of(rooms, did, name);
}

/// After pruning, a room holds no avatar that is stale at that time, and every avatar
/// that was not stale is still there, unchanged.
pub proof fn law_prune_leaves_only_fresh(o: Room, n: Room, now: u64, stale_after: u64)
    requires
        pruned_room(o, n, now, stale_after),
    ensures
        !n.has_stale_avatar(now, stale_after),
        forall|h: Seq<char>| #[trigger] o.avatars@.dom().contains(h) && !avatar_is_stale(o.avatars@[h], now, stale_after)
            ==> n.avatars@.dom().contains(h) && n.avatars@[h] == o.avatars@[h],
{
    if n.has_stale_avatar(now, stale_after) {
        let h = choose|h: Seq<char>| #[trigger] n.avatars@.dom().contains(h) && avatar_is_stale(n.avatars@[h], now, stale_after);
        assert(o.avatars@.dom().contains(h));
    }
}

pub struct World {
    pub rooms: TextMap<Room>,
    /// Recent world log lines, oldest first.
    pub events: Vec<String>,
    pub entry_acl: EntryAcl,
    /// Handle to root DID; keeps two DIDs from sharing a handle.
    pub handle_to_did: TextMap<String>,
    /// Root DID to assigned handle; lets a DID re-enter under the same handle.
    pub did_to_handle: TextMap<String>,
    /// Runtime-only index: avatar DID id to the room it is in.
    pub avatar_room_index: TextMap<String>,
    /// World owner root DID.
    pub owner_did: Option<String>,
    pub kubo_url: String,
    pub world_cid: Option<String>,
    pub world_ipns: Option<String>,
    pub world_did: Option<String>,
    /// When false, inbox ingress rejects world interactions.
    pub unlocked: bool,
    pub state_cid: Option<String>,
    pub lang_cid: Option<String>,
    pub world_root_pin_name: String,
    /// Configured time to live of room-local avatar presence, in seconds.
    pub avatar_presence_ttl_secs: u64,
    pub knock_inbox: KnockInbox,
    /// The master key and the keys derived from it, once the world was unlocked.
    pub unlocked_secrets: Option<WorldRuntimeSecrets>,
    /// Room name to the CID of its last stored snapshot.
    pub room_cids: TextMap<String>,
    /// Target room to the exits leading there, as of the last rebuild.
    pub exit_reverse_index: TextMap<Vec<IncomingExitRef>>,
    /// Outcome of the last IPNS publish, if any: whether it succeeded, the world root CID
    /// it published and, on failure, the error.
    pub last_publish_ok: Option<bool>,
    pub last_publish_root_cid: Option<String>,
    pub last_publish_error: Option<String>,
    /// The stored state changed since the last successful IPNS publish.
    pub ipns_dirty: bool,
    /// The published avatars, keyed by DID fragment.
    pub avatar_registry: TextMap<AvatarRegistryEntry>,
}

impl World {
    pub open spec fn wf(&self) -> bool {
        &&& self.rooms.wf()
        &&& forall|r: Seq<char>| #[trigger] self.rooms@.dom().contains(r) ==> self.rooms@[r].wf()
        &&& self.handle_to_did.wf()
        &&& self.did_to_handle.wf()
        &&& self.avatar_room_index.wf()
        &&& single_membership(self.rooms@)
        &&& self.knock_inbox.wf()
        &&& self.room_cids.wf()
        &&& self.exit_reverse_index.wf()
        &&& self.avatar_registry.wf()
        &&& forall|f: Seq<char>| #[trigger] self.avatar_registry@.dom().contains(f) ==> self.avatar_registry@[f].shortcuts.wf()
    }

    pub open spec fn owner_view(&self) -> Option<Seq<char>> {
        match self.owner_did {
            Some(o) => Some(o@),
            None => None,
        }
    }

    pub fn new(entry_acl: EntryAcl, kubo_url: String, world_root_pin_name: String) -> (r: Self)
        ensures
            r.wf(),
            r.rooms@ == Map::<Seq<char>, Room>::empty(),
            r.entry_acl == entry_acl,
            r.kubo_url == kubo_url,
            r.world_root_pin_name == world_root_pin_name,
            r.owner_did is None,
            !r.unlocked,
            r.events@.len() == 0,
            r.avatar_presence_ttl_secs == PRESENCE_STALE_AFTER_SECS_DEFAULT,
            r.handle_to_did@ == Map::<Seq<char>, String>::empty(),
            r.did_to_handle@ == Map::<Seq<char>, String>::empty(),
            r.unlocked_secrets is None,
            r.room_cids@ == Map::<Seq<char>, String>::empty(),
            r.exit_reverse_index@ == Map::<Seq<char>, Vec<IncomingExitRef>>::empty(),
            r.last_publish_ok is None,
            r.last_publish_root_cid is None,
            r.last_publish_error is None,
            !r.ipns_dirty,
            r.avatar_registry@ == Map::<Seq<char>, AvatarRegistryEntry>::empty(),
    {
        World {
            rooms: TextMap::new(),
            events: Vec::new(),
            entry_acl,
            handle_to_did: TextMap::new(),
            did_to_handle: TextMap::new(),
            avatar_room_index: TextMap::new(),
            owner_did: None,
            kubo_url,
            world_cid: None,
            world_ipns: None,
            world_did: None,
            unlocked: false,
            state_cid: None,
            lang_cid: None,
            world_root_pin_name,
            avatar_presence_ttl_secs: PRESENCE_STALE_AFTER_SECS_DEFAULT,
            knock_inbox: KnockInbox::new(),
            unlocked_secrets: None,
            room_cids: TextMap::new(),
            exit_reverse_index: TextMap::new(),
            last_publish_ok: None,
            last_publish_root_cid: None,
            last_publish_error: None,
            ipns_dirty: false,
            avatar_registry: TextMap::new(),
        }
    }

    /// Appends `"<now> <event>"` to the world log, dropping the oldest line at capacity.
    pub fn record_event(&mut self, now: &str, event: &str)
        ensures
            final(self).events@.len() > 0,
            final(self).events@.last()@ == now@ + seq![' '] + event@,
            old(self).events@.len() <= MAX_EVENTS ==> final(self).events@.len() <= MAX_EVENTS,
            final(self).rooms == old(self).rooms,
            final(self).entry_acl == old(self).entry_acl,
            final(self).owner_did == old(self).owner_did,
            final(self).handle_to_did == old(self).handle_to_did,
            final(self).did_to_handle == old(self).did_to_handle,
            final(self).avatar_room_index == old(self).avatar_room_index,
            final(self).world_ipns == old(self).world_ipns,
            final(self).knock_inbox == old(self).knock_inbox,
            final(self).room_cids == old(self).room_cids,
            final(self).exit_reverse_index == old(self).exit_reverse_index,
            final(self).avatar_registry == old(self).avatar_registry,
            final(self).avatar_presence_ttl_secs == old(self).avatar_presence_ttl_secs,
    {
        let mut line: Vec<char> = Vec::new();
        append_lit(&mut line, now);
        line.push(' ');
        append_lit(&mut line, event);
        if self.events.len() >= MAX_EVENTS {
            let _ = self.events.remove(0);
        }
        self.events.push(string_of(&line));
    }

    /// The room DID for `room_id`, under the world IPNS name (or `unconfigured`).
    pub fn build_room_did(&self, room_id: &str) -> (r: String)
        ensures
            r@ == world_did_text(
                match self.world_ipns {
                    Some(i) => i@,
                    None => unconfigured(),
                },
                room_id@,
            ),
    {
        match &self.world_ipns {
            Some(i) => world_did_string(i.as_str(), room_id),
            None => {
                proof {
                    reveal_strlit("unconfigured");
                }
                world_did_string("unconfigured", room_id)
            },
        }
    }

    /// Creates an empty, open room named `name`.
    pub fn create_room(&mut self, name: String, now: &str) -> (r: Result<(), WorldError>)
        requires
            old(self).wf(),
        ensures
            final(self).wf(),
            r matches Err(WorldError::InvalidRoomId(_)) <==> !valid_nanoid_id(name@),
            r matches Err(WorldError::RoomExists(_)) <==> (valid_nanoid_id(name@) && old(
                self,
            ).rooms@.dom().contains(name@)),
            r is Ok <==> (valid_nanoid_id(name@) && !old(self).rooms@.dom().contains(name@)),
            r is Err ==> final(self).rooms@ == old(self).rooms@,
            r is Ok ==> {
                &&& final(self).rooms@.dom() == old(self).rooms@.dom().insert(name@)
                &&& forall|k: Seq<char>| k != name@ && #[trigger] old(self).rooms@.dom().contains(k)
                    ==> final(self).rooms@[k] == old(self).rooms@[k]
                &&& final(self).rooms@[name@].name == name
                &&& final(self).rooms@[name@].avatars@ == Map::<Seq<char>, Avatar>::empty()
                &&& forall|id: Seq<char>| final(self).rooms@[name@].acl.admits(id)
                &&& final(self).rooms@[name@].state.avatar_ttl_secs == old(self).avatar_presence_ttl_secs
                &&& final(self).rooms@[name@].state.next_event_sequence == 0
                &&& final(self).rooms@[name@].state.events@.len() == 0
                &&& final(self).rooms@[name@].state.dispatch_queue@.len() == 0
                &&& final(self).rooms@[name@].url@ == world_did_text(
                    match old(self).world_ipns {
                        Some(i) => i@,
                        None => unconfigured(),
                    },
                    name@,
                )
            },
            final(self).entry_acl == old(self).entry_acl,
            final(self).owner_did == old(self).owner_did,
            final(self).handle_to_did == old(self).handle_to_did,
            final(self).did_to_handle == old(self).did_to_handle,
            final(self).world_ipns == old(self).world_ipns,
            final(self).knock_inbox == old(self).knock_inbox,
            final(self).room_cids == old(self).room_cids,
            final(self).exit_reverse_index == old(self).exit_reverse_index,
            final(self).avatar_registry == old(self).avatar_registry,
            final(self).avatar_presence_ttl_secs == old(self).avatar_presence_ttl_secs,
    {
        let key = chars_of(name.as_str());
        if !is_valid_nanoid_id(&key) {
            return Err(WorldError::InvalidRoomId(name));
        }
        let did = self.build_room_did(name.as_str());
        if self.rooms.contains_key(&key) {
            return Err(WorldError::RoomExists(name));
        }
        let mut room = Room::new(name.clone(), did);
        room.state.set_avatar_ttl(self.avatar_presence_ttl_secs);
        let ghost old_rooms = self.rooms@;
        self.rooms.insert(key, room);
        proof {
            assert forall|r1: Seq<char>, r2: Seq<char>, d: Seq<char>|
                self.rooms@.dom().contains(r1) && self.rooms@.dom().contains(r2) && r1 != r2
                    && #[trigger] self.rooms@[r1].has_did(d) implies !#[trigger] self.rooms@[r2].has_did(d) by {
                if r1 == name@ {
                    let h = choose|h: Seq<char>| #[trigger] self.rooms@[r1].avatars@.dom().contains(h) && self.rooms@[r1].avatars@[h].agent_did@ == d;
                }
                if r2 == name@ && self.rooms@[r2].has_did(d) {
                    let h = choose|h: Seq<char>| #[trigger] self.rooms@[r2].avatars@.dom().contains(h) && self.rooms@[r2].avatars@[h].agent_did@ == d;
                }
            }
        }
        let mut msg: Vec<char> = Vec::new();
        append_lit(&mut msg, "room created: ");
        append_lit(&mut msg, name.as_str());
        let m = string_of(&msg);
        self.record_event(now, m.as_str());
        Ok(())
    }

    /// Entry decision for the DID id `did_id`, by the entry ACL and the owner.
    pub fn can_enter(&self, did_id: &str) -> (r: bool)
        ensures
            r == self.entry_acl.admits(did_id@, self.owner_view()),
    {
        self.entry_acl.can_enter(did_id, &self.owner_did)
    }

    pub fn allow_entry_did(&mut self, did: &str)
        ensures
            final(self).entry_acl.did_set().contains(did@),
            final(self).entry_acl.allow_all == old(self).entry_acl.allow_all,
            final(self).entry_acl.allow_owner == old(self).entry_acl.allow_owner,
            forall|e: Seq<char>| old(self).entry_acl.did_set().contains(e) ==> final(self).entry_acl.did_set().contains(e),
            forall|e: Seq<char>| final(self).entry_acl.did_set().contains(e) ==> (old(self).entry_acl.did_set().contains(e) || e == did@),
            final(self).entry_acl.admits(did@, final(self).owner_view()),
            final(self).rooms == old(self).rooms,
            final(self).owner_did == old(self).owner_did,
            final(self).handle_to_did == old(self).handle_to_did,
            final(self).did_to_handle == old(self).did_to_handle,
            final(self).avatar_room_index == old(self).avatar_room_index,
            final(self).world_did == old(self).world_did,
            final(self).world_ipns == old(self).world_ipns,
            final(self).knock_inbox == old(self).knock_inbox,
            final(self).room_cids == old(self).room_cids,
            final(self).exit_reverse_index == old(self).exit_reverse_index,
            final(self).avatar_registry == old(self).avatar_registry,
            final(self).events == old(self).events,
            final(self).avatar_presence_ttl_secs == old(self).avatar_presence_ttl_secs,
    {
        self.entry_acl.allow_did(String::from_str(did));
    }

    /// Sets the world owner to the root DID `bare` and allows it to enter.
    pub fn set_owner_did(&mut self, bare: &str) -> (r: String)
        ensures
            r@ == bare@,
            final(self).owner_view() == Some(bare@),
            final(self).entry_acl.did_set().contains(bare@),
            final(self).entry_acl.allow_all == old(self).entry_acl.allow_all,
            final(self).entry_acl.allow_owner == old(self).entry_acl.allow_owner,
            final(self).rooms == old(self).rooms,
            final(self).handle_to_did == old(self).handle_to_did,
            final(self).did_to_handle == old(self).did_to_handle,
            final(self).avatar_room_index == old(self).avatar_room_index,
            final(self).world_did == old(self).world_did,
            final(self).world_ipns == old(self).world_ipns,
            final(self).knock_inbox == old(self).knock_inbox,
            final(self).room_cids == old(self).room_cids,
            final(self).exit_reverse_index == old(self).exit_reverse_index,
            final(self).avatar_registry == old(self).avatar_registry,
            final(self).events == old(self).events,
            final(self).avatar_presence_ttl_secs == old(self).avatar_presence_ttl_secs,
    {
        self.owner_did = Some(String::from_str(bare));
        self.allow_entry_did(bare);
        String::from_str(bare)
    }

    /// Whether the room holds an avatar whose DID id is `did`.
    pub fn room_has_did(room: &Room, did: &Vec<char>) -> (r: Option<usize>)
        requires
            room.wf(),
        ensures
            r is Some <==> room.has_did(did@),
            r matches Some(j) ==> j < room.avatars.entries@.len() && room.avatars.entries@[j as int].1.agent_did@ == did@,
    {
        let n = room.avatars.len();
        let mut j: usize = 0;
        while j < n
            invariant
                0 <= j <= n,
                n == room.avatars.entries@.len(),
                room.avatars.wf(),
                forall|k: int| 0 <= k < j ==> room.avatars.entries@[k].1.agent_did@ != did@,
            decreases n - j,
        {
            let (_h, av) = room.avatars.entry_at(j);
            let a = chars_of(av.agent_did.as_str());
            if chars_eq(&a, did) {
                proof {
                    lemma_wf_index(room.avatars, j as int);
                }
                return Some(j);
            }
            j = j + 1;
        }
        proof {
            lemma_wf_dom(room.avatars);
            if room.has_did(did@) {
                let h = choose|h: Seq<char>| #[trigger] room.avatars@.dom().contains(h) && room.avatars@[h].agent_did@ == did@;
                let k = choose|k: int| 0 <= k < room.avatars.entries@.len() && room.avatars.entries@[k].0@ == h;
                lemma_wf_index(room.avatars, k);
            }
        }
        None
    }

    /// Position of the room that holds `did`, scanning the rooms in order.
    pub fn find_room_with_did(&self, did: &Vec<char>) -> (r: Option<usize>)
        requires
            self.wf(),
        ensures
            r is Some <==> any_room_has_did(self.rooms@, did@),
            r matches Some(i) ==> i < self.rooms.entries@.len() && self.rooms.entries@[i as int].1.has_did(did@)
                && self.rooms@.dom().contains(self.rooms.entries@[i as int].0@)
                && self.rooms@[self.rooms.entries@[i as int].0@] == self.rooms.entries@[i as int].1,
    {
        let n = self.rooms.len();
        let mut i: usize = 0;
        while i < n
            invariant
                0 <= i <= n,
                n == self.rooms.entries@.len(),
                self.wf(),
                forall|k: int| 0 <= k < i ==> !self.rooms.entries@[k].1.has_did(did@),
            decreases n - i,
        {
            let (_name, room) = self.rooms.entry_at(i);
            if Self::room_has_did(room, did).is_some() {
                proof {
                    lemma_wf_index(self.rooms, i as int);
                }
                return Some(i);
            }
            i = i + 1;
        }
        proof {
            lemma_wf_dom(self.rooms);
            if any_room_has_did(self.rooms@, did@) {
                let r = choose|r: Seq<char>| #[trigger] self.rooms@.dom().contains(r) && self.rooms@[r].has_did(did@);
                let k = choose|k: int| 0 <= k < self.rooms.entries@.len() && self.rooms.entries@[k].0@ == r;
                lemma_wf_index(self.rooms, k);
            }
        }
        None
    }

    /// Recomputes the DID-to-room index from the rooms.
    pub fn rebuild_avatar_room_index(&mut self)
        requires
            old(self).wf(),
        ensures
            final(self).wf(),
            final(self).rooms == old(self).rooms,
            forall|d: Seq<char>| #[trigger] final(self).avatar_room_index@.dom().contains(d) <==> any_room_has_did(final(self).rooms@, d),
            forall|d: Seq<char>| #[trigger] final(self).avatar_room_index@.dom().contains(d) ==> final(self).rooms@.dom().contains(final(self).avatar_room_index@[d]@)
                && final(self).rooms@[final(self).avatar_room_index@[d]@].has_did(d),
            final(self).entry_acl == old(self).entry_acl,
            final(self).owner_did == old(self).owner_did,
            final(self).handle_to_did == old(self).handle_to_did,
            final(self).did_to_handle == old(self).did_to_handle,
            final(self).world_ipns == old(self).world_ipns,
            final(self).knock_inbox == old(self).knock_inbox,
            final(self).room_cids == old(self).room_cids,
            final(self).exit_reverse_index == old(self).exit_reverse_index,
            final(self).avatar_registry == old(self).avatar_registry,
            final(self).events == old(self).events,
            final(self).avatar_presence_ttl_secs == old(self).avatar_presence_ttl_secs,
    {
        let mut next: TextMap<String> = TextMap::new();
        let n = self.rooms.len();
        let mut i: usize = 0;
        while i < n
            invariant
                0 <= i <= n,
                n == self.rooms.entries@.len(),
                self.wf(),
                next.wf(),
                forall|d: Seq<char>| #[trigger] next@.dom().contains(d) ==> self.rooms@.dom().contains(next@[d]@)
                    && self.rooms@[next@[d]@].has_did(d),
                forall|k: int, d: Seq<char>| 0 <= k < i && #[trigger] self.rooms.entries@[k].1.has_did(d) ==> next@.dom().contains(d),
            decreases n - i,
        {
            let (rname, room) = self.rooms.entry_at(i);
            let m = room.avatars.len();
            let mut j: usize = 0;
            while j < m
                invariant
                    0 <= j <= m,
                    0 <= i < n,
                    n == self.rooms.entries@.len(),
                    self.wf(),
                    rname@ == self.rooms.entries@[i as int].0@,
                    *room == self.rooms.entries@[i as int].1,
                    self.rooms@.dom().contains(rname@),
                    self.rooms@[rname@] == *room,
                    room.wf(),
                    m == room.avatars.entries@.len(),
                    next.wf(),
                    forall|d: Seq<char>| #[trigger] next@.dom().contains(d) ==> self.rooms@.dom().contains(next@[d]@)
                        && self.rooms@[next@[d]@].has_did(d),
                    forall|k: int, d: Seq<char>| 0 <= k < i && #[trigger] self.rooms.entries@[k].1.has_did(d) ==> next@.dom().contains(d),
                    forall|k: int| 0 <= k < j ==> next@.dom().contains(#[trigger] room.avatars.entries@[k].1.agent_did@),
                decreases m - j,
            {
                let (h, av) = room.avatars.entry_at(j);
                let d = chars_of(av.agent_did.as_str());
                let rn = string_of(rname);
                proof {
                    assert(room.has_did(d@));
                }
                next.insert(d, rn);
                j = j + 1;
            }
            proof {
                lemma_wf_dom(room.avatars);
                assert forall|k: int, d: Seq<char>| 0 <= k < i + 1 && #[trigger] self.rooms.entries@[k].1.has_did(d) implies next@.dom().contains(d) by {
                    if k == i {
                        let h = choose|h: Seq<char>| #[trigger] room.avatars@.dom().contains(h) && room.avatars@[h].agent_did@ == d;
                        let jj = choose|jj: int| 0 <= jj < room.avatars.entries@.len() && room.avatars.entries@[jj].0@ == h;
                        lemma_wf_index(room.avatars, jj);
                        assert(next@.dom().contains(room.avatars.entries@[jj].1.agent_did@));
                    }
                }
            }
            i = i + 1;
        }
        proof {
            lemma_wf_dom(self.rooms);
            assert forall|d: Seq<char>| any_room_has_did(self.rooms@, d) implies #[trigger] next@.dom().contains(d) by {
                let r = choose|r: Seq<char>| #[trigger] self.rooms@.dom().contains(r) && self.rooms@[r].has_did(d);
                let k = choose|k: int| 0 <= k < self.rooms.entries@.len() && self.rooms.entries@[k].0@ == r;
                lemma_wf_index(self.rooms, k);
                assert(self.rooms.entries@[k].1.has_did(d));
            }
        }
        self.avatar_room_index = next;
    }

    /// The room holding the avatar with DID id `did_id`; refreshes the index entry.
    pub fn avatar_room_for_did(&mut self, did_id: &str) -> (r: Option<String>)
        requires
            old(self).wf(),
        ensures
            final(self).wf(),
            final(self).rooms == old(self).rooms,
            r is None <==> !any_room_has_did(old(self).rooms@, did_id@),
            r matches Some(n) ==> old(self).rooms@.dom().contains(n@) && old(self).rooms@[n@].has_did(did_id@),
            final(self).entry_acl == old(self).entry_acl,
            final(self).owner_did == old(self).owner_did,
            final(self).handle_to_did == old(self).handle_to_did,
            final(self).did_to_handle == old(self).did_to_handle,
            final(self).world_ipns == old(self).world_ipns,
            final(self).knock_inbox == old(self).knock_inbox,
            final(self).room_cids == old(self).room_cids,
            final(self).exit_reverse_index == old(self).exit_reverse_index,
            final(self).avatar_registry == old(self).avatar_registry,
            final(self).events == old(self).events,
            final(self).avatar_presence_ttl_secs == old(self).avatar_presence_ttl_secs,
    {
        let d = chars_of(did_id);
        let indexed: Option<String> = match self.avatar_room_index.get(&d) {
            Some(rn) => Some(rn.clone()),
            None => None,
        };
        match indexed {
            Some(rn) => {
                let rnc = chars_of(rn.as_str());
                match self.rooms.get(&rnc) {
                    Some(room) => {
                        if Self::room_has_did(room, &d).is_some() {
                            proof {
                                assert(self.rooms@.dom().contains(rn@));
                            }
                            return Some(rn);
                        }
                    },
                    None => {},
                }
            },
            None => {},
        }
        match self.find_room_with_did(&d) {
            Some(i) => {
                let (name, _room) = self.rooms.entry_at(i);
                let s = string_of(name);
                let s2 = string_of(name);
                self.avatar_room_index.insert(d, s);
                Some(s2)
            },
            None => {
                let _ = self.avatar_room_index.remove(&d);
                None
            },
        }
    }

    /// Assigns or recovers a world-unique handle for `did` (see `registration`).
    pub fn register_handle(&mut self, did: &str, preferred: Option<String>, fragment: &str) -> (r: String)
        requires
            old(self).wf(),
        ensures
            final(self).wf(),
            ({
                let reg = registration(
                    sview(old(self).handle_to_did@),
                    sview(old(self).did_to_handle@),
                    did@,
                    opt_view(preferred),
                    fragment@,
                );
                &&& r@ == reg.0
                &&& sview(final(self).handle_to_did@) == reg.1
                &&& sview(final(self).did_to_handle@) == reg.2
            }),
            final(self).rooms == old(self).rooms,
            final(self).entry_acl == old(self).entry_acl,
            final(self).owner_did == old(self).owner_did,
            final(self).avatar_room_index == old(self).avatar_room_index,
            final(self).world_ipns == old(self).world_ipns,
            final(self).knock_inbox == old(self).knock_inbox,
            final(self).room_cids == old(self).room_cids,
            final(self).exit_reverse_index == old(self).exit_reverse_index,
            final(self).avatar_registry == old(self).avatar_registry,
            final(self).events == old(self).events,
            final(self).avatar_presence_ttl_secs == old(self).avatar_presence_ttl_secs,
    {
        let dk = chars_of(did);
        let ghost h2d0 = self.handle_to_did@;
        let ghost d2h0 = self.did_to_handle@;
        let existing: Option<String> = match self.did_to_handle.get(&dk) {
            Some(e) => Some(e.clone()),
            None => None,
        };
        if let Some(e) = existing {
            let n = strip_handle_chars(e.as_str());
            let ek = chars_of(e.as_str());
            if n.len() > 0 && !chars_eq(&n, &ek) {
                let _ = self.handle_to_did.remove(&ek);
                let ns = string_of(&n);
                self.handle_to_did.insert(n, String::from_str(did));
                self.did_to_handle.insert(dk, ns.clone());
                proof {
                    lemma_sview_remove(h2d0, e@);
                    lemma_sview_insert(h2d0.remove(e@), ns@, self.handle_to_did@[ns@]);
                    lemma_sview_insert(d2h0, did@, ns);
                }
                return ns;
            }
            return e;
        }
        let p: Option<Vec<char>> = match &preferred {
            Some(ps) => {
                let n = strip_handle_chars(ps.as_str());
                if is_valid_nanoid_id(&n) {
                    Some(n)
                } else {
                    None
                }
            },
            None => None,
        };
        let f = strip_handle_chars(fragment);
        let mut chosen: Option<Vec<char>> = None;
        if let Some(pv) = p {
            if self.handle_free_for(&pv, &dk) {
                chosen = Some(pv);
            }
        }
        if chosen.is_none() {
            if is_valid_nanoid_id(&f) && self.handle_free_for(&f, &dk) {
                chosen = Some(f);
            }
        }
        let h: Vec<char> = match chosen {
            Some(c) => c,
            None => {
                let base: Option<Vec<char>> = match &preferred {
                    Some(ps) => {
                        let n = strip_handle_chars(ps.as_str());
                        if is_valid_nanoid_id(&n) {
                            Some(n)
                        } else {
                            None
                        }
                    },
                    None => None,
                };
                let base = match base {
                    Some(b) => Some(b),
                    None => {
                        let f2 = strip_handle_chars(fragment);
                        if is_valid_nanoid_id(&f2) { Some(f2) } else { None }
                    },
                };
                match base {
                    Some(b) => {
                        let mut cand = b;
                        let start: usize = if dk.len() >= 4 { dk.len() - 4 } else { 0 };
                        let tail = slice_chars(&dk, start, dk.len());
                        proof {
                            if dk@.len() < 4 {
                                assert(tail@ =~= dk@);
                            }
                        }
                        crate::text::append_chars(&mut cand, &tail);
                        if self.handle_free_for(&cand, &dk) {
                            cand
                        } else {
                            dk.clone()
                        }
                    },
                    None => dk.clone(),
                }
            },
        };
        proof {
            assert(h@ == new_handle(sview(h2d0), did@, opt_view(preferred), fragment@));
        }
        let hs = string_of(&h);
        self.handle_to_did.insert(h, String::from_str(did));
        self.did_to_handle.insert(dk, hs.clone());
        proof {
            lemma_sview_insert(h2d0, hs@, self.handle_to_did@[hs@]);
            lemma_sview_insert(d2h0, did@, hs);
        }
        hs
    }

    fn handle_free_for(&self, h: &Vec<char>, did: &Vec<char>) -> (r: bool)
        requires
            self.handle_to_did.wf(),
        ensures
            r == free_for(sview(self.handle_to_did@), h@, did@),
    {
        match self.handle_to_did.get(h) {
            Some(owner) => {
                let o = chars_of(owner.as_str());
                chars_eq(&o, did)
            },
            None => true,
        }
    }

    /// Queues `task` on the room `room_name`; `false` when there is no such room.
    pub fn enqueue_room_dispatch(&mut self, room_name: &str, task: RoomDispatchTask) -> (r: bool)
        requires
            old(self).wf(),
        ensures
            final(self).wf(),
            r == old(self).rooms@.dom().contains(room_name@),
            rooms_same_except(old(self).rooms@, final(self).rooms@, room_name@),
            r ==> final(self).rooms@[room_name@] == room_with_queue(
                old(self).rooms@[room_name@],
                final(self).rooms@[room_name@].state.dispatch_queue,
            ),
            r ==> final(self).rooms@[room_name@].state.dispatch_queue@
                == old(self).rooms@[room_name@].state.dispatch_queue@.push(task),
            !r ==> final(self).rooms@ == old(self).rooms@,
            final(self).entry_acl == old(self).entry_acl,
            final(self).owner_did == old(self).owner_did,
            final(self).handle_to_did == old(self).handle_to_did,
            final(self).did_to_handle == old(self).did_to_handle,
            final(self).avatar_room_index == old(self).avatar_room_index,
            final(self).world_ipns == old(self).world_ipns,
            final(self).knock_inbox == old(self).knock_inbox,
            final(self).room_cids == old(self).room_cids,
            final(self).exit_reverse_index == old(self).exit_reverse_index,
            final(self).avatar_registry == old(self).avatar_registry,
            final(self).events == old(self).events,
            final(self).avatar_presence_ttl_secs == old(self).avatar_presence_ttl_secs,
    {
        let rk = chars_of(room_name);
        match self.rooms.find(&rk) {
            None => false,
            Some(i) => {
                let ghost old_rooms = self.rooms@;
                let (k, mut room) = self.rooms.take_at(i);
                room.state.enqueue_dispatch(task);
                let ghost nr = room;
                self.rooms.insert_at(i, k, room);
                proof {
                    assert(old_rooms.remove(rk@).insert(rk@, nr) =~= old_rooms.insert(rk@, nr));
                    lemma_single_membership_shrink(old_rooms, rk@, nr);
                }
                true
            },
        }
    }

    /// Takes every task queued on the room `room_name`, oldest first.
    pub fn drain_room_dispatch_queue(&mut self, room_name: &str) -> (r: Vec<RoomDispatchTask>)
        requires
            old(self).wf(),
        ensures
            final(self).wf(),
            rooms_same_except(old(self).rooms@, final(self).rooms@, room_name@),
            old(self).rooms@.dom().contains(room_name@) ==> {
                &&& r@ == old(self).rooms@[room_name@].state.dispatch_queue@
                &&& final(self).rooms@[room_name@] == room_with_queue(
                    old(self).rooms@[room_name@],
                    final(self).rooms@[room_name@].state.dispatch_queue,
                )
                &&& final(self).rooms@[room_name@].state.dispatch_queue@.len() == 0
            },
            !old(self).rooms@.dom().contains(room_name@) ==> r@.len() == 0 && final(self).rooms@
                == old(self).rooms@,
            final(self).entry_acl == old(self).entry_acl,
            final(self).owner_did == old(self).owner_did,
            final(self).handle_to_did == old(self).handle_to_did,
            final(self).did_to_handle == old(self).did_to_handle,
            final(self).avatar_room_index == old(self).avatar_room_index,
            final(self).world_ipns == old(self).world_ipns,
            final(self).knock_inbox == old(self).knock_inbox,
            final(self).room_cids == old(self).room_cids,
            final(self).exit_reverse_index == old(self).exit_reverse_index,
            final(self).avatar_registry == old(self).avatar_registry,
            final(self).events == old(self).events,
            final(self).avatar_presence_ttl_secs == old(self).avatar_presence_ttl_secs,
    {
        let rk = chars_of(room_name);
        match self.rooms.find(&rk) {
            None => Vec::new(),
            Some(i) => {
                let ghost old_rooms = self.rooms@;
                let (k, mut room) = self.rooms.take_at(i);
                let out = room.state.drain_dispatch_queue();
                let ghost nr = room;
                self.rooms.insert_at(i, k, room);
                proof {
                    assert(old_rooms.remove(rk@).insert(rk@, nr) =~= old_rooms.insert(rk@, nr));
                    lemma_single_membership_shrink(old_rooms, rk@, nr);
                }
                out
            },
        }
    }

    /// Appends an event to the log of `room_name` and returns its sequence number, or
    /// returns 0 when there is no such room. With `announce`, queues the event for
    /// dispatch (`RoomEventsSince` the previous sequence).
    fn push_room_event(
        &mut self,
        room_name: &str,
        kind: &str,
        sender: Option<String>,
        sender_did: Option<String>,
        sender_endpoint: Option<String>,
        message: String,
        message_cbor_b64: Option<String>,
        now_text: &str,
        announce: bool,
    ) -> (r: u64)
        requires
            old(self).wf(),
            old(self).rooms@.dom().contains(room_name@) ==> old(self).rooms@[room_name@].state.next_event_sequence < u64::MAX,
        ensures
            final(self).wf(),
            rooms_same_except(old(self).rooms@, final(self).rooms@, room_name@),
            !old(self).rooms@.dom().contains(room_name@) ==> r == 0 && final(self).rooms@ == old(self).rooms@,
            old(self).rooms@.dom().contains(room_name@) ==> {
                let o = old(self).rooms@[room_name@];
                let n = final(self).rooms@[room_name@];
                &&& r == o.state.next_event_sequence + 1
                &&& n.state.next_event_sequence == r
                &&& n.state.events@ == pushed_events(o.state.events@, MAX_EVENTS, RoomEvent {
                    sequence: r,
                    room: n.state.events@.last().room,
                    kind: n.state.events@.last().kind,
                    sender,
                    sender_did,
                    sender_endpoint,
                    message,
                    message_cbor_b64,
                    occurred_at: n.state.events@.last().occurred_at,
                })
                &&& n.state.events@.last().room@ == room_name@
                &&& n.state.events@.last().kind@ == kind@
                &&& n.state.events@.last().occurred_at@ == now_text@
                &&& n.state.dispatch_queue@ == if announce {
                    o.state.dispatch_queue@.push(RoomDispatchTask::RoomEventsSince((r - 1) as u64))
                } else {
                    o.state.dispatch_queue@
                }
                &&& n == (Room {
                    state: RoomState {
                        events: n.state.events,
                        next_event_sequence: n.state.next_event_sequence,
                        dispatch_queue: n.state.dispatch_queue,
                        ..o.state
                    },
                    ..o
                })
            },
            final(self).entry_acl == old(self).entry_acl,
            final(self).owner_did == old(self).owner_did,
            final(self).handle_to_did == old(self).handle_to_did,
            final(self).did_to_handle == old(self).did_to_handle,
            final(self).avatar_room_index == old(self).avatar_room_index,
            final(self).world_ipns == old(self).world_ipns,
            final(self).knock_inbox == old(self).knock_inbox,
            final(self).room_cids == old(self).room_cids,
            final(self).exit_reverse_index == old(self).exit_reverse_index,
            final(self).avatar_registry == old(self).avatar_registry,
            final(self).events == old(self).events,
            final(self).avatar_presence_ttl_secs == old(self).avatar_presence_ttl_secs,
    {
        let rk = chars_of(room_name);
        match self.rooms.find(&rk) {
            None => 0,
            Some(i) => {
                let ghost old_rooms = self.rooms@;
                let (k, mut room) = self.rooms.take_at(i);
                room.state.next_event_sequence = room.state.next_event_sequence + 1;
                let sequence = room.state.next_event_sequence;
                let entry = RoomEvent {
                    sequence,
                    room: String::from_str(room_name),
                    kind: String::from_str(kind),
                    sender,
                    sender_did,
                    sender_endpoint,
                    message,
                    message_cbor_b64,
                    occurred_at: String::from_str(now_text),
                };
                room.state.push_event(MAX_EVENTS, entry);
                if announce {
                    room.state.enqueue_dispatch(RoomDispatchTask::RoomEventsSince(sequence - 1));
                }
                let ghost nr = room;
                self.rooms.insert_at(i, k, room);
                proof {
                    assert(old_rooms.remove(rk@).insert(rk@, nr) =~= old_rooms.insert(rk@, nr));
                    lemma_single_membership_shrink(old_rooms, rk@, nr);
                }
                sequence
            },
        }
    }

    /// Appends an event to the log of `room_name`, queues it for dispatch and returns its
    /// sequence number; 0 when there is no such room.
    pub fn record_room_event(
        &mut self,
        room_name: &str,
        kind: &str,
        sender: Option<String>,
        sender_did: Option<String>,
        sender_endpoint: Option<String>,
        message: String,
        now_text: &str,
    ) -> (r: u64)
        requires
            old(self).wf(),
            old(self).rooms@.dom().contains(room_name@) ==> old(self).rooms@[room_name@].state.next_event_sequence < u64::MAX,
        ensures
            final(self).wf(),
            rooms_same_except(old(self).rooms@, final(self).rooms@, room_name@),
            !old(self).rooms@.dom().contains(room_name@) ==> r == 0 && final(self).rooms@ == old(self).rooms@,
            old(self).rooms@.dom().contains(room_name@) ==> {
                let o = old(self).rooms@[room_name@];
                let n = final(self).rooms@[room_name@];
                &&& r == o.state.next_event_sequence + 1
                &&& n.state.next_event_sequence == r
                &&& n.state.events@ == pushed_events(o.state.events@, MAX_EVENTS, RoomEvent {
                    sequence: r,
                    room: n.state.events@.last().room,
                    kind: n.state.events@.last().kind,
                    sender,
                    sender_did,
                    sender_endpoint,
                    message,
                    message_cbor_b64: None,
                    occurred_at: n.state.events@.last().occurred_at,
                })
                &&& n.state.events@.last().room@ == room_name@
                &&& n.state.events@.last().kind@ == kind@
                &&& n.state.events@.last().occurred_at@ == now_text@
                &&& n.state.dispatch_queue@ == o.state.dispatch_queue@.push(
                    RoomDispatchTask::RoomEventsSince((r - 1) as u64))
                &&& n == (Room {
                    state: RoomState {
                        events: n.state.events,
                        next_event_sequence: n.state.next_event_sequence,
                        dispatch_queue: n.state.dispatch_queue,
                        ..o.state
                    },
                    ..o
                })
            },
            final(self).entry_acl == old(self).entry_acl,
            final(self).owner_did == old(self).owner_did,
            final(self).handle_to_did == old(self).handle_to_did,
            final(self).did_to_handle == old(self).did_to_handle,
            final(self).avatar_room_index == old(self).avatar_room_index,
            final(self).world_ipns == old(self).world_ipns,
            final(self).knock_inbox == old(self).knock_inbox,
            final(self).room_cids == old(self).room_cids,
            final(self).exit_reverse_index == old(self).exit_reverse_index,
            final(self).avatar_registry == old(self).avatar_registry,
            final(self).events == old(self).events,
            final(self).avatar_presence_ttl_secs == old(self).avatar_presence_ttl_secs,
    {
        self.push_room_event(room_name, kind, sender, sender_did, sender_endpoint, message, None, now_text, true)
    }

    /// The events of `room_name` after `since_sequence`, and the latest sequence number
    /// (`since_sequence` when the log is empty or there is no such room).
    pub fn room_events_since(&self, room_name: &str, since_sequence: u64) -> (r: (Vec<RoomEvent>, u64))
        requires
            self.wf(),
        ensures
            !self.rooms@.dom().contains(room_name@) ==> r.0@.len() == 0 && r.1 == since_sequence,
            self.rooms@.dom().contains(room_name@) ==> {
                let ev = self.rooms@[room_name@].state.events@;
                &&& r.0@ == ev.filter(|e: RoomEvent| e.sequence > since_sequence)
                &&& r.1 == if ev.len() > 0 { ev.last().sequence } else { since_sequence }
            },
    {
        let rk = chars_of(room_name);
        match self.rooms.get(&rk) {
            None => (Vec::new(), since_sequence),
            Some(room) => {
                let ghost ev = room.state.events@;
                let ghost pred = |e: RoomEvent| e.sequence > since_sequence;
                let mut out: Vec<RoomEvent> = Vec::new();
                let mut i: usize = 0;
                while i < room.state.events.len()
                    invariant
                        0 <= i <= ev.len(),
                        ev == room.state.events@,
                        pred == (|e: RoomEvent| e.sequence > since_sequence),
                        out@ == ev.subrange(0, i as int).filter(pred),
                    decreases ev.len() - i,
                {
                    proof {
                        ev.subrange(0, i as int).lemma_filter_push(ev[i as int], pred);
                        assert(ev.subrange(0, i as int + 1) =~= ev.subrange(0, i as int).push(ev[i as int]));
                    }
                    if room.state.events[i].sequence > since_sequence {
                        out.push(room.state.events[i].duplicate());
                    }
                    i = i + 1;
                }
                proof {
                    assert(ev.subrange(0, ev.len() as int) =~= ev);
                }
                let n = room.state.events.len();
                let latest = if n > 0 {
                    room.state.events[n - 1].sequence
                } else {
                    since_sequence
                };
                (out, latest)
            },
        }
    }

    /// Sequence number of the latest event of `room_name`; 0 when none.
    pub fn latest_room_event_sequence(&self, room_name: &str) -> (r: u64)
        requires
            self.wf(),
        ensures
            r == if self.rooms@.dom().contains(room_name@) && self.rooms@[room_name@].state.events@.len() > 0 {
                self.rooms@[room_name@].state.events@.last().sequence
            } else {
                0
            },
    {
        let rk = chars_of(room_name);
        match self.rooms.get(&rk) {
            None => 0,
            Some(room) => {
                let n = room.state.events.len();
                if n > 0 {
                    room.state.events[n - 1].sequence
                } else {
                    0
                }
            },
        }
    }

    /// Appends a chat event from `sender_handle` carrying the base64 text of a signed
    /// message; the sender must be present in the room.
    pub fn post_chat(
        &mut self,
        room_name: &str,
        sender_handle: &str,
        sender_did: &str,
        message_cbor_b64: String,
        now_text: &str,
    ) -> (r: Result<(), WorldError>)
        requires
            old(self).wf(),
            old(self).rooms@.dom().contains(room_name@) ==> old(self).rooms@[room_name@].state.next_event_sequence < u64::MAX,
        ensures
            final(self).wf(),
            (r matches Err(WorldError::RoomNotFound(_))) <==> !old(self).rooms@.dom().contains(room_name@),
            r matches Err(WorldError::RoomNotFound(n)) ==> n@ == room_name@,
            (r matches Err(WorldError::SenderNotInRoom(_))) <==> old(self).rooms@.dom().contains(room_name@)
                && !old(self).rooms@[room_name@].avatars@.dom().contains(sender_handle@),
            r matches Err(WorldError::SenderNotInRoom(h)) ==> h@ == sender_handle@,
            r is Ok <==> old(self).rooms@.dom().contains(room_name@)
                && old(self).rooms@[room_name@].avatars@.dom().contains(sender_handle@),
            r is Err ==> final(self).rooms@ == old(self).rooms@ && final(self).events == old(self).events,
            r is Ok ==> rooms_same_except(old(self).rooms@, final(self).rooms@, room_name@),
            r is Ok ==> {
                let o = old(self).rooms@[room_name@];
                let n = final(self).rooms@[room_name@];
                let e = n.state.events@.last();
                &&& n.state.next_event_sequence == o.state.next_event_sequence + 1
                &&& n.state.events@ == pushed_events(o.state.events@, MAX_EVENTS, e)
                &&& e.sequence == n.state.next_event_sequence
                &&& n.state.dispatch_queue@ == o.state.dispatch_queue@
                &&& n.avatars == o.avatars
                &&& n.acl == o.acl
            },
            r is Ok ==> {
                let e = final(self).rooms@[room_name@].state.events@.last();
                &&& e.room@ == room_name@
                &&& e.kind@ == "chat"@
                &&& e.sender is Some && e.sender->Some_0@ == sender_handle@
                &&& e.sender_did is Some && e.sender_did->Some_0@ == sender_did@
                &&& e.sender_endpoint is None
                &&& e.message@.len() == 0
                &&& e.message_cbor_b64 == Some(message_cbor_b64)
                &&& e.occurred_at@ == now_text@
            },
            r is Ok ==> final(self).events@.last()@ == now_text@ + seq![' '] + ("["@ + room_name@ + "] "@
                + sender_handle@ + ": <chat>"@),
            final(self).entry_acl == old(self).entry_acl,
            final(self).owner_did == old(self).owner_did,
            final(self).handle_to_did == old(self).handle_to_did,
            final(self).did_to_handle == old(self).did_to_handle,
            final(self).avatar_room_index == old(self).avatar_room_index,
            final(self).world_ipns == old(self).world_ipns,
            final(self).knock_inbox == old(self).knock_inbox,
            final(self).room_cids == old(self).room_cids,
            final(self).exit_reverse_index == old(self).exit_reverse_index,
            final(self).avatar_registry == old(self).avatar_registry,
            final(self).avatar_presence_ttl_secs == old(self).avatar_presence_ttl_secs,
    {
        let rk = chars_of(room_name);
        let present = match self.rooms.get(&rk) {
            None => {
                return Err(WorldError::RoomNotFound(String::from_str(room_name)));
            },
            Some(room) => {
                let hk = chars_of(sender_handle);
                room.avatars.contains_key(&hk)
            },
        };
        if !present {
            return Err(WorldError::SenderNotInRoom(String::from_str(sender_handle)));
        }
        let mut line: Vec<char> = Vec::new();
        append_lit(&mut line, "[");
        append_lit(&mut line, room_name);
        append_lit(&mut line, "] ");
        append_lit(&mut line, sender_handle);
        append_lit(&mut line, ": <chat>");
        let ls = string_of(&line);
        self.record_event(now_text, ls.as_str());
        proof {
            reveal_strlit("[");
            reveal_strlit("] ");
            reveal_strlit(": <chat>");
            reveal_strlit("chat");
            assert(ls@ =~= "["@ + room_name@ + "] "@ + sender_handle@ + ": <chat>"@);
        }
        let _ = self.push_room_event(
            room_name,
            "chat",
            Some(String::from_str(sender_handle)),
            Some(String::from_str(sender_did)),
            None,
            String::new(),
            Some(message_cbor_b64),
            now_text,
            false,
        );
        Ok(())
    }

    /// Broadcasts a signed chat message (CBOR bytes) to the event log of `room_name`,
    /// base64-encoded; the sender must be present in the room.
    pub fn send_chat(
        &mut self,
        room_name: &str,
        sender_handle: &str,
        sender_did: &str,
        message_cbor: &Vec<u8>,
        now_text: &str,
    ) -> (r: Result<(), WorldError>)
        requires
            old(self).wf(),
            message_cbor@.len() <= usize::MAX / 2,
            old(self).rooms@.dom().contains(room_name@) ==> old(self).rooms@[room_name@].state.next_event_sequence < u64::MAX,
        ensures
            final(self).wf(),
            (r matches Err(WorldError::RoomNotFound(_))) <==> !old(self).rooms@.dom().contains(room_name@),
            r matches Err(WorldError::RoomNotFound(n)) ==> n@ == room_name@,
            (r matches Err(WorldError::SenderNotInRoom(_))) <==> old(self).rooms@.dom().contains(room_name@)
                && !old(self).rooms@[room_name@].avatars@.dom().contains(sender_handle@),
            r matches Err(WorldError::SenderNotInRoom(h)) ==> h@ == sender_handle@,
            r is Ok <==> old(self).rooms@.dom().contains(room_name@)
                && old(self).rooms@[room_name@].avatars@.dom().contains(sender_handle@),
            r is Err ==> final(self).rooms@ == old(self).rooms@,
            r is Ok ==> rooms_same_except(old(self).rooms@, final(self).rooms@, room_name@),
            r is Ok ==> {
                let o = old(self).rooms@[room_name@];
                let n = final(self).rooms@[room_name@];
                let e = n.state.events@.last();
                &&& n.state.next_event_sequence == o.state.next_event_sequence + 1
                &&& n.state.events@ == pushed_events(o.state.events@, MAX_EVENTS, e)
                &&& e.sequence == n.state.next_event_sequence
                &&& e.room@ == room_name@
                &&& e.kind@ == "chat"@
                &&& e.sender is Some && e.sender->Some_0@ == sender_handle@
                &&& e.sender_did is Some && e.sender_did->Some_0@ == sender_did@
                &&& e.sender_endpoint is None
                &&& e.message@.len() == 0
                &&& e.message_cbor_b64 is Some && e.message_cbor_b64->Some_0@ == base64_standard(message_cbor@)
                &&& e.occurred_at@ == now_text@
                &&& n.avatars == o.avatars
                &&& n.acl == o.acl
            },
    {
        let b64 = b64_encode(message_cbor.as_slice());
        self.post_chat(room_name, sender_handle, sender_did, b64, now_text)
    }

    /// Removes the avatar with handle `actor_name` from `room_name` and announces it.
    pub fn leave_room(&mut self, room_name: &str, actor_name: &str, now_text: &str) -> (r: Result<(), WorldError>)
        requires
            old(self).wf(),
            old(self).rooms@.dom().contains(room_name@) ==> old(self).rooms@[room_name@].state.next_event_sequence < u64::MAX,
        ensures
            final(self).wf(),
            r is Ok <==> old(self).rooms@.dom().contains(room_name@),
            r matches Err(WorldError::RoomNotFound(n)) ==> n@ == room_name@,
            r is Err ==> final(self).rooms@ == old(self).rooms@,
            r is Ok ==> {
                let o = old(self).rooms@[room_name@];
                let n = final(self).rooms@[room_name@];
                let e = n.state.events@.last();
                &&& rooms_same_except(old(self).rooms@, final(self).rooms@, room_name@)
                &&& n.avatars@ == o.avatars@.remove(actor_name@)
                &&& n.state.dispatch_queue@ == o.state.dispatch_queue@.push(RoomDispatchTask::PresenceSnapshot).push(
                    RoomDispatchTask::RoomEventsSince(o.state.next_event_sequence))
                &&& n.state.next_event_sequence == o.state.next_event_sequence + 1
                &&& e.kind@ == "system"@
                &&& e.sender->Some_0@ == actor_name@
                &&& e.sender_did is None
                &&& e.message@ == actor_name@ + " left "@ + room_name@
                &&& final(self).events@.last()@ == now_text@ + seq![' '] + ("["@ + room_name@ + "] "@ + actor_name@ + " left"@)
                &&& forall|d: Seq<char>| #[trigger] final(self).avatar_room_index@.dom().contains(d)
                    <==> any_room_has_did(final(self).rooms@, d)
            },
            final(self).entry_acl == old(self).entry_acl,
            final(self).owner_did == old(self).owner_did,
            final(self).handle_to_did == old(self).handle_to_did,
            final(self).did_to_handle == old(self).did_to_handle,
            final(self).world_ipns == old(self).world_ipns,
            final(self).knock_inbox == old(self).knock_inbox,
            final(self).room_cids == old(self).room_cids,
            final(self).exit_reverse_index == old(self).exit_reverse_index,
            final(self).avatar_registry == old(self).avatar_registry,
            final(self).avatar_presence_ttl_secs == old(self).avatar_presence_ttl_secs,
    {
        let rk = chars_of(room_name);
        let i = match self.rooms.find(&rk) {
            None => {
                return Err(WorldError::RoomNotFound(String::from_str(room_name)));
            },
            Some(i) => i,
        };
        let ghost old_rooms = self.rooms@;
        let (k, mut room) = self.rooms.take_at(i);
        room.remove_avatar(actor_name);
        let ghost nr = room;
        self.rooms.insert_at(i, k, room);
        proof {
            assert(old_rooms.remove(rk@).insert(rk@, nr) =~= old_rooms.insert(rk@, nr));
            assert forall|d: Seq<char>| #[trigger] nr.has_did(d) implies old_rooms[rk@].has_did(d) by {
                let h = choose|h: Seq<char>| #[trigger] nr.avatars@.dom().contains(h) && nr.avatars@[h].agent_did@ == d;
                assert(old_rooms[rk@].avatars@.dom().contains(h));
            }
            lemma_single_membership_shrink(old_rooms, rk@, nr);
        }
        self.rebuild_avatar_room_index();
        let _ = self.enqueue_room_dispatch(room_name, RoomDispatchTask::PresenceSnapshot);
        let mut line: Vec<char> = Vec::new();
        append_lit(&mut line, "[");
        append_lit(&mut line, room_name);
        append_lit(&mut line, "] ");
        append_lit(&mut line, actor_name);
        append_lit(&mut line, " left");
        let ls = string_of(&line);
        self.record_event(now_text, ls.as_str());
        let mut msg: Vec<char> = Vec::new();
        append_lit(&mut msg, actor_name);
        append_lit(&mut msg, " left ");
        append_lit(&mut msg, room_name);
        let ms = string_of(&msg);
        proof {
            reveal_strlit(" left ");
            reveal_strlit("system");
        }
        let _ = self.record_room_event(room_name, "system", Some(String::from_str(actor_name)), None, None, ms, now_text);
        Ok(())
    }

    /// Moves the avatar of `req.did` from the room `prev` into `room_name`, refreshing it.
    fn move_avatar(&mut self, prev: String, room_name: &str, req: AvatarRequest, now: u64, now_text: &str) -> (r: JoinOutcome)
        requires
            old(self).wf(),
            old(self).rooms@.dom().contains(room_name@),
            old(self).rooms@.dom().contains(prev@),
            prev@ != room_name@,
            old(self).rooms@[prev@].has_did(req.did@),
            old(self).rooms@[room_name@].state.next_event_sequence < u64::MAX,
        ensures
            final(self).wf(),
            ({
                let p = prev@;
                let rn = room_name@;
                let orooms = old(self).rooms@;
                let frooms = final(self).rooms@;
                let h = handle_of(orooms[p], req.did@);
                let a = orooms[p].avatars@[h];
                &&& r.moved_from == Some(prev)
                &&& r.handle@ == a.inbox@
                &&& r.refresh_registry == request_changes(a, req)
                &&& frooms.dom() == orooms.dom()
                &&& forall|k: Seq<char>| #[trigger] frooms.dom().contains(k) && k != p && k != rn ==> frooms[k] == orooms[k]
                &&& frooms[p].avatars@ == orooms[p].avatars@.remove(h)
                &&& frooms[rn].avatars@ == orooms[rn].avatars@.insert(a.inbox@, refreshed(a, req, now))
                &&& frooms[p].state.dispatch_queue@ == orooms[p].state.dispatch_queue@.push(RoomDispatchTask::PresenceSnapshot)
                &&& frooms[rn].state.dispatch_queue@ == orooms[rn].state.dispatch_queue@.push(RoomDispatchTask::PresenceSnapshot)
                    .push(RoomDispatchTask::RoomEventsSince(orooms[rn].state.next_event_sequence))
                &&& frooms[rn].state.next_event_sequence == orooms[rn].state.next_event_sequence + 1
                &&& frooms[rn].state.events@.last().message@ == a.inbox@ + " entered "@ + rn
                &&& frooms[rn].state.events@.last().sender_did == Some(req.did)
                &&& final(self).events@.last()@ == now_text@ + seq![' '] + ("["@ + rn + "] "@ + a.inbox@
                    + " moved from "@ + p + " with "@ + req.did@)
            }),
            forall|d: Seq<char>| #[trigger] final(self).avatar_room_index@.dom().contains(d)
                <==> any_room_has_did(final(self).rooms@, d),
            final(self).entry_acl == old(self).entry_acl,
            final(self).owner_did == old(self).owner_did,
            final(self).handle_to_did == old(self).handle_to_did,
            final(self).did_to_handle == old(self).did_to_handle,
            final(self).world_ipns == old(self).world_ipns,
            final(self).knock_inbox == old(self).knock_inbox,
            final(self).room_cids == old(self).room_cids,
            final(self).exit_reverse_index == old(self).exit_reverse_index,
            final(self).avatar_registry == old(self).avatar_registry,
            final(self).avatar_presence_ttl_secs == old(self).avatar_presence_ttl_secs,
    {
        let ghost orooms = self.rooms@;
        let ghost did = req.did@;
        let dk = chars_of(req.did.as_str());
        let pk = chars_of(prev.as_str());
        let pi = self.rooms.find(&pk).unwrap();
        let (pkey, mut prev_room) = self.rooms.take_at(pi);
        let j = Self::room_has_did(&prev_room, &dk).unwrap();
        let (hk0, _a0) = prev_room.avatars.entry_at(j);
        let hk = copy_chars(hk0);
        proof {
            lemma_handle_of(orooms[prev@], did, hk@);
        }
        let mut avatar = prev_room.avatars.remove(&hk).unwrap();
        let ghost a = avatar;
        let ghost pr = prev_room;
        proof {
            assert forall|h1: Seq<char>, h2: Seq<char>|
                pr.avatars@.dom().contains(h1) && pr.avatars@.dom().contains(h2) && h1 != h2
                implies #[trigger] pr.avatars@[h1].agent_did@ != #[trigger] pr.avatars@[h2].agent_did@ by {
                assert(orooms[prev@].avatars@[h1] == pr.avatars@[h1]);
                assert(orooms[prev@].avatars@[h2] == pr.avatars@[h2]);
            }
            assert(!pr.has_did(did)) by {
                if pr.has_did(did) {
                    let h = choose|h: Seq<char>| #[trigger] pr.avatars@.dom().contains(h) && pr.avatars@[h].agent_did@ == did;
                    assert(orooms[prev@].avatars@[h].agent_did@ == orooms[prev@].avatars@[hk@].agent_did@);
                }
            }
        }
        self.rooms.insert_at(pi, pkey, prev_room);
        proof {
            assert(orooms.remove(pk@).insert(pk@, pr) =~= orooms.insert(pk@, pr));
            assert forall|d: Seq<char>| #[trigger] pr.has_did(d) implies orooms[pk@].has_did(d) by {
                let h = choose|h: Seq<char>| #[trigger] pr.avatars@.dom().contains(h) && pr.avatars@[h].agent_did@ == d;
                assert(orooms[pk@].avatars@.dom().contains(h));
            }
            lemma_single_membership_shrink(orooms, pk@, pr);
        }
        let ghost rooms1 = self.rooms@;
        let endpoint_changed = !str_eq(avatar.agent_endpoint.as_str(), req.agent_endpoint.as_str());
        let language_changed = !str_eq(avatar.language_order.as_str(), req.language_order.as_str());
        let owner_changed = !str_eq(avatar.owner.as_str(), req.owner.as_str());
        let encryption_changed = !opt_str_eq(&avatar.encryption_pubkey_multibase, &req.encryption_pubkey_multibase);
        let changed = endpoint_changed || language_changed || owner_changed || encryption_changed;
        let endpoint = req.agent_endpoint.clone();
        avatar.agent_endpoint = req.agent_endpoint;
        avatar.language_order = req.language_order;
        avatar.owner = req.owner;
        avatar.encryption_pubkey_multibase = req.encryption_pubkey_multibase;
        avatar.touch_presence(now);
        let moved_handle = avatar.inbox.clone();
        proof {
            assert(avatar == refreshed(a, req, now));
        }
        let rk = chars_of(room_name);
        let ri = self.rooms.find(&rk).unwrap();
        let (rkey, mut room) = self.rooms.take_at(ri);
        proof {
            assert(rooms1[rk@] == room);
            assert(!room.has_did(did)) by {
                assert(orooms[prev@].has_did(did));
                assert(orooms[rk@] == room);
            }
        }
        let ghost ro = room;
        room.add_avatar(avatar);
        let ghost nr = room;
        self.rooms.insert_at(ri, rkey, room);
        proof {
            assert(rooms1.remove(rk@).insert(rk@, nr) =~= rooms1.insert(rk@, nr));
            assert forall|r: Seq<char>, d: Seq<char>|
                rooms1.dom().contains(r) && r != rk@ && #[trigger] nr.has_did(d) implies !#[trigger] rooms1[r].has_did(d) by {
                let h = choose|h: Seq<char>| #[trigger] nr.avatars@.dom().contains(h) && nr.avatars@[h].agent_did@ == d;
                if h != a.inbox@ {
                    assert(ro.avatars@.dom().contains(h) && ro.avatars@[h] == nr.avatars@[h]);
                    assert(ro.has_did(d));
                } else {
                    assert(d == did);
                    if r != pk@ {
                        assert(!orooms[r].has_did(did));
                        assert(rooms1[r] == orooms[r]);
                    }
                }
            }
            lemma_single_membership_replace(rooms1, rk@, nr);
        }
        self.rebuild_avatar_room_index();
        let _ = self.enqueue_room_dispatch(prev.as_str(), RoomDispatchTask::PresenceSnapshot);
        let _ = self.enqueue_room_dispatch(room_name, RoomDispatchTask::PresenceSnapshot);
        let mut line: Vec<char> = Vec::new();
        append_lit(&mut line, "[");
        append_lit(&mut line, room_name);
        append_lit(&mut line, "] ");
        append_lit(&mut line, moved_handle.as_str());
        append_lit(&mut line, " moved from ");
        append_lit(&mut line, prev.as_str());
        append_lit(&mut line, " with ");
        append_lit(&mut line, req.did.as_str());
        let ls = string_of(&line);
        self.record_event(now_text, ls.as_str());
        let mut msg: Vec<char> = Vec::new();
        append_lit(&mut msg, moved_handle.as_str());
        append_lit(&mut msg, " entered ");
        append_lit(&mut msg, room_name);
        let ms = string_of(&msg);
        proof {
            reveal_strlit(" entered ");
            reveal_strlit("system");
        }
        let _ = self.record_room_event(
            room_name,
            "system",
            Some(moved_handle.clone()),
            Some(req.did.clone()),
            Some(endpoint),
            ms,
            now_text,
        );
        JoinOutcome { handle: moved_handle, moved_from: Some(prev), refresh_registry: changed }
    }

    /// Refreshes the avatar of `req.did`, already present in `room_name`, in place.
    fn refresh_present_avatar(&mut self, room_name: &str, req: AvatarRequest, now: u64) -> (r: JoinOutcome)
        requires
            old(self).wf(),
            old(self).rooms@.dom().contains(room_name@),
            old(self).rooms@[room_name@].has_did(req.did@),
        ensures
            final(self).wf(),
            ({
                let rn = room_name@;
                let orooms = old(self).rooms@;
                let frooms = final(self).rooms@;
                let h = handle_of(orooms[rn], req.did@);
                let a = orooms[rn].avatars@[h];
                &&& r.moved_from is None
                &&& r.handle@ == h
                &&& r.refresh_registry == request_changes(a, req)
                &&& rooms_same_except(orooms, frooms, rn)
                &&& frooms[rn] == (Room { avatars: frooms[rn].avatars, ..orooms[rn] })
                &&& frooms[rn].avatars@ == orooms[rn].avatars@.insert(h, refreshed(a, req, now))
            }),
            forall|d: Seq<char>| #[trigger] final(self).avatar_room_index@.dom().contains(d)
                <==> any_room_has_did(final(self).rooms@, d),
            final(self).entry_acl == old(self).entry_acl,
            final(self).owner_did == old(self).owner_did,
            final(self).handle_to_did == old(self).handle_to_did,
            final(self).did_to_handle == old(self).did_to_handle,
            final(self).world_ipns == old(self).world_ipns,
            final(self).knock_inbox == old(self).knock_inbox,
            final(self).room_cids == old(self).room_cids,
            final(self).exit_reverse_index == old(self).exit_reverse_index,
            final(self).avatar_registry == old(self).avatar_registry,
            final(self).events == old(self).events,
            final(self).avatar_presence_ttl_secs == old(self).avatar_presence_ttl_secs,
    {
        let ghost orooms = self.rooms@;
        let ghost did = req.did@;
        let dk = chars_of(req.did.as_str());
        let rk = chars_of(room_name);
        let ri = self.rooms.find(&rk).unwrap();
        let (rkey, mut room) = self.rooms.take_at(ri);
        let ghost ro = room;
        let j = Self::room_has_did(&room, &dk).unwrap();
        let (hk0, _a0) = room.avatars.entry_at(j);
        let hk = copy_chars(hk0);
        let hk2 = copy_chars(hk0);
        proof {
            lemma_handle_of(orooms[rk@], did, hk@);
        }
        let mut avatar = room.avatars.remove(&hk).unwrap();
        let ghost a = avatar;
        let endpoint_changed = !str_eq(avatar.agent_endpoint.as_str(), req.agent_endpoint.as_str());
        let language_changed = !str_eq(avatar.language_order.as_str(), req.language_order.as_str());
        let owner_changed = !str_eq(avatar.owner.as_str(), req.owner.as_str());
        let encryption_changed = !opt_str_eq(&avatar.encryption_pubkey_multibase, &req.encryption_pubkey_multibase);
        let changed = endpoint_changed || language_changed || owner_changed || encryption_changed;
        avatar.agent_endpoint = req.agent_endpoint;
        avatar.language_order = req.language_order;
        avatar.owner = req.owner;
        avatar.encryption_pubkey_multibase = req.encryption_pubkey_multibase;
        avatar.touch_presence(now);
        proof {
            assert(avatar == refreshed(a, req, now));
        }
        room.avatars.insert(hk2, avatar);
        let ghost nr = room;
        proof {
            assert(nr.avatars@ =~= ro.avatars@.insert(hk@, refreshed(a, req, now)));
            assert forall|h1: Seq<char>, h2: Seq<char>|
                nr.avatars@.dom().contains(h1) && nr.avatars@.dom().contains(h2) && h1 != h2
                implies #[trigger] nr.avatars@[h1].agent_did@ != #[trigger] nr.avatars@[h2].agent_did@ by {
                assert(ro.avatars@.dom().contains(h1) && ro.avatars@.dom().contains(h2));
                if h1 != hk@ && h2 != hk@ {
                    assert(ro.avatars@[h1] == nr.avatars@[h1]);
                    assert(ro.avatars@[h2] == nr.avatars@[h2]);
                } else if h1 == hk@ {
                    assert(ro.avatars@[h2] == nr.avatars@[h2]);
                    assert(ro.avatars@[h1].agent_did == nr.avatars@[h1].agent_did);
                } else {
                    assert(ro.avatars@[h1] == nr.avatars@[h1]);
                    assert(ro.avatars@[h2].agent_did == nr.avatars@[h2].agent_did);
                }
            }
        }
        self.rooms.insert_at(ri, rkey, room);
        proof {
            assert(orooms.remove(rk@).insert(rk@, nr) =~= orooms.insert(rk@, nr));
            assert forall|d: Seq<char>| #[trigger] nr.has_did(d) implies orooms[rk@].has_did(d) by {
                let h = choose|h: Seq<char>| #[trigger] nr.avatars@.dom().contains(h) && nr.avatars@[h].agent_did@ == d;
                assert(ro.avatars@.dom().contains(h));
                if h == hk@ {
                    assert(ro.avatars@[h].agent_did == nr.avatars@[h].agent_did);
                } else {
                    assert(ro.avatars@[h] == nr.avatars@[h]);
                }
            }
            lemma_single_membership_shrink(orooms, rk@, nr);
        }
        self.rebuild_avatar_room_index();
        JoinOutcome { handle: string_of(&hk), moved_from: None, refresh_registry: changed }
    }

    /// Registers a handle for `req.did`, which no room holds, and adds a new avatar to
    /// `room_name`.
    fn add_new_avatar(
        &mut self,
        room_name: &str,
        req: AvatarRequest,
        preferred_handle: Option<String>,
        now: u64,
        now_text: &str,
    ) -> (r: JoinOutcome)
        requires
            old(self).wf(),
            old(self).rooms@.dom().contains(room_name@),
            !any_room_has_did(old(self).rooms@, req.did@),
            old(self).rooms@[room_name@].state.next_event_sequence < u64::MAX,
        ensures
            final(self).wf(),
            ({
                let rn = room_name@;
                let orooms = old(self).rooms@;
                let frooms = final(self).rooms@;
                let reg = registration(
                    sview(old(self).handle_to_did@),
                    sview(old(self).did_to_handle@),
                    req.did@,
                    opt_view(preferred_handle),
                    req.did_fragment@,
                );
                &&& r.moved_from is None
                &&& r.refresh_registry
                &&& r.handle@ == reg.0
                &&& sview(final(self).handle_to_did@) == reg.1
                &&& sview(final(self).did_to_handle@) == reg.2
                &&& rooms_same_except(orooms, frooms, rn)
                &&& frooms[rn].avatars@.dom() == orooms[rn].avatars@.dom().insert(reg.0)
                &&& joined_avatar(frooms[rn].avatars@[reg.0], reg.0, req, now)
                &&& forall|k: Seq<char>| k != reg.0 && #[trigger] orooms[rn].avatars@.dom().contains(k)
                    ==> frooms[rn].avatars@[k] == orooms[rn].avatars@[k]
                &&& frooms[rn].state.dispatch_queue@ == orooms[rn].state.dispatch_queue@.push(RoomDispatchTask::PresenceSnapshot)
                    .push(RoomDispatchTask::RoomEventsSince(orooms[rn].state.next_event_sequence))
                &&& frooms[rn].state.next_event_sequence == orooms[rn].state.next_event_sequence + 1
                &&& frooms[rn].state.events@.last().message@ == reg.0 + " entered "@ + rn
                &&& frooms[rn].state.events@.last().sender_did == Some(req.did)
                &&& final(self).events@.last()@ == now_text@ + seq![' '] + ("["@ + rn + "] "@ + reg.0
                    + " joined with "@ + req.did@ + " from "@ + req.agent_endpoint@)
            }),
            forall|d: Seq<char>| #[trigger] final(self).avatar_room_index@.dom().contains(d)
                <==> any_room_has_did(final(self).rooms@, d),
            final(self).entry_acl == old(self).entry_acl,
            final(self).owner_did == old(self).owner_did,
            final(self).world_ipns == old(self).world_ipns,
            final(self).knock_inbox == old(self).knock_inbox,
            final(self).room_cids == old(self).room_cids,
            final(self).exit_reverse_index == old(self).exit_reverse_index,
            final(self).avatar_registry == old(self).avatar_registry,
            final(self).avatar_presence_ttl_secs == old(self).avatar_presence_ttl_secs,
    {
        let ghost orooms = self.rooms@;
        let ghost did = req.did@;
        let ghost req0 = req;
        let handle = self.register_handle(req.did.as_str(), preferred_handle, req.did_fragment.as_str());
        let did_s = req.did.clone();
        let endpoint = req.agent_endpoint.clone();
        let avatar = Avatar::new(
            handle.clone(),
            req.did,
            req.agent_endpoint,
            req.language_order,
            req.owner,
            req.signing_secret,
            req.encryption_pubkey_multibase,
            now,
        );
        let ghost a = avatar;
        let rk = chars_of(room_name);
        let ri = self.rooms.find(&rk).unwrap();
        let (rkey, mut room) = self.rooms.take_at(ri);
        let ghost ro = room;
        proof {
            assert(!room.has_did(did)) by {
                if room.has_did(did) {
                    assert(orooms.dom().contains(rk@) && orooms[rk@].has_did(did));
                }
            }
        }
        room.add_avatar(avatar);
        let ghost nr = room;
        self.rooms.insert_at(ri, rkey, room);
        proof {
            assert(orooms.remove(rk@).insert(rk@, nr) =~= orooms.insert(rk@, nr));
            assert forall|r: Seq<char>, d: Seq<char>|
                orooms.dom().contains(r) && r != rk@ && #[trigger] nr.has_did(d) implies !#[trigger] orooms[r].has_did(d) by {
                let h = choose|h: Seq<char>| #[trigger] nr.avatars@.dom().contains(h) && nr.avatars@[h].agent_did@ == d;
                if h != a.inbox@ {
                    assert(ro.avatars@.dom().contains(h) && ro.avatars@[h] == nr.avatars@[h]);
                    assert(ro.has_did(d));
                } else {
                    assert(d == did);
                    if orooms[r].has_did(did) {
                        assert(any_room_has_did(orooms, did));
                    }
                }
            }
            lemma_single_membership_replace(orooms, rk@, nr);
        }
        self.rebuild_avatar_room_index();
        let _ = self.enqueue_room_dispatch(room_name, RoomDispatchTask::PresenceSnapshot);
        let mut line: Vec<char> = Vec::new();
        append_lit(&mut line, "[");
        append_lit(&mut line, room_name);
        append_lit(&mut line, "] ");
        append_lit(&mut line, handle.as_str());
        append_lit(&mut line, " joined with ");
        append_lit(&mut line, did_s.as_str());
        append_lit(&mut line, " from ");
        append_lit(&mut line, endpoint.as_str());
        let ls = string_of(&line);
        self.record_event(now_text, ls.as_str());
        let mut msg: Vec<char> = Vec::new();
        append_lit(&mut msg, handle.as_str());
        append_lit(&mut msg, " entered ");
        append_lit(&mut msg, room_name);
        let ms = string_of(&msg);
        proof {
            reveal_strlit(" entered ");
            reveal_strlit("system");
        }
        let _ = self.record_room_event(
            room_name,
            "system",
            Some(handle.clone()),
            Some(did_s),
            Some(endpoint),
            ms,
            now_text,
        );
        JoinOutcome { handle, moved_from: None, refresh_registry: true }
    }

    /// Brings the avatar of `req.did` into the room `room_name`: it moves from the room
    /// it is in, is refreshed if already there, or gets a handle and joins. Each DID is in
    /// at most one room afterwards.
    pub fn join_room(
        &mut self,
        room_name: &str,
        req: AvatarRequest,
        preferred_handle: Option<String>,
        now: u64,
        now_text: &str,
    ) -> (r: Result<JoinOutcome, WorldError>)
        requires
            old(self).wf(),
            old(self).rooms@.dom().contains(room_name@) ==> old(self).rooms@[room_name@].state.next_event_sequence < u64::MAX,
        ensures
            final(self).wf(),
            (r matches Err(WorldError::RoomNotFound(_))) <==> !old(self).rooms@.dom().contains(room_name@),
            r matches Err(WorldError::RoomNotFound(n)) ==> n@ == room_name@,
            (r matches Err(WorldError::RoomAclDenied(_))) <==> old(self).rooms@.dom().contains(room_name@)
                && !old(self).rooms@[room_name@].acl.admits(req.did@),
            r matches Err(WorldError::RoomAclDenied(d)) ==> d@ == req.did@,
            r is Ok <==> old(self).rooms@.dom().contains(room_name@) && old(self).rooms@[room_name@].acl.admits(req.did@),
            r is Err ==> final(self).rooms@ == old(self).rooms@,
            r is Ok ==> final(self).rooms@.dom() == old(self).rooms@.dom(),
            r is Ok ==> final(self).rooms@[room_name@].has_did(req.did@),
            r is Ok ==> forall|d: Seq<char>| #[trigger] final(self).avatar_room_index@.dom().contains(d)
                <==> any_room_has_did(final(self).rooms@, d),
            // moved from another room
            (r is Ok && any_room_has_did(old(self).rooms@, req.did@)
                && room_of(old(self).rooms@, req.did@) != room_name@) ==> {
                let p = room_of(old(self).rooms@, req.did@);
                let rn = room_name@;
                let orooms = old(self).rooms@;
                let frooms = final(self).rooms@;
                let h = handle_of(orooms[p], req.did@);
                let a = orooms[p].avatars@[h];
                let out = r->Ok_0;
                &&& out.moved_from is Some && out.moved_from->Some_0@ == p
                &&& out.handle@ == a.inbox@
                &&& out.refresh_registry == request_changes(a, req)
                &&& forall|k: Seq<char>| #[trigger] frooms.dom().contains(k) && k != p && k != rn ==> frooms[k] == orooms[k]
                &&& frooms[p].avatars@ == orooms[p].avatars@.remove(h)
                &&& frooms[rn].avatars@ == orooms[rn].avatars@.insert(a.inbox@, refreshed(a, req, now))
                &&& frooms[p].state.dispatch_queue@ == orooms[p].state.dispatch_queue@.push(RoomDispatchTask::PresenceSnapshot)
                &&& frooms[rn].state.dispatch_queue@ == orooms[rn].state.dispatch_queue@.push(RoomDispatchTask::PresenceSnapshot)
                    .push(RoomDispatchTask::RoomEventsSince(orooms[rn].state.next_event_sequence))
                &&& frooms[rn].state.events@.last().message@ == a.inbox@ + " entered "@ + rn
                &&& final(self).events@.last()@ == now_text@ + seq![' '] + ("["@ + rn + "] "@ + a.inbox@
                    + " moved from "@ + p + " with "@ + req.did@)
                &&& final(self).handle_to_did == old(self).handle_to_did
                &&& final(self).did_to_handle == old(self).did_to_handle
            },
            // already present in the room
            (r is Ok && old(self).rooms@[room_name@].has_did(req.did@)) ==> {
                let rn = room_name@;
                let orooms = old(self).rooms@;
                let frooms = final(self).rooms@;
                let h = handle_of(orooms[rn], req.did@);
                let a = orooms[rn].avatars@[h];
                let out = r->Ok_0;
                &&& out.moved_from is None
                &&& out.handle@ == h
                &&& out.refresh_registry == request_changes(a, req)
                &&& rooms_same_except(orooms, frooms, rn)
                &&& frooms[rn] == (Room { avatars: frooms[rn].avatars, ..orooms[rn] })
                &&& frooms[rn].avatars@ == orooms[rn].avatars@.insert(h, refreshed(a, req, now))
                &&& final(self).events == old(self).events
                &&& final(self).handle_to_did == old(self).handle_to_did
                &&& final(self).did_to_handle == old(self).did_to_handle
            },
            // a first join
            (r is Ok && !any_room_has_did(old(self).rooms@, req.did@)) ==> {
                let rn = room_name@;
                let orooms = old(self).rooms@;
                let frooms = final(self).rooms@;
                let reg = registration(
                    sview(old(self).handle_to_did@),
                    sview(old(self).did_to_handle@),
                    req.did@,
                    opt_view(preferred_handle),
                    req.did_fragment@,
                );
                let out = r->Ok_0;
                &&& out.moved_from is None
                &&& out.refresh_registry
                &&& out.handle@ == reg.0
                &&& sview(final(self).handle_to_did@) == reg.1
                &&& sview(final(self).did_to_handle@) == reg.2
                &&& rooms_same_except(orooms, frooms, rn)
                &&& frooms[rn].avatars@.dom() == orooms[rn].avatars@.dom().insert(reg.0)
                &&& joined_avatar(frooms[rn].avatars@[reg.0], reg.0, req, now)
                &&& forall|k: Seq<char>| k != reg.0 && #[trigger] orooms[rn].avatars@.dom().contains(k)
                    ==> frooms[rn].avatars@[k] == orooms[rn].avatars@[k]
                &&& frooms[rn].state.dispatch_queue@ == orooms[rn].state.dispatch_queue@.push(RoomDispatchTask::PresenceSnapshot)
                    .push(RoomDispatchTask::RoomEventsSince(orooms[rn].state.next_event_sequence))
                &&& frooms[rn].state.events@.last().message@ == reg.0 + " entered "@ + rn
                &&& final(self).events@.last()@ == now_text@ + seq![' '] + ("["@ + rn + "] "@ + reg.0
                    + " joined with "@ + req.did@ + " from "@ + req.agent_endpoint@)
            },
            final(self).entry_acl == old(self).entry_acl,
            final(self).owner_did == old(self).owner_did,
            final(self).world_ipns == old(self).world_ipns,
            final(self).knock_inbox == old(self).knock_inbox,
            final(self).room_cids == old(self).room_cids,
            final(self).exit_reverse_index == old(self).exit_reverse_index,
            final(self).avatar_registry == old(self).avatar_registry,
            final(self).avatar_presence_ttl_secs == old(self).avatar_presence_ttl_secs,
    {
        let ghost orooms = self.rooms@;
        let ghost did = req.did@;
        let previous_room = self.avatar_room_for_did(req.did.as_str());
        let rk = chars_of(room_name);
        let allows = match self.rooms.get(&rk) {
            None => {
                return Err(WorldError::RoomNotFound(String::from_str(room_name)));
            },
            Some(room) => room.acl.can_enter(req.did.as_str()),
        };
        if !allows {
            return Err(WorldError::RoomAclDenied(req.did.clone()));
        }
        match previous_room {
            Some(prev) => {
                proof {
                    lemma_room_of(orooms, did, prev@);
                }
                let pk = chars_of(prev.as_str());
                if !chars_eq(&pk, &rk) {
                    let out = self.move_avatar(prev, room_name, req, now, now_text);
                    proof {
                        let h = handle_of(orooms[prev@], did);
                        let a = orooms[prev@].avatars@[h];
                        assert(self.rooms@[room_name@].avatars@.dom().contains(a.inbox@));
                        assert(self.rooms@[room_name@].avatars@[a.inbox@].agent_did@ == did);
                    }
                    Ok(out)
                } else {
                    let out = self.refresh_present_avatar(room_name, req, now);
                    proof {
                        let h = handle_of(orooms[room_name@], did);
                        assert(orooms[room_name@].avatars@.dom().contains(h) && orooms[room_name@].avatars@[h].agent_did@ == did);
                        assert(self.rooms@[room_name@].avatars@[h].agent_did@ == did);
                    }
                    Ok(out)
                }
            },
            None => {
                proof {
                    assert(!orooms[room_name@].has_did(did));
                }
                let out = self.add_new_avatar(room_name, req, preferred_handle, now, now_text);
                proof {
                    let reg = registration(
                        sview(old(self).handle_to_did@),
                        sview(old(self).did_to_handle@),
                        did,
                        opt_view(preferred_handle),
                        req.did_fragment@,
                    );
                    assert(self.rooms@[room_name@].avatars@.dom().contains(reg.0));
                }
                Ok(out)
            },
        }
    }

    /// Removes, in every room, the avatars not seen for more than `stale_after` seconds
    /// at `now`, queues a presence snapshot in each room that changed, and returns the
    /// names of those rooms in iteration order.
    pub fn prune_stale_avatars(&mut self, stale_after: u64, now: u64) -> (r: Vec<String>)
        requires
            old(self).wf(),
        ensures
            final(self).wf(),
            final(self).rooms@.dom() == old(self).rooms@.dom(),
            forall|k: Seq<char>| #[trigger] old(self).rooms@.dom().contains(k) ==> pruned_room(
                old(self).rooms@[k], final(self).rooms@[k], now, stale_after),
            strs(r@) == old(self).rooms.key_seq().filter(
                |k: Seq<char>| old(self).rooms@[k].has_stale_avatar(now, stale_after)),
            r@.len() > 0 ==> forall|d: Seq<char>| #[trigger] final(self).avatar_room_index@.dom().contains(d)
                <==> any_room_has_did(final(self).rooms@, d),
            r@.len() == 0 ==> final(self).avatar_room_index == old(self).avatar_room_index,
            final(self).entry_acl == old(self).entry_acl,
            final(self).owner_did == old(self).owner_did,
            final(self).handle_to_did == old(self).handle_to_did,
            final(self).did_to_handle == old(self).did_to_handle,
            final(self).world_ipns == old(self).world_ipns,
            final(self).knock_inbox == old(self).knock_inbox,
            final(self).room_cids == old(self).room_cids,
            final(self).exit_reverse_index == old(self).exit_reverse_index,
            final(self).avatar_registry == old(self).avatar_registry,
            final(self).events == old(self).events,
            final(self).avatar_presence_ttl_secs == old(self).avatar_presence_ttl_secs,
    {
        let ghost o = self.rooms;
        let ghost pred = |k: Seq<char>| o@[k].has_stale_avatar(now, stale_after);
        let n = self.rooms.len();
        let mut changed: Vec<String> = Vec::new();
        let mut i: usize = 0;
        while i < n
            invariant
                0 <= i <= n,
                n == o.entries@.len(),
                o.wf(),
                self.wf(),
                self.rooms.entries@.len() == n,
                forall|k: int| 0 <= k < n ==> #[trigger] self.rooms.entries@[k].0@ == o.entries@[k].0@,
                forall|k: int| 0 <= k < i ==> pruned_room(o.entries@[k].1, #[trigger] self.rooms.entries@[k].1, now, stale_after),
                forall|k: int| i <= k < n ==> #[trigger] self.rooms.entries@[k].1 == o.entries@[k].1,
                strs(changed@) == keys_of(o.entries@).subrange(0, i as int).filter(pred),
                pred == (|k: Seq<char>| o@[k].has_stale_avatar(now, stale_after)),
                self.entry_acl == old(self).entry_acl,
                self.owner_did == old(self).owner_did,
                self.handle_to_did == old(self).handle_to_did,
                self.did_to_handle == old(self).did_to_handle,
                self.world_ipns == old(self).world_ipns,
                self.knock_inbox == old(self).knock_inbox,
                self.room_cids == old(self).room_cids,
                self.exit_reverse_index == old(self).exit_reverse_index,
                self.avatar_registry == old(self).avatar_registry,
                self.events == old(self).events,
                self.avatar_presence_ttl_secs == old(self).avatar_presence_ttl_secs,
                self.avatar_room_index == old(self).avatar_room_index,
            decreases n - i,
        {
            let ghost before = self.rooms;
            let (k, mut room) = self.rooms.take_at(i);
            let ghost ro = room;
            proof {
                lemma_wf_index(o, i as int);
                lemma_wf_index(before, i as int);
                assert(ro == o@[k@]);
            }
            let removed = room.remove_stale_avatars(now, stale_after);
            if removed {
                room.state.enqueue_dispatch(RoomDispatchTask::PresenceSnapshot);
                changed.push(string_of(&k));
            }
            let ghost nr = room;
            proof {
                assert(pruned_room(ro, nr, now, stale_after));
                assert(before@.remove(k@).insert(k@, nr) =~= before@.insert(k@, nr));
                assert forall|d: Seq<char>| #[trigger] nr.has_did(d) implies before@[k@].has_did(d) by {
                    let h = choose|h: Seq<char>| #[trigger] nr.avatars@.dom().contains(h) && nr.avatars@[h].agent_did@ == d;
                    assert(ro.avatars@.dom().contains(h));
                }
                lemma_single_membership_shrink(before@, k@, nr);
                let ks = keys_of(o.entries@);
                assert(ks.subrange(0, i as int + 1) =~= ks.subrange(0, i as int).push(ks[i as int]));
                ks.subrange(0, i as int).lemma_filter_push(ks[i as int], pred);
            }
            self.rooms.insert_at(i, k, room);
            proof {
                assert forall|j: int| 0 <= j < n implies #[trigger] self.rooms.entries@[j].0@ == o.entries@[j].0@ by {
                    if j != i {
                        assert(self.rooms.entries@[j] == before.entries@[j]);
                    }
                }
                assert forall|j: int| 0 <= j < i + 1 implies pruned_room(o.entries@[j].1, #[trigger] self.rooms.entries@[j].1, now, stale_after) by {
                    if j != i {
                        assert(self.rooms.entries@[j] == before.entries@[j]);
                    }
                }
                assert forall|j: int| i + 1 <= j < n implies #[trigger] self.rooms.entries@[j].1 == o.entries@[j].1 by {
                    assert(self.rooms.entries@[j] == before.entries@[j]);
                }
            }
            i = i + 1;
        }
        proof {
            assert(keys_of(o.entries@).subrange(0, n as int) =~= o.key_seq());
            lemma_wf_dom(o);
            lemma_wf_dom(self.rooms);
            assert forall|k: Seq<char>| self.rooms@.dom().contains(k) <==> o@.dom().contains(k) by {
                if o@.dom().contains(k) {
                    let j = choose|j: int| 0 <= j < o.entries@.len() && o.entries@[j].0@ == k;
                    assert(self.rooms.entries@[j].0@ == k);
                }
                if self.rooms@.dom().contains(k) {
                    let j = choose|j: int| 0 <= j < self.rooms.entries@.len() && self.rooms.entries@[j].0@ == k;
                    assert(o.entries@[j].0@ == k);
                }
            }
            assert(self.rooms@.dom() =~= o@.dom());
            assert forall|k: Seq<char>| #[trigger] o@.dom().contains(k) implies pruned_room(o@[k], self.rooms@[k], now, stale_after) by {
                let j = choose|j: int| 0 <= j < o.entries@.len() && o.entries@[j].0@ == k;
                lemma_wf_index(o, j);
                lemma_wf_index(self.rooms, j);
                assert(self.rooms.entries@[j].0@ == k);
            }
        }
        if changed.len() > 0 {
            self.rebuild_avatar_room_index();
        }
        changed
    }

    /// Sets the presence time to live of the world and of every room.
    pub fn configure_room_avatar_ttl(&mut self, ttl_secs: u64)
        requires
            old(self).wf(),
        ensures
            final(self).wf(),
            final(self).avatar_presence_ttl_secs == ttl_secs,
            final(self).rooms@.dom() == old(self).rooms@.dom(),
            forall|k: Seq<char>| #[trigger] old(self).rooms@.dom().contains(k) ==> final(self).rooms@[k] == (Room {
                state: RoomState { avatar_ttl_secs: ttl_secs, ..old(self).rooms@[k].state },
                ..old(self).rooms@[k]
            }),
            final(self).entry_acl == old(self).entry_acl,
            final(self).owner_did == old(self).owner_did,
            final(self).handle_to_did == old(self).handle_to_did,
            final(self).did_to_handle == old(self).did_to_handle,
            final(self).avatar_room_index == old(self).avatar_room_index,
            final(self).world_ipns == old(self).world_ipns,
            final(self).knock_inbox == old(self).knock_inbox,
            final(self).room_cids == old(self).room_cids,
            final(self).exit_reverse_index == old(self).exit_reverse_index,
            final(self).avatar_registry == old(self).avatar_registry,
            final(self).events == old(self).events,
    {
        self.avatar_presence_ttl_secs = ttl_secs;
        let ghost o = self.rooms;
        let n = self.rooms.len();
        let mut i: usize = 0;
        while i < n
            invariant
                0 <= i <= n,
                n == o.entries@.len(),
                o.wf(),
                self.wf(),
                self.avatar_presence_ttl_secs == ttl_secs,
                self.rooms.entries@.len() == n,
                forall|k: int| 0 <= k < n ==> #[trigger] self.rooms.entries@[k].0@ == o.entries@[k].0@,
                forall|k: int| 0 <= k < i ==> #[trigger] self.rooms.entries@[k].1 == (Room {
                    state: RoomState { avatar_ttl_secs: ttl_secs, ..o.entries@[k].1.state },
                    ..o.entries@[k].1
                }),
                forall|k: int| i <= k < n ==> #[trigger] self.rooms.entries@[k].1 == o.entries@[k].1,
                self.entry_acl == old(self).entry_acl,
                self.owner_did == old(self).owner_did,
                self.handle_to_did == old(self).handle_to_did,
                self.did_to_handle == old(self).did_to_handle,
                self.world_ipns == old(self).world_ipns,
                self.knock_inbox == old(self).knock_inbox,
                self.room_cids == old(self).room_cids,
                self.exit_reverse_index == old(self).exit_reverse_index,
                self.avatar_registry == old(self).avatar_registry,
                self.events == old(self).events,
                self.avatar_room_index == old(self).avatar_room_index,
            decreases n - i,
        {
            let ghost before = self.rooms;
            let (k, mut room) = self.rooms.take_at(i);
            let ghost ro = room;
            proof {
                lemma_wf_index(before, i as int);
            }
            room.state.set_avatar_ttl(ttl_secs);
            let ghost nr = room;
            proof {
                assert(before@.remove(k@).insert(k@, nr) =~= before@.insert(k@, nr));
                assert forall|d: Seq<char>| #[trigger] nr.has_did(d) implies before@[k@].has_did(d) by {
                    let h = choose|h: Seq<char>| #[trigger] nr.avatars@.dom().contains(h) && nr.avatars@[h].agent_did@ == d;
                    assert(ro.avatars@.dom().contains(h));
                }
                lemma_single_membership_shrink(before@, k@, nr);
            }
            self.rooms.insert_at(i, k, room);
            proof {
                assert forall|j: int| 0 <= j < n implies #[trigger] self.rooms.entries@[j].0@ == o.entries@[j].0@ by {
                    if j != i {
                        assert(self.rooms.entries@[j] == before.entries@[j]);
                    }
                }
                assert forall|j: int| 0 <= j < i + 1 implies #[trigger] self.rooms.entries@[j].1 == (Room {
                    state: RoomState { avatar_ttl_secs: ttl_secs, ..o.entries@[j].1.state },
                    ..o.entries@[j].1
                }) by {
                    if j != i {
                        assert(self.rooms.entries@[j] == before.entries@[j]);
                    }
                }
                assert forall|j: int| i + 1 <= j < n implies #[trigger] self.rooms.entries@[j].1 == o.entries@[j].1 by {
                    assert(self.rooms.entries@[j] == before.entries@[j]);
                }
            }
            i = i + 1;
        }
        proof {
            lemma_wf_dom(o);
            lemma_wf_dom(self.rooms);
            assert forall|k: Seq<char>| self.rooms@.dom().contains(k) <==> o@.dom().contains(k) by {
                if o@.dom().contains(k) {
                    let j = choose|j: int| 0 <= j < o.entries@.len() && o.entries@[j].0@ == k;
                    assert(self.rooms.entries@[j].0@ == k);
                }
                if self.rooms@.dom().contains(k) {
                    let j = choose|j: int| 0 <= j < self.rooms.entries@.len() && self.rooms.entries@[j].0@ == k;
                    assert(o.entries@[j].0@ == k);
                }
            }
            assert(self.rooms@.dom() =~= o@.dom());
            assert forall|k: Seq<char>| #[trigger] o@.dom().contains(k) implies self.rooms@[k] == (Room {
                state: RoomState { avatar_ttl_secs: ttl_secs, ..o@[k].state },
                ..o@[k]
            }) by {
                let j = choose|j: int| 0 <= j < o.entries@.len() && o.entries@[j].0@ == k;
                lemma_wf_index(o, j);
                lemma_wf_index(self.rooms, j);
                assert(self.rooms.entries@[j].0@ == k);
            }
        }
    }

    /// Records a knock (see `KnockInbox::enqueue`).
    pub fn enqueue_knock(
        &mut self,
        room: &str,
        requester_did: &str,
        requester_endpoint: &str,
        preferred_handle: Option<String>,
        now_text: &str,
        now: i64,
    ) -> (r: (u64, bool))
        requires
            old(self).wf(),
            old(self).knock_inbox.next_id < u64::MAX,
        ensures
            final(self).wf(),
            *final(self) == (World { knock_inbox: final(self).knock_inbox, ..*old(self) }),
            ({
                let p = kept_at(old(self).knock_inbox.items@, now);
                &&& r.1 <==> exists|i: int| 0 <= i < p.len() && crate::knock::pending_match(#[trigger] p[i], requester_did@, room@)
                &&& r.1 ==> final(self).knock_inbox.items@ == p && final(self).knock_inbox.next_id == old(self).knock_inbox.next_id
                &&& !r.1 ==> r.0 == old(self).knock_inbox.next_id + 1 && final(self).knock_inbox.next_id == r.0
                    && final(self).knock_inbox.items@.last().id == r.0
            }),
    {
        self.knock_inbox.enqueue(room, requester_did, requester_endpoint, preferred_handle, now_text, now)
    }

    /// Drops the knocks no longer kept at `now`; returns how many.
    pub fn prune_knock_inbox(&mut self, now: i64) -> (r: usize)
        requires
            old(self).wf(),
        ensures
            final(self).wf(),
            *final(self) == (World { knock_inbox: final(self).knock_inbox, ..*old(self) }),
            final(self).knock_inbox.items@ == kept_at(old(self).knock_inbox.items@, now),
            r == old(self).knock_inbox.items@.len() - final(self).knock_inbox.items@.len(),
    {
        self.knock_inbox.prune(now)
    }

    /// Empties the knock inbox; returns how many knocks it held.
    pub fn flush_knock_inbox(&mut self) -> (r: usize)
        requires
            old(self).wf(),
        ensures
            final(self).wf(),
            *final(self) == (World { knock_inbox: final(self).knock_inbox, ..*old(self) }),
            r == old(self).knock_inbox.items@.len(),
            final(self).knock_inbox.items@.len() == 0,
    {
        self.knock_inbox.flush()
    }

    /// The knocks kept at `now`, only the pending ones with `pending_only`.
    pub fn list_knocks(&mut self, pending_only: bool, now: i64) -> (r: Vec<KnockMessage>)
        requires
            old(self).wf(),
        ensures
            final(self).wf(),
            *final(self) == (World { knock_inbox: final(self).knock_inbox, ..*old(self) }),
            final(self).knock_inbox.items@ == kept_at(old(self).knock_inbox.items@, now),
            r@ == final(self).knock_inbox.items@.filter(|k: KnockMessage| !pending_only || k.status == crate::knock::KnockStatus::Pending),
    {
        self.knock_inbox.list(pending_only, now)
    }

    /// Accepts the pending knock `id` and lets its requester enter the world.
    pub fn accept_knock(&mut self, id: u64, now_text: &str, now: i64) -> (r: Result<KnockMessage, KnockError>)
        requires
            old(self).wf(),
        ensures
            final(self).wf(),
            final(self).rooms == old(self).rooms,
            final(self).owner_did == old(self).owner_did,
            r is Err ==> final(self).entry_acl == old(self).entry_acl,
            ({
                let p = kept_at(old(self).knock_inbox.items@, now);
                &&& (r matches Err(KnockError::NotFound(_))) <==> (forall|j: int| 0 <= j < p.len() ==> #[trigger] p[j].id != id)
                &&& (r matches Err(KnockError::NotPending(_))) <==> (exists|j: int| 0 <= j < p.len() && #[trigger] p[j].id == id
                    && p[j].status != crate::knock::KnockStatus::Pending)
                &&& r matches Err(KnockError::NotFound(x)) ==> x == id
                &&& r matches Err(KnockError::NotPending(x)) ==> x == id
                &&& r is Err ==> final(self).knock_inbox.items@ == p
                &&& r is Ok ==> exists|j: int| 0 <= j < p.len() && #[trigger] p[j].id == id && p[j].status == crate::knock::KnockStatus::Pending && {
                    let d = r->Ok_0;
                    &&& final(self).knock_inbox.items@ == p.update(j, d)
                    &&& d == (KnockMessage {
                        status: crate::knock::KnockStatus::Accepted,
                        decided_at: d.decided_at,
                        decided_unix: Some(now),
                        ..p[j]
                    })
                    &&& d.decided_at is Some && d.decided_at->Some_0@ == now_text@
                    &&& final(self).entry_acl.did_set().contains(d.requester_did@)
                    &&& final(self).entry_acl.admits(d.requester_did@, final(self).owner_view())
                }
            }),
    {
        match self.knock_inbox.decide(id, true, None, now_text, now) {
            Err(e) => Err(e),
            Ok(k) => {
                self.allow_entry_did(k.requester_did.as_str());
                Ok(k)
            },
        }
    }

    /// Rejects the pending knock `id`, with an optional note.
    pub fn reject_knock(&mut self, id: u64, note: Option<String>, now_text: &str, now: i64) -> (r: Result<KnockMessage, KnockError>)
        requires
            old(self).wf(),
        ensures
            final(self).wf(),
            *final(self) == (World { knock_inbox: final(self).knock_inbox, ..*old(self) }),
            ({
                let p = kept_at(old(self).knock_inbox.items@, now);
                &&& (r matches Err(KnockError::NotFound(_))) <==> (forall|j: int| 0 <= j < p.len() ==> #[trigger] p[j].id != id)
                &&& (r matches Err(KnockError::NotPending(_))) <==> (exists|j: int| 0 <= j < p.len() && #[trigger] p[j].id == id
                    && p[j].status != crate::knock::KnockStatus::Pending)
                &&& r matches Err(KnockError::NotFound(x)) ==> x == id
                &&& r matches Err(KnockError::NotPending(x)) ==> x == id
                &&& r is Err ==> final(self).knock_inbox.items@ == p
                &&& r is Ok ==> exists|j: int| 0 <= j < p.len() && #[trigger] p[j].id == id && p[j].status == crate::knock::KnockStatus::Pending && {
                    let d = r->Ok_0;
                    &&& final(self).knock_inbox.items@ == p.update(j, d)
                    &&& d == (KnockMessage {
                        status: crate::knock::KnockStatus::Rejected,
                        decided_at: d.decided_at,
                        decided_unix: Some(now),
                        decision_note: note,
                        ..p[j]
                    })
                    &&& d.decided_at is Some && d.decided_at->Some_0@ == now_text@
                }
            }),
    {
        self.knock_inbox.decide(id, false, note, now_text, now)
    }

    /// Deletes the knock `id`.
    pub fn delete_knock(&mut self, id: u64, now: i64) -> (r: Result<(), KnockError>)
        requires
            old(self).wf(),
        ensures
            final(self).wf(),
            *final(self) == (World { knock_inbox: final(self).knock_inbox, ..*old(self) }),
            ({
                let p = kept_at(old(self).knock_inbox.items@, now);
                &&& r is Err <==> (forall|j: int| 0 <= j < p.len() ==> #[trigger] p[j].id != id)
                &&& r matches Err(KnockError::NotFound(x)) ==> x == id
                &&& !(r matches Err(KnockError::NotPending(_)))
                &&& r is Err ==> final(self).knock_inbox.items@ == p
                &&& r is Ok ==> final(self).knock_inbox.items@ == p.filter(|k: KnockMessage| k.id != id)
            }),
    {
        self.knock_inbox.delete(id, now)
    }
}

} // verus!
