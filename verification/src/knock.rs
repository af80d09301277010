//! The knock inbox: requests to enter a closed world, waiting for the owner's decision.
use vstd::prelude::*;
use crate::room::clone_opt_string;
use crate::text::{append_lit, chars_eq, chars_of, parse_u64, parse_u64_spec, string_of};

verus! {

pub const MAX_KNOCK_INBOX: usize = 512;

/// A pending knock is kept this long after it was made, in seconds.
pub const KNOCK_PENDING_TTL_SECS: i64 = 86400;

/// A decided knock is kept this long after the decision, in seconds.
pub const KNOCK_DECIDED_TTL_SECS: i64 = 3600;

#[derive(PartialEq, Eq, Structural, Clone, Copy, Debug)]
pub enum KnockStatus {
    Pending,
    Accepted,
    Rejected,
}

/// A request to enter, with its decision once there is one. Times are kept as text and
/// as Unix seconds (`None` where the text does not parse as a time).
pub struct KnockMessage {
    pub id: u64,
    pub room: String,
    pub requester_did: String,
    pub requester_endpoint: String,
    pub preferred_handle: Option<String>,
    pub requested_at: String,
    pub requested_unix: Option<i64>,
    pub status: KnockStatus,
    pub decision_note: Option<String>,
    pub decided_at: Option<String>,
    pub decided_unix: Option<i64>,
}

#[derive(Debug)]
pub enum KnockError {
    NotFound(u64),
    NotPending(u64),
}

impl KnockMessage {
    pub fn duplicate(&self) -> (r: Self)
        ensures
            r == *self,
    {
        KnockMessage {
            id: self.id,
            room: self.room.clone(),
            requester_did: self.requester_did.clone(),
            requester_endpoint: self.requester_endpoint.clone(),
            preferred_handle: clone_opt_string(&self.preferred_handle),
            requested_at: self.requested_at.clone(),
            requested_unix: self.requested_unix,
            status: self.status,
            decision_note: clone_opt_string(&self.decision_note),
            decided_at: clone_opt_string(&self.decided_at),
            decided_unix: self.decided_unix,
        }
    }
}

/// `a - b`, held within the range of `i64`.
pub open spec fn sat_sub(a: i64, b: i64) -> i64 {
    if a - b > i64::MAX {
        i64::MAX
    } else if a - b < i64::MIN {
        i64::MIN
    } else {
        (a - b) as i64
    }
}

fn saturating_sub_i64(a: i64, b: i64) -> (r: i64)
    ensures
        r == sat_sub(a, b),
{
    let d: i128 = a as i128 - b as i128;
    if d > i64::MAX as i128 {
        i64::MAX
    } else if d < i64::MIN as i128 {
        i64::MIN
    } else {
        d as i64
    }
}

/// Whether `k` is still kept at `now`: a pending knock for a day after it was made, a
/// decided one for an hour after the decision (a time that does not parse counts as
/// the time it falls back to: the request time, then `now`).
pub open spec fn knock_kept(k: KnockMessage, now: i64) -> bool {
    let requested = match k.requested_unix {
        Some(t) => t,
        None => now,
    };
    if k.status == KnockStatus::Pending {
        sat_sub(now, requested) <= KNOCK_PENDING_TTL_SECS
    } else {
        let decided = match k.decided_unix {
            Some(t) => t,
            None => requested,
        };
        sat_sub(now, decided) <= KNOCK_DECIDED_TTL_SECS
    }
}

/// A pending knock of `did` for `room`.
pub open spec fn pending_match(k: KnockMessage, did: Seq<char>, room: Seq<char>) -> bool {
    k.status == KnockStatus::Pending && k.requester_did@ == did && k.room@ == room
}

/// The knocks of `s` still kept at `now`, in order.
pub open spec fn kept_at(s: Seq<KnockMessage>, now: i64) -> Seq<KnockMessage> {
    s.filter(|x: KnockMessage| knock_kept(x, now))
}

/// The last `n` knocks of `s` (all of them when there are fewer).
pub open spec fn keep_last(s: Seq<KnockMessage>, n: int) -> Seq<KnockMessage> {
    if s.len() > n {
        s.subrange(s.len() - n, s.len() as int)
    } else {
        s
    }
}


/// Filtering out exactly the element at `i` removes it.
proof fn lemma_filter_all_but(s: Seq<KnockMessage>, i: int, pred: spec_fn(KnockMessage) -> bool)
    requires
        0 <= i < s.len(),
        !pred(s[i]),
        forall|j: int| 0 <= j < s.len() && j != i ==> pred(#[trigger] s[j]),
    ensures
        s.filter(pred) == s.remove(i),
    decreases s.len(),
{
    reveal(Seq::filter);
    if i == s.len() - 1 {
        assert(s.drop_last().filter(pred) == s.drop_last()) by {
            lemma_filter_all(s.drop_last(), pred);
        }
        assert(s.remove(i) =~= s.drop_last());
    } else {
        lemma_filter_all_but(s.drop_last(), i, pred);
        assert(s.remove(i) =~= s.drop_last().remove(i).push(s.last()));
    }
}

proof fn lemma_filter_all(s: Seq<KnockMessage>, pred: spec_fn(KnockMessage) -> bool)
    requires
        forall|j: int| 0 <= j < s.len() ==> pred(#[trigger] s[j]),
    ensures
        s.filter(pred) == s,
    decreases s.len(),
{
    reveal(Seq::filter);
    if s.len() > 0 {
        lemma_filter_all(s.drop_last(), pred);
        assert(s =~= s.drop_last().push(s.last()));
    }
}


/// The reply to a knock id that does not parse.
pub open spec fn invalid_knock_id(raw: Seq<char>) -> Seq<char> {
    "invalid knock id '"@ + raw + "'"@
}

/// Parses a knock id argument as `u64::from_str` does.
pub fn parse_knock_id_arg(id_raw: &str) -> (r: Result<u64, String>)
    ensures
        match r {
            Ok(v) => parse_u64_spec(id_raw@) == Some(v),
            Err(e) => parse_u64_spec(id_raw@) is None && e@ == invalid_knock_id(id_raw@),
        },
{
    match parse_u64(id_raw) {
        Some(v) => Ok(v),
        None => {
            let mut m: Vec<char> = Vec::new();
            append_lit(&mut m, "invalid knock id '");
            append_lit(&mut m, id_raw);
            append_lit(&mut m, "'");
            Err(string_of(&m))
        },
    }
}

/// `knock from <did> for room <room>`: the text of the notice a knock leaves in the
/// world mailbox.
pub fn knock_notice_body(requester_did: &str, room: &str) -> (r: String)
    ensures
        r@ == "knock from "@ + requester_did@ + " for room "@ + room@,
{
    let mut m: Vec<char> = Vec::new();
    append_lit(&mut m, "knock from ");
    append_lit(&mut m, requester_did);
    append_lit(&mut m, " for room ");
    append_lit(&mut m, room);
    string_of(&m)
}

/// Knocks in order of arrival, with the last id handed out.
pub struct KnockInbox {
    pub items: Vec<KnockMessage>,
    pub next_id: u64,
}

impl KnockInbox {
    /// Ids increase along the list and none exceeds the last one handed out.
    pub open spec fn wf(&self) -> bool {
        &&& forall|i: int, j: int| 0 <= i < j < self.items@.len() ==> self.items@[i].id < self.items@[j].id
        &&& forall|i: int| 0 <= i < self.items@.len() ==> #[trigger] self.items@[i].id <= self.next_id
        &&& self.items@.len() <= MAX_KNOCK_INBOX
    }

    pub fn new() -> (r: Self)
        ensures
            r.wf(),
            r.items@.len() == 0,
            r.next_id == 0,
    {
        KnockInbox { items: Vec::new(), next_id: 0 }
    }

    /// Drops the knocks no longer kept at `now`; returns how many.
    pub fn prune(&mut self, now: i64) -> (r: usize)
        requires
            old(self).wf(),
        ensures
            final(self).wf(),
            final(self).items@ == kept_at(old(self).items@, now),
            final(self).next_id == old(self).next_id,
            r == old(self).items@.len() - final(self).items@.len(),
    {
        let ghost s = self.items@;
        let ghost pred = |k: KnockMessage| knock_kept(k, now);
        let mut kept: Vec<KnockMessage> = Vec::new();
        let mut rest: Vec<KnockMessage> = Vec::new();
        std::mem::swap(&mut rest, &mut self.items);
        assert(s.len() == rest.len());
        let mut j: usize = 0;
        let mut removed: usize = 0;
        while rest.len() > 0
            invariant
                j <= s.len(),
                s.len() <= usize::MAX,
                rest@ == s.subrange(j as int, s.len() as int),
                kept@ == s.subrange(0, j as int).filter(pred),
                pred == (|k: KnockMessage| knock_kept(k, now)),
                removed == j - kept@.len(),
                kept@.len() <= j,
                forall|a: int, b: int| 0 <= a < b < kept@.len() ==> kept@[a].id < kept@[b].id,
                forall|a: int, b: int| 0 <= a < kept@.len() && j <= b < s.len() ==> kept@[a].id < s[b].id,
                forall|a: int| 0 <= a < kept@.len() ==> #[trigger] kept@[a].id <= old(self).next_id,
                forall|a: int, b: int| 0 <= a < b < s.len() ==> s[a].id < s[b].id,
                forall|a: int| 0 <= a < s.len() ==> #[trigger] s[a].id <= old(self).next_id,
                self.next_id == old(self).next_id,
                s == old(self).items@,
            decreases rest.len(),
        {
            proof {
                assert(j < s.len());
                s.subrange(0, j as int).lemma_filter_push(s[j as int], pred);
                assert(s.subrange(0, j as int + 1) =~= s.subrange(0, j as int).push(s[j as int]));
            }
            let k = rest.remove(0);
            assert(k == s[j as int]);
            let requested: i64 = match k.requested_unix {
                Some(t) => t,
                None => now,
            };
            let keep = if k.status == KnockStatus::Pending {
                saturating_sub_i64(now, requested) <= KNOCK_PENDING_TTL_SECS
            } else {
                let decided: i64 = match k.decided_unix {
                    Some(t) => t,
                    None => requested,
                };
                saturating_sub_i64(now, decided) <= KNOCK_DECIDED_TTL_SECS
            };
            if keep {
                kept.push(k);
            } else {
                removed = removed + 1;
            }
            proof {
                assert(rest@ =~= s.subrange(j + 1, s.len() as int));
            }
            j = j + 1;
        }
        proof {
            assert(s.subrange(0, s.len() as int) =~= s);
        }
        self.items = kept;
        removed
    }

    /// Position of the first pending knock of `did` for `room`.
    fn find_pending(&self, did: &Vec<char>, room: &Vec<char>) -> (r: Option<usize>)
        ensures
            match r {
                Some(i) => i < self.items@.len() && pending_match(self.items@[i as int], did@, room@)
                    && forall|j: int| 0 <= j < i ==> !pending_match(#[trigger] self.items@[j], did@, room@),
                None => forall|j: int| 0 <= j < self.items@.len() ==> !pending_match(#[trigger] self.items@[j], did@, room@),
            },
    {
        let mut i: usize = 0;
        while i < self.items.len()
            invariant
                0 <= i <= self.items@.len(),
                forall|j: int| 0 <= j < i ==> !pending_match(#[trigger] self.items@[j], did@, room@),
            decreases self.items.len() - i,
        {
            let k = &self.items[i];
            if k.status == KnockStatus::Pending {
                let d = chars_of(k.requester_did.as_str());
                let rm = chars_of(k.room.as_str());
                if chars_eq(&d, did) && chars_eq(&rm, room) {
                    return Some(i);
                }
            }
            i = i + 1;
        }
        None
    }

    /// Position of the knock with id `id`.
    fn find_id(&self, id: u64) -> (r: Option<usize>)
        ensures
            match r {
                Some(i) => i < self.items@.len() && self.items@[i as int].id == id,
                None => forall|j: int| 0 <= j < self.items@.len() ==> #[trigger] self.items@[j].id != id,
            },
    {
        let mut i: usize = 0;
        while i < self.items.len()
            invariant
                0 <= i <= self.items@.len(),
                forall|j: int| 0 <= j < i ==> #[trigger] self.items@[j].id != id,
            decreases self.items.len() - i,
        {
            if self.items[i].id == id {
                return Some(i);
            }
            i = i + 1;
        }
        None
    }

    /// Records a knock of `requester_did` for `room` made at `now`, after pruning. A
    /// pending knock of the same DID for the same room is answered with its id and
    /// `true`; otherwise the next id is handed out, the oldest knocks make room, and the
    /// answer is the new id and `false`.
    pub fn enqueue(
        &mut self,
        room: &str,
        requester_did: &str,
        requester_endpoint: &str,
        preferred_handle: Option<String>,
        now_text: &str,
        now: i64,
    ) -> (r: (u64, bool))
        requires
            old(self).wf(),
            old(self).next_id < u64::MAX,
        ensures
            final(self).wf(),
            ({
                let p = kept_at(old(self).items@, now);
                &&& r.1 <==> exists|i: int| 0 <= i < p.len() && pending_match(#[trigger] p[i], requester_did@, room@)
                &&& r.1 ==> {
                    &&& final(self).items@ == p
                    &&& final(self).next_id == old(self).next_id
                    &&& exists|i: int| 0 <= i < p.len() && pending_match(#[trigger] p[i], requester_did@, room@) && p[i].id == r.0
                        && forall|j: int| 0 <= j < i ==> !pending_match(#[trigger] p[j], requester_did@, room@)
                }
                &&& !r.1 ==> {
                    let k = final(self).items@.last();
                    &&& r.0 == old(self).next_id + 1
                    &&& final(self).next_id == r.0
                    &&& final(self).items@ == keep_last(p, MAX_KNOCK_INBOX - 1).push(k)
                    &&& k.id == r.0
                    &&& k.room@ == room@
                    &&& k.requester_did@ == requester_did@
                    &&& k.requester_endpoint@ == requester_endpoint@
                    &&& k.preferred_handle == preferred_handle
                    &&& k.requested_at@ == now_text@
                    &&& k.requested_unix == Some(now)
                    &&& k.status == KnockStatus::Pending
                    &&& k.decision_note is None && k.decided_at is None && k.decided_unix is None
                }
            }),
    {
        let _ = self.prune(now);
        let dk = chars_of(requester_did);
        let rk = chars_of(room);
        match self.find_pending(&dk, &rk) {
            Some(i) => {
                return (self.items[i].id, true);
            },
            None => {},
        }
        self.next_id = self.next_id + 1;
        let id = self.next_id;
        let ghost p = self.items@;
        while self.items.len() >= MAX_KNOCK_INBOX
            invariant
                self.items@ == p.subrange(p.len() - self.items@.len(), p.len() as int),
                self.items@.len() <= p.len(),
                self.items@.len() >= (if p.len() >= MAX_KNOCK_INBOX - 1 { (MAX_KNOCK_INBOX - 1) as nat } else { p.len() }),
                forall|a: int, b: int| 0 <= a < b < p.len() ==> p[a].id < p[b].id,
                forall|a: int| 0 <= a < p.len() ==> #[trigger] p[a].id < id,
                id == self.next_id,
            decreases self.items.len(),
        {
            let _ = self.items.remove(0);
            assert(self.items@ =~= p.subrange(p.len() - self.items@.len(), p.len() as int));
        }
        proof {
            if p.len() > MAX_KNOCK_INBOX - 1 {
                assert(self.items@.len() == MAX_KNOCK_INBOX - 1);
            } else {
                assert(self.items@ =~= p);
            }
            assert(self.items@ =~= keep_last(p, MAX_KNOCK_INBOX - 1));
        }
        let knock = KnockMessage {
            id,
            room: String::from_str(room),
            requester_did: String::from_str(requester_did),
            requester_endpoint: String::from_str(requester_endpoint),
            preferred_handle,
            requested_at: String::from_str(now_text),
            requested_unix: Some(now),
            status: KnockStatus::Pending,
            decision_note: None,
            decided_at: None,
            decided_unix: None,
        };
        self.items.push(knock);
        (id, false)
    }

    /// The knocks kept at `now` (only the pending ones with `pending_only`), after pruning.
    pub fn list(&mut self, pending_only: bool, now: i64) -> (r: Vec<KnockMessage>)
        requires
            old(self).wf(),
        ensures
            final(self).wf(),
            final(self).items@ == kept_at(old(self).items@, now),
            final(self).next_id == old(self).next_id,
            r@ == final(self).items@.filter(|k: KnockMessage| !pending_only || k.status == KnockStatus::Pending),
    {
        let _ = self.prune(now);
        let ghost s = self.items@;
        let ghost pred = |k: KnockMessage| !pending_only || k.status == KnockStatus::Pending;
        let mut out: Vec<KnockMessage> = Vec::new();
        let mut i: usize = 0;
        while i < self.items.len()
            invariant
                0 <= i <= s.len(),
                s == self.items@,
                pred == (|k: KnockMessage| !pending_only || k.status == KnockStatus::Pending),
                out@ == s.subrange(0, i as int).filter(pred),
            decreases s.len() - i,
        {
            proof {
                s.subrange(0, i as int).lemma_filter_push(s[i as int], pred);
                assert(s.subrange(0, i as int + 1) =~= s.subrange(0, i as int).push(s[i as int]));
            }
            if !pending_only || self.items[i].status == KnockStatus::Pending {
                out.push(self.items[i].duplicate());
            }
            i = i + 1;
        }
        proof {
            assert(s.subrange(0, s.len() as int) =~= s);
        }
        out
    }

    /// Decides the pending knock `id` (after pruning): its status, the decision time and,
    /// for a rejection, the note. Returns the decided knock.
    pub fn decide(&mut self, id: u64, accept: bool, note: Option<String>, now_text: &str, now: i64) -> (r: Result<KnockMessage, KnockError>)
        requires
            old(self).wf(),
        ensures
            final(self).wf(),
            final(self).next_id == old(self).next_id,
            ({
                let p = kept_at(old(self).items@, now);
                &&& (r matches Err(KnockError::NotFound(x))) <==> (forall|j: int| 0 <= j < p.len() ==> #[trigger] p[j].id != id)
                &&& r matches Err(KnockError::NotFound(x)) ==> x == id
                &&& (r matches Err(KnockError::NotPending(_))) <==> (exists|j: int| 0 <= j < p.len() && #[trigger] p[j].id == id
                    && p[j].status != KnockStatus::Pending)
                &&& r matches Err(KnockError::NotPending(x)) ==> x == id
                &&& r is Err ==> final(self).items@ == p
                &&& r is Ok ==> exists|j: int| 0 <= j < p.len() && #[trigger] p[j].id == id && p[j].status == KnockStatus::Pending && {
                    let d = r->Ok_0;
                    &&& final(self).items@ == p.update(j, d)
                    &&& d == (KnockMessage {
                        status: if accept { KnockStatus::Accepted } else { KnockStatus::Rejected },
                        decided_at: d.decided_at,
                        decided_unix: Some(now),
                        decision_note: if accept { p[j].decision_note } else { note },
                        ..p[j]
                    })
                    &&& d.decided_at is Some && d.decided_at->Some_0@ == now_text@
                }
            }),
    {
        let _ = self.prune(now);
        let ghost p = self.items@;
        let i = match self.find_id(id) {
            None => {
                return Err(KnockError::NotFound(id));
            },
            Some(i) => i,
        };
        proof {
            assert forall|j: int| 0 <= j < p.len() && #[trigger] p[j].id == id implies j == i by {
                if j < i {
                    assert(p[j].id < p[i as int].id);
                } else if j > i {
                    assert(p[i as int].id < p[j].id);
                }
            }
        }
        if self.items[i].status != KnockStatus::Pending {
            return Err(KnockError::NotPending(id));
        }
        let mut d = self.items[i].duplicate();
        d.status = if accept { KnockStatus::Accepted } else { KnockStatus::Rejected };
        d.decided_at = Some(String::from_str(now_text));
        d.decided_unix = Some(now);
        if !accept {
            d.decision_note = note;
        }
        let out = d.duplicate();
        self.items.set(i, d);
        Ok(out)
    }

    /// Deletes the knock `id` (after pruning).
    pub fn delete(&mut self, id: u64, now: i64) -> (r: Result<(), KnockError>)
        requires
            old(self).wf(),
        ensures
            final(self).wf(),
            final(self).next_id == old(self).next_id,
            ({
                let p = kept_at(old(self).items@, now);
                &&& r is Err <==> (forall|j: int| 0 <= j < p.len() ==> #[trigger] p[j].id != id)
                &&& r matches Err(KnockError::NotFound(x)) ==> x == id
                &&& r matches Err(KnockError::NotPending(_)) ==> false
                &&& r is Err ==> final(self).items@ == p
                &&& r is Ok ==> final(self).items@ == p.filter(|k: KnockMessage| k.id != id)
            }),
    {
        let _ = self.prune(now);
        let ghost p = self.items@;
        match self.find_id(id) {
            None => Err(KnockError::NotFound(id)),
            Some(i) => {
                let _ = self.items.remove(i);
                proof {
                    let pred = |k: KnockMessage| k.id != id;
                    assert forall|j: int| 0 <= j < p.len() && #[trigger] p[j].id == id implies j == i by {
                        if j < i {
                            assert(p[j].id < p[i as int].id);
                        } else if j > i {
                            assert(p[i as int].id < p[j].id);
                        }
                    }
                    lemma_filter_all_but(p, i as int, pred);
                }
                Ok(())
            },
        }
    }

    /// Empties the inbox; returns how many knocks it held.
    pub fn flush(&mut self) -> (r: usize)
        requires
            old(self).wf(),
        ensures
            final(self).wf(),
            r == old(self).items@.len(),
            final(self).items@.len() == 0,
            final(self).next_id == old(self).next_id,
    {
        let n = self.items.len();
        self.items = Vec::new();
        n
    }
}


/// A knock made at `now` with no earlier pending knock of the same DID for the same
/// room is, at any time up to a day later, the first pending knock of that DID for that
/// room: knocking again then gives back its id.
pub proof fn law_repeat_knock_same_id(
    old_items: Seq<KnockMessage>,
    new_items: Seq<KnockMessage>,
    k: KnockMessage,
    did: Seq<char>,
    room: Seq<char>,
    now: i64,
    later: i64,
)
    requires
        forall|i: int| 0 <= i < kept_at(old_items, now).len()
            ==> !pending_match(#[trigger] kept_at(old_items, now)[i], did, room),
        new_items == keep_last(kept_at(old_items, now), MAX_KNOCK_INBOX - 1).push(k),
        pending_match(k, did, room),
        k.requested_unix == Some(now),
        now <= later,
        later - now <= KNOCK_PENDING_TTL_SECS,
    ensures
        exists|i: int| 0 <= i < kept_at(new_items, later).len()
            && pending_match(#[trigger] kept_at(new_items, later)[i], did, room)
            && kept_at(new_items, later)[i].id == k.id
            && forall|j: int| 0 <= j < i ==> !pending_match(#[trigger] kept_at(new_items, later)[j], did, room),
{
    broadcast use vstd::seq_lib::group_filter_ensures;
    let kept_later = |x: KnockMessage| knock_kept(x, later);
    let p = kept_at(old_items, now);
    let base = keep_last(p, MAX_KNOCK_INBOX - 1);
    assert(knock_kept(k, later));
    base.lemma_filter_push(k, kept_later);
    let q = kept_at(new_items, later);
    assert(q == base.filter(kept_later).push(k));
    let i = q.len() - 1;
    assert(q[i] == k);
    assert forall|j: int| 0 <= j < i implies !pending_match(#[trigger] q[j], did, room) by {
        let x = q[j];
        assert(base.filter(kept_later)[j] == x);
        assert(base.filter(kept_later).contains(x));
        base.lemma_filter_contains_rev(kept_later, x);
        let bi = choose|bi: int| 0 <= bi < base.len() && base[bi] == x;
        if p.len() > MAX_KNOCK_INBOX - 1 {
            assert(base[bi] == p[bi + p.len() - (MAX_KNOCK_INBOX - 1)]);
        } else {
            assert(base[bi] == p[bi]);
        }
    }
}

} // verus!
