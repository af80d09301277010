//! A read-only picture of the world for the status API: rooms by name, their avatars by
//! handle, and the recent world log.
use vstd::prelude::*;
use crate::avatar::Avatar;
use crate::registry::description_text;
use crate::room::Room;
use crate::text::{chars_of, lemma_lex_total, lemma_lex_trans, lex_le, lex_le_chars};
use crate::text_map::lemma_wf_index;
use crate::world::World;

verus! {

pub struct AvatarSnapshot {
    pub inbox: String,
    pub agent_did: String,
    pub agent_endpoint: String,
    pub owner: String,
    pub description: String,
    pub acl: String,
    /// Seconds since the Unix epoch.
    pub joined_at: u64,
}

pub struct RoomSnapshot {
    pub name: String,
    pub avatars: Vec<AvatarSnapshot>,
}

pub struct WorldSnapshot {
    pub rooms: Vec<RoomSnapshot>,
    pub recent_events: Vec<String>,
}

/// `s` pictures the avatar `a`.
pub open spec fn avatar_snapshot_of(a: Avatar, s: AvatarSnapshot) -> bool {
    &&& s.inbox@ == a.inbox@
    &&& s.agent_did@ == a.agent_did@
    &&& s.agent_endpoint@ == a.agent_endpoint@
    &&& s.owner@ == a.owner@
    &&& s.description@ == description_text(a)
    &&& s.acl@ == a.acl.summary_text()
    &&& s.joined_at == a.joined_at
}

pub open spec fn avatars_by_inbox(s: Seq<AvatarSnapshot>) -> bool {
    forall|i: int, j: int| 0 <= i < j < s.len() ==> lex_le(s[i].inbox@, s[j].inbox@)
}

pub open spec fn rooms_by_name(s: Seq<RoomSnapshot>) -> bool {
    forall|i: int, j: int| 0 <= i < j < s.len() ==> lex_le(s[i].name@, s[j].name@)
}

/// `s` pictures the room `r`: its name, and its avatars (one picture each) by handle.
pub open spec fn room_snapshot_of(r: Room, s: RoomSnapshot) -> bool {
    &&& s.name == r.name
    &&& avatars_by_inbox(s.avatars@)
    &&& exists|u: Seq<AvatarSnapshot>| {
        &&& u.len() == r.avatars.entries@.len()
        &&& (forall|j: int| 0 <= j < u.len() ==> avatar_snapshot_of(#[trigger] r.avatars.entries@[j].1, u[j]))
        &&& s.avatars@.to_multiset() == #[trigger] u.to_multiset()
    }
}

fn snapshot_avatar(a: &Avatar) -> (r: AvatarSnapshot)
    requires
        a.descriptions.wf(),
    ensures
        avatar_snapshot_of(*a, r),
{
    AvatarSnapshot {
        inbox: a.inbox.clone(),
        agent_did: a.agent_did.clone(),
        agent_endpoint: a.agent_endpoint.clone(),
        owner: a.owner.clone(),
        description: a.description_or_default(),
        acl: a.acl.summary(),
        joined_at: a.joined_at,
    }
}

fn sort_avatar_snapshots(v: Vec<AvatarSnapshot>) -> (r: Vec<AvatarSnapshot>)
    ensures
        avatars_by_inbox(r@),
        r@.to_multiset() == v@.to_multiset(),
{
    let mut out: Vec<AvatarSnapshot> = Vec::new();
    let mut src = v;
    let ghost orig = src@;
    proof {
        assert(out@ + src@ =~= orig);
    }
    while src.len() > 0
        invariant
            avatars_by_inbox(out@),
            (out@ + src@).to_multiset() == orig.to_multiset(),
        decreases src.len(),
    {
        let ghost src_before = src@;
        let x = src.pop().unwrap();
        proof {
            assert(src_before =~= src@.push(x));
            vstd::seq_lib::to_multiset_build(src@, x);
        }
        let xk = chars_of(x.inbox.as_str());
        let mut pos: usize = 0;
        while pos < out.len() && lex_le_chars(&chars_of(out[pos].inbox.as_str()), &xk)
            invariant
                0 <= pos <= out.len(),
                xk@ == x.inbox@,
                forall|k: int| 0 <= k < pos ==> lex_le(#[trigger] out@[k].inbox@, x.inbox@),
            decreases out.len() - pos,
        {
            pos = pos + 1;
        }
        let ghost out_before = out@;
        proof {
            if pos < out.len() {
                lemma_lex_total(out_before[pos as int].inbox@, x.inbox@);
            }
        }
        let ghost xv = x;
        out.insert(pos, x);
        proof {
            let s = out@;
            assert(s =~= out_before.insert(pos as int, xv));
            assert forall|i: int, j: int| 0 <= i < j < s.len() implies lex_le(s[i].inbox@, s[j].inbox@) by {
                if j < pos {
                } else if j == pos {
                } else if i < pos {
                    assert(lex_le(out_before[i].inbox@, out_before[j - 1].inbox@));
                } else if i == pos {
                    if pos as int != j - 1 {
                        assert(lex_le(out_before[pos as int].inbox@, out_before[j - 1].inbox@));
                        lemma_lex_trans(xv.inbox@, out_before[pos as int].inbox@, out_before[j - 1].inbox@);
                    }
                } else {
                    assert(lex_le(out_before[i - 1].inbox@, out_before[j - 1].inbox@));
                }
            }
            vstd::seq_lib::to_multiset_insert(out_before, pos as int, xv);
            vstd::seq_lib::lemma_multiset_commutative(s, src@);
            vstd::seq_lib::lemma_multiset_commutative(out_before, src_before);
            broadcast use vstd::multiset::group_multiset_axioms;
            assert((out@ + src@).to_multiset() =~= (out_before + src_before).to_multiset());
        }
    }
    assert(out@ + src@ =~= out@);
    out
}

fn sort_room_snapshots(v: Vec<RoomSnapshot>) -> (r: Vec<RoomSnapshot>)
    ensures
        rooms_by_name(r@),
        r@.to_multiset() == v@.to_multiset(),
{
    let mut out: Vec<RoomSnapshot> = Vec::new();
    let mut src = v;
    let ghost orig = src@;
    proof {
        assert(out@ + src@ =~= orig);
    }
    while src.len() > 0
        invariant
            rooms_by_name(out@),
            (out@ + src@).to_multiset() == orig.to_multiset(),
        decreases src.len(),
    {
        let ghost src_before = src@;
        let x = src.pop().unwrap();
        proof {
            assert(src_before =~= src@.push(x));
            vstd::seq_lib::to_multiset_build(src@, x);
        }
        let xk = chars_of(x.name.as_str());
        let mut pos: usize = 0;
        while pos < out.len() && lex_le_chars(&chars_of(out[pos].name.as_str()), &xk)
            invariant
                0 <= pos <= out.len(),
                xk@ == x.name@,
                forall|k: int| 0 <= k < pos ==> lex_le(#[trigger] out@[k].name@, x.name@),
            decreases out.len() - pos,
        {
            pos = pos + 1;
        }
        let ghost out_before = out@;
        proof {
            if pos < out.len() {
                lemma_lex_total(out_before[pos as int].name@, x.name@);
            }
        }
        let ghost xv = x;
        out.insert(pos, x);
        proof {
            let s = out@;
            assert(s =~= out_before.insert(pos as int, xv));
            assert forall|i: int, j: int| 0 <= i < j < s.len() implies lex_le(s[i].name@, s[j].name@) by {
                if j < pos {
                } else if j == pos {
                } else if i < pos {
                    assert(lex_le(out_before[i].name@, out_before[j - 1].name@));
                } else if i == pos {
                    if pos as int != j - 1 {
                        assert(lex_le(out_before[pos as int].name@, out_before[j - 1].name@));
                        lemma_lex_trans(xv.name@, out_before[pos as int].name@, out_before[j - 1].name@);
                    }
                } else {
                    assert(lex_le(out_before[i - 1].name@, out_before[j - 1].name@));
                }
            }
            vstd::seq_lib::to_multiset_insert(out_before, pos as int, xv);
            vstd::seq_lib::lemma_multiset_commutative(s, src@);
            vstd::seq_lib::lemma_multiset_commutative(out_before, src_before);
            broadcast use vstd::multiset::group_multiset_axioms;
            assert((out@ + src@).to_multiset() =~= (out_before + src_before).to_multiset());
        }
    }
    assert(out@ + src@ =~= out@);
    out
}

fn snapshot_room(r: &Room) -> (s: RoomSnapshot)
    requires
        r.wf(),
    ensures
        room_snapshot_of(*r, s),
{
    let mut u: Vec<AvatarSnapshot> = Vec::new();
    let mut j: usize = 0;
    while j < r.avatars.entries.len()
        invariant
            r.wf(),
            0 <= j <= r.avatars.entries@.len(),
            u@.len() == j,
            forall|k: int| 0 <= k < j ==> avatar_snapshot_of(#[trigger] r.avatars.entries@[k].1, u@[k]),
        decreases r.avatars.entries.len() - j,
    {
        let (_, a) = r.avatars.entry_at(j);
        proof {
            lemma_wf_index(r.avatars, j as int);
        }
        u.push(snapshot_avatar(a));
        j = j + 1;
    }
    let ghost gu = u@;
    let sorted = sort_avatar_snapshots(u);
    assert(sorted@.to_multiset() == gu.to_multiset());
    RoomSnapshot { name: r.name.clone(), avatars: sorted }
}

impl World {
    /// The status picture of the world: each room (by name) with its avatars (by
    /// handle), and the recent world log.
    pub fn snapshot(&self) -> (r: WorldSnapshot)
        requires
            self.wf(),
        ensures
            rooms_by_name(r.rooms@),
            exists|u: Seq<RoomSnapshot>| {
                &&& u.len() == self.rooms.entries@.len()
                &&& (forall|i: int| 0 <= i < u.len() ==> room_snapshot_of(#[trigger] self.rooms.entries@[i].1, u[i]))
                &&& r.rooms@.to_multiset() == #[trigger] u.to_multiset()
            },
            r.recent_events@ == self.events@,
    {
        let mut u: Vec<RoomSnapshot> = Vec::new();
        let mut i: usize = 0;
        while i < self.rooms.entries.len()
            invariant
                self.wf(),
                0 <= i <= self.rooms.entries@.len(),
                u@.len() == i,
                forall|k: int| 0 <= k < i ==> room_snapshot_of(#[trigger] self.rooms.entries@[k].1, u@[k]),
            decreases self.rooms.entries.len() - i,
        {
            let (_, room) = self.rooms.entry_at(i);
            proof {
                lemma_wf_index(self.rooms, i as int);
            }
            u.push(snapshot_room(room));
            i = i + 1;
        }
        let ghost gu = u@;
        let rooms = sort_room_snapshots(u);
        assert(rooms@.to_multiset() == gu.to_multiset());
        let mut events: Vec<String> = Vec::new();
        let mut k: usize = 0;
        while k < self.events.len()
            invariant
                0 <= k <= self.events@.len(),
                events@ == self.events@.subrange(0, k as int),
            decreases self.events.len() - k,
        {
            events.push(self.events[k].clone());
            proof {
                assert(self.events@.subrange(0, k + 1) =~= self.events@.subrange(0, k as int).push(self.events@[k as int]));
            }
            k = k + 1;
        }
        assert(self.events@.subrange(0, self.events@.len() as int) =~= self.events@);
        WorldSnapshot { rooms, recent_events: events }
    }
}

} // verus!
