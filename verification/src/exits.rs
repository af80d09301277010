//! The reverse index of exits: for each room, the exits of other rooms that lead to it.
use vstd::prelude::*;
use crate::room::{Exit, Room};
use crate::text::{chars_eq, chars_of, lemma_lex_antisym, lemma_lex_total, lemma_lex_trans, lex_le, lex_le_chars, trim, trim_white, string_of};
use crate::text_map::TextMap;
use crate::world::World;

verus! {

/// An exit of `from_room` that leads to the room `to`.
pub struct IncomingExitRef {
    pub from_room: String,
    pub exit_id: String,
    pub exit_name: String,
    pub to: String,
}

/// An incoming exit as text, in the order the index sorts by:
/// source room, exit name, exit id, target.
pub type ExitKey = (Seq<char>, Seq<char>, Seq<char>, Seq<char>);

impl IncomingExitRef {
    pub open spec fn key(&self) -> ExitKey {
        (self.from_room@, self.exit_name@, self.exit_id@, self.to@)
    }
}

pub open spec fn keys(v: Seq<IncomingExitRef>) -> Seq<ExitKey> {
    v.map_values(|r: IncomingExitRef| r.key())
}

/// Lexicographic order on incoming exits, each field in code-point order.
pub open spec fn exit_key_le(x: ExitKey, y: ExitKey) -> bool {
    if x.0 != y.0 {
        lex_le(x.0, y.0)
    } else if x.1 != y.1 {
        lex_le(x.1, y.1)
    } else if x.2 != y.2 {
        lex_le(x.2, y.2)
    } else {
        lex_le(x.3, y.3)
    }
}

pub open spec fn sorted_keys(s: Seq<ExitKey>) -> bool {
    forall|i: int, j: int| 0 <= i < j < s.len() ==> exit_key_le(s[i], s[j])
}

proof fn lemma_key_total(x: ExitKey, y: ExitKey)
    ensures
        exit_key_le(x, y) || exit_key_le(y, x),
{
    lemma_lex_total(x.0, y.0);
    lemma_lex_total(x.1, y.1);
    lemma_lex_total(x.2, y.2);
    lemma_lex_total(x.3, y.3);
}

proof fn lemma_lex_facts(a: Seq<char>, b: Seq<char>, c: Seq<char>)
    ensures
        lex_le(a, b) && lex_le(b, c) ==> lex_le(a, c),
        lex_le(a, b) && lex_le(b, a) ==> a == b,
        lex_le(b, c) && lex_le(c, b) ==> b == c,
        lex_le(a, c) && lex_le(c, a) ==> a == c,
{
    if lex_le(a, b) && lex_le(b, c) {
        lemma_lex_trans(a, b, c);
    }
    if lex_le(a, b) && lex_le(b, a) {
        lemma_lex_antisym(a, b);
    }
    if lex_le(b, c) && lex_le(c, b) {
        lemma_lex_antisym(b, c);
    }
    if lex_le(a, c) && lex_le(c, a) {
        lemma_lex_antisym(a, c);
    }
}

proof fn lemma_key_trans(x: ExitKey, y: ExitKey, z: ExitKey)
    requires
        exit_key_le(x, y),
        exit_key_le(y, z),
    ensures
        exit_key_le(x, z),
{
    lemma_lex_facts(x.0, y.0, z.0);
    lemma_lex_facts(x.1, y.1, z.1);
    lemma_lex_facts(x.2, y.2, z.2);
    lemma_lex_facts(x.3, y.3, z.3);
}

fn text_le(a: &String, b: &String) -> (r: bool)
    ensures
        r == lex_le(a@, b@),
{
    lex_le_chars(&chars_of(a.as_str()), &chars_of(b.as_str()))
}

fn text_eq(a: &String, b: &String) -> (r: bool)
    ensures
        r == (a@ == b@),
{
    chars_eq(&chars_of(a.as_str()), &chars_of(b.as_str()))
}

fn exit_ref_le(x: &IncomingExitRef, y: &IncomingExitRef) -> (r: bool)
    ensures
        r == exit_key_le(x.key(), y.key()),
{
    if !text_eq(&x.from_room, &y.from_room) {
        text_le(&x.from_room, &y.from_room)
    } else if !text_eq(&x.exit_name, &y.exit_name) {
        text_le(&x.exit_name, &y.exit_name)
    } else if !text_eq(&x.exit_id, &y.exit_id) {
        text_le(&x.exit_id, &y.exit_id)
    } else {
        text_le(&x.to, &y.to)
    }
}

/// Sorts incoming exits by source room, exit name, exit id and target.
fn sort_exit_refs(v: Vec<IncomingExitRef>) -> (r: Vec<IncomingExitRef>)
    ensures
        sorted_keys(keys(r@)),
        keys(r@).to_multiset() == keys(v@).to_multiset(),
{
    let mut out: Vec<IncomingExitRef> = Vec::new();
    let mut src = v;
    let ghost orig = keys(src@);
    proof {
        assert(keys(out@) + keys(src@) =~= orig);
    }
    while src.len() > 0
        invariant
            sorted_keys(keys(out@)),
            (keys(out@) + keys(src@)).to_multiset() == orig.to_multiset(),
        decreases src.len(),
    {
        let ghost src_before = keys(src@);
        let x = src.pop().unwrap();
        proof {
            assert(src_before =~= keys(src@).push(x.key()));
            vstd::seq_lib::to_multiset_build(keys(src@), x.key());
        }
        let mut pos: usize = 0;
        while pos < out.len() && exit_ref_le(&out[pos], &x)
            invariant
                0 <= pos <= out.len(),
                forall|k: int| 0 <= k < pos ==> exit_key_le(#[trigger] keys(out@)[k], x.key()),
            decreases out.len() - pos,
        {
            pos = pos + 1;
        }
        let ghost out_before = keys(out@);
        proof {
            if pos < out.len() {
                lemma_key_total(out_before[pos as int], x.key());
            }
        }
        let ghost xk = x.key();
        out.insert(pos, x);
        proof {
            let s = keys(out@);
            assert(s =~= out_before.insert(pos as int, xk));
            assert forall|i: int, j: int| 0 <= i < j < s.len() implies exit_key_le(s[i], s[j]) by {
                if j < pos {
                } else if j == pos {
                } else if i < pos {
                    assert(exit_key_le(out_before[i], out_before[j - 1]));
                } else if i == pos {
                    if pos as int != j - 1 {
                        assert(exit_key_le(out_before[pos as int], out_before[j - 1]));
                        lemma_key_trans(xk, out_before[pos as int], out_before[j - 1]);
                    }
                } else {
                    assert(exit_key_le(out_before[i - 1], out_before[j - 1]));
                }
            }
            vstd::seq_lib::to_multiset_insert(out_before, pos as int, xk);
            vstd::seq_lib::lemma_multiset_commutative(s, keys(src@));
            vstd::seq_lib::lemma_multiset_commutative(out_before, src_before);
            broadcast use vstd::multiset::group_multiset_axioms;
            assert((keys(out@) + keys(src@)).to_multiset() =~= (out_before + src_before).to_multiset());
        }
    }
    assert(keys(out@) + keys(src@) =~= keys(out@));
    out
}

/// The incoming exits that the exits `exits` of room `from` contribute, in order; an exit
/// whose target is blank once trimmed contributes none.
pub open spec fn exit_refs(from: Seq<char>, exits: Seq<Exit>) -> Seq<ExitKey>
    decreases exits.len(),
{
    if exits.len() == 0 {
        Seq::empty()
    } else {
        let rest = exit_refs(from, exits.drop_last());
        let e = exits.last();
        if trim(e.to@).len() > 0 {
            rest.push((from, e.name@, e.id@, trim(e.to@)))
        } else {
            rest
        }
    }
}

/// The incoming exits of all rooms, room by room in the map's order.
pub open spec fn all_exit_refs(rooms: Seq<(Vec<char>, Room)>) -> Seq<ExitKey>
    decreases rooms.len(),
{
    if rooms.len() == 0 {
        Seq::empty()
    } else {
        all_exit_refs(rooms.drop_last()) + exit_refs(rooms.last().0@, rooms.last().1.exits@)
    }
}

pub open spec fn leads_to(t: Seq<char>) -> spec_fn(ExitKey) -> bool {
    |k: ExitKey| k.3 == t
}

/// `idx` indexes exactly the incoming exits `refs`: a room is a key when some exit leads
/// there, and its list holds those exits, sorted.
pub open spec fn is_exit_index(idx: Map<Seq<char>, Vec<IncomingExitRef>>, refs: Seq<ExitKey>) -> bool {
    forall|t: Seq<char>| {
        &&& #[trigger] idx.dom().contains(t) <==> refs.filter(leads_to(t)).len() > 0
        &&& idx.dom().contains(t) ==> {
            &&& sorted_keys(keys(idx[t]@))
            &&& keys(idx[t]@).to_multiset() == refs.filter(leads_to(t)).to_multiset()
        }
    }
}

/// Grouping as it goes: each key's list is the incoming exits seen so far that lead there.
spec fn grouped(idx: Map<Seq<char>, Vec<IncomingExitRef>>, refs: Seq<ExitKey>) -> bool {
    forall|t: Seq<char>| {
        &&& #[trigger] idx.dom().contains(t) ==> keys(idx[t]@) == refs.filter(leads_to(t))
        &&& idx.dom().contains(t) <==> refs.filter(leads_to(t)).len() > 0
    }
}

fn add_to_group(idx: &mut TextMap<Vec<IncomingExitRef>>, target: Vec<char>, r: IncomingExitRef)
    requires
        old(idx).wf(),
    ensures
        final(idx).wf(),
        final(idx)@.dom() == old(idx)@.dom().insert(target@),
        final(idx)@[target@]@ == if old(idx)@.dom().contains(target@) {
            old(idx)@[target@]@.push(r)
        } else {
            seq![r]
        },
        forall|k: Seq<char>| k != target@ && #[trigger] old(idx)@.dom().contains(k) ==> final(idx)@[k] == old(idx)@[k],
{
    match idx.remove(&target) {
        Some(mut v) => {
            v.push(r);
            idx.insert(target, v);
        },
        None => {
            let mut v: Vec<IncomingExitRef> = Vec::new();
            v.push(r);
            idx.insert(target, v);
        },
    }
}

/// Groups the incoming exits of `rooms` by target room, in the rooms' order.
fn group_exit_refs(rooms: &TextMap<Room>) -> (r: TextMap<Vec<IncomingExitRef>>)
    ensures
        r.wf(),
        grouped(r@, all_exit_refs(rooms.entries@)),
{
    let mut idx: TextMap<Vec<IncomingExitRef>> = TextMap::new();
    let n = rooms.entries.len();
    let mut i: usize = 0;
    proof {
        assert(rooms.entries@.take(0) =~= Seq::<(Vec<char>, Room)>::empty());
        assert forall|t: Seq<char>| #[trigger] idx@.dom().contains(t) implies keys(idx@[t]@) == all_exit_refs(rooms.entries@.take(0)).filter(leads_to(t)) by {}
        assert forall|t: Seq<char>| #[trigger] idx@.dom().contains(t) <==> all_exit_refs(rooms.entries@.take(0)).filter(leads_to(t)).len() > 0 by {
            assert(all_exit_refs(rooms.entries@.take(0)).filter(leads_to(t)) =~= Seq::<ExitKey>::empty());
        }
    }
    while i < n
        invariant
            n == rooms.entries@.len(),
            0 <= i <= n,
            idx.wf(),
            grouped(idx@, all_exit_refs(rooms.entries@.take(i as int))),
        decreases n - i,
    {
        let from = &rooms.entries[i].0;
        let room = &rooms.entries[i].1;
        let ghost before = all_exit_refs(rooms.entries@.take(i as int));
        let m = room.exits.len();
        let mut j: usize = 0;
        proof {
            assert(room.exits@.take(0) =~= Seq::<Exit>::empty());
            assert(before + exit_refs(from@, room.exits@.take(0)) =~= before);
        }
        while j < m
            invariant
                m == room.exits@.len(),
                0 <= j <= m,
                idx.wf(),
                grouped(idx@, before + exit_refs(from@, room.exits@.take(j as int))),
            decreases m - j,
        {
            let e = &room.exits[j];
            let t = trim_white(&chars_of(e.to.as_str()));
            let ghost pre = before + exit_refs(from@, room.exits@.take(j as int));
            proof {
                assert(room.exits@.take(j + 1).drop_last() =~= room.exits@.take(j as int));
                assert(room.exits@.take(j + 1).last() == room.exits@[j as int]);
            }
            if t.len() > 0 {
                let ghost k: ExitKey = (from@, e.name@, e.id@, t@);
                let r = IncomingExitRef {
                    from_room: string_of(from),
                    exit_id: e.id.clone(),
                    exit_name: e.name.clone(),
                    to: string_of(&t),
                };
                assert(r.key() == k);
                let ghost old_idx = idx@;
                add_to_group(&mut idx, t, r);
                proof {
                    let post = before + exit_refs(from@, room.exits@.take(j + 1));
                    assert(post =~= pre.push(k));
                    assert forall|tt: Seq<char>| #![trigger idx@.dom().contains(tt)]
                        (idx@.dom().contains(tt) ==> keys(idx@[tt]@) == post.filter(leads_to(tt)))
                        && (idx@.dom().contains(tt) <==> post.filter(leads_to(tt)).len() > 0) by {
                        pre.lemma_filter_push(k, leads_to(tt));
                        if tt == k.3 {
                            if old_idx.dom().contains(tt) {
                                assert(keys(idx@[tt]@) =~= keys(old_idx[tt]@).push(k));
                            } else {
                                assert(pre.filter(leads_to(tt)).len() == 0);
                                assert(pre.filter(leads_to(tt)) =~= Seq::<ExitKey>::empty());
                                assert(keys(idx@[tt]@) =~= seq![k]);
                            }
                        } else {
                            if old_idx.dom().contains(tt) {
                                assert(idx@[tt] == old_idx[tt]);
                            }
                        }
                    }
                }
            } else {
                proof {
                    let post = before + exit_refs(from@, room.exits@.take(j + 1));
                    assert(post =~= pre);
                }
            }
            j = j + 1;
        }
        proof {
            assert(room.exits@.take(m as int) =~= room.exits@);
            assert(rooms.entries@.take(i + 1).drop_last() =~= rooms.entries@.take(i as int));
            assert(rooms.entries@.take(i + 1).last() == rooms.entries@[i as int]);
        }
        i = i + 1;
    }
    proof {
        assert(rooms.entries@.take(n as int) =~= rooms.entries@);
    }
    idx
}

impl World {
    /// The incoming exits of all rooms, room by room in the map's order.
    pub open spec fn exit_refs_now(&self) -> Seq<ExitKey> {
        all_exit_refs(self.rooms.entries@)
    }

    /// Recomputes the reverse index of exits from the rooms' current exits: each room that
    /// some exit leads to (its target trimmed, blank targets left out) maps to those exits,
    /// sorted by source room, exit name, exit id and target. Nothing else changes.
    pub fn rebuild_exit_reverse_index(&mut self)
        requires
            old(self).wf(),
        ensures
            final(self).wf(),
            is_exit_index(final(self).exit_reverse_index@, old(self).exit_refs_now()),
            *final(self) == (World { exit_reverse_index: final(self).exit_reverse_index, ..*old(self) }),
    {
        let ghost refs = self.exit_refs_now();
        let mut src = group_exit_refs(&self.rooms);
        let mut out: TextMap<Vec<IncomingExitRef>> = TextMap::new();
        while src.entries.len() > 0
            invariant
                src.wf(),
                out.wf(),
                forall|t: Seq<char>| #[trigger] src@.dom().contains(t) ==> keys(src@[t]@) == refs.filter(leads_to(t)) && !out@.dom().contains(t),
                forall|t: Seq<char>| #[trigger] out@.dom().contains(t) ==> {
                    &&& sorted_keys(keys(out@[t]@))
                    &&& keys(out@[t]@).to_multiset() == refs.filter(leads_to(t)).to_multiset()
                },
                forall|t: Seq<char>| #![trigger src@.dom().contains(t)] #![trigger out@.dom().contains(t)]
                    (src@.dom().contains(t) || out@.dom().contains(t)) <==> refs.filter(leads_to(t)).len() > 0,
            decreases src.entries.len(),
        {
            let last = src.entries.len() - 1;
            let ghost src0 = src@;
            let ghost out0 = out@;
            let (k, v) = src.take_at(last);
            let sv = sort_exit_refs(v);
            out.insert(k, sv);
            proof {
                assert forall|t: Seq<char>| #![trigger src@.dom().contains(t)] #![trigger out@.dom().contains(t)]
                    (src@.dom().contains(t) || out@.dom().contains(t)) <==> refs.filter(leads_to(t)).len() > 0 by {
                    assert(src0.dom().contains(t) || out0.dom().contains(t) <==> refs.filter(leads_to(t)).len() > 0);
                }
            }
        }
        proof {
            assert(src@.dom() =~= Set::<Seq<char>>::empty()) by {
                crate::text_map::lemma_map_of_dom(src.entries@);
            }
        }
        self.exit_reverse_index = out;
        proof {
            assert forall|t: Seq<char>| #[trigger] out@.dom().contains(t) <==> refs.filter(leads_to(t)).len() > 0 by {
                assert(!src@.dom().contains(t));
            }
        }
    }

    /// How many exits lead to `room_name`, as of the last rebuild of the index.
    pub fn incoming_exit_count(&self, room_name: &str) -> (r: usize)
        requires
            self.wf(),
        ensures
            r == if self.exit_reverse_index@.dom().contains(room_name@) {
                self.exit_reverse_index@[room_name@]@.len()
            } else {
                0
            },
    {
        match self.exit_reverse_index.get(&chars_of(room_name)) {
            Some(v) => v.len(),
            None => 0,
        }
    }
}

/// Right after a rebuild, the count of incoming exits of a room is the number of exits,
/// over all rooms, whose trimmed target is that room.
pub proof fn law_incoming_count_after_rebuild(idx: Map<Seq<char>, Vec<IncomingExitRef>>, refs: Seq<ExitKey>, t: Seq<char>)
    requires
        is_exit_index(idx, refs),
    ensures
        (if idx.dom().contains(t) { idx[t]@.len() } else { 0 }) == refs.filter(leads_to(t)).len(),
{
    if idx.dom().contains(t) {
        vstd::seq_lib::to_multiset_len(keys(idx[t]@));
        vstd::seq_lib::to_multiset_len(refs.filter(leads_to(t)));
    }
}

} // verus!
