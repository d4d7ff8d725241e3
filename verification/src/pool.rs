//! The room catalogue ("pool") and its weighted assignment: `get(n)` hands
//! out up to `n` distinct rooms, the highest weight first, ties broken by
//! ascending room id. A room id appears at most once in the pool.

use vstd::prelude::*;

pub mod room;

use room::room_precedes;
use room::Room;

use crate::codec::lemma_varint_len_le_5;
use crate::codec::sizeof_varint;
use crate::codec::string_bytes;
use crate::packet::lemma_strings_bytes_concat;
use crate::packet::lemma_strings_bytes_element;
use crate::packet::lemma_strings_bytes_one;
use crate::packet::lemma_strings_bytes_take;
use crate::packet::strings_bytes;
use crate::packet::strings_ok;

verus! {

use vstd::pervasive::VecAdditionalExecFns;
use vstd::string::StringSliceAdditionalSpecFns;
use vstd::utf8::encode_utf8;

/// Some room in the catalogue carries this id.
pub open spec fn id_in(rooms: Seq<Room>, id: Seq<char>) -> bool {
    exists|j: int| 0 <= j < rooms.len() && (#[trigger] rooms[j]).id@ == id
}

/// No two rooms of the catalogue share an id.
pub open spec fn unique_ids(rooms: Seq<Room>) -> bool {
    forall|i: int, j: int|
        0 <= i < j < rooms.len() ==> (#[trigger] rooms[i]).id@ != (#[trigger] rooms[j]).id@
}

/// `r` placed into an already-sorted catalogue, before the first room it
/// precedes.
pub open spec fn insert_sorted(r: Room, s: Seq<Room>) -> Seq<Room>
    decreases s.len(),
{
    if s.len() == 0 {
        seq![r]
    } else if room_precedes(r, s[0]) {
        seq![r] + s
    } else {
        seq![s[0]] + insert_sorted(r, s.skip(1))
    }
}

/// The catalogue in assignment order: insertion sort by preference.
pub open spec fn sort_rooms(s: Seq<Room>) -> Seq<Room>
    decreases s.len(),
{
    if s.len() == 0 {
        Seq::empty()
    } else {
        insert_sorted(s[0], sort_rooms(s.skip(1)))
    }
}

/// How many rooms an assignment of `n` from a catalogue of `len` hands out.
pub open spec fn assign_len(n: int, len: int) -> int {
    if n <= len {
        n
    } else {
        len
    }
}

/// The ids `get(n)` returns: the first `n` of the catalogue in assignment
/// order, or all of them if fewer exist.
pub open spec fn assignment(rooms: Seq<Room>, n: int) -> Seq<Seq<char>> {
    sort_rooms(rooms).take(assign_len(n, rooms.len() as int)).map(|i: int, r: Room| r.id@)
}

/// The ids of the catalogue's rooms, in order.
pub open spec fn ids_of(rooms: Seq<Room>) -> Seq<Seq<char>> {
    rooms.map(|i: int, r: Room| r.id@)
}

/// The whole catalogue's ids fit one frame: their wire encodings, with the
/// count prefix and the frame header beside them, stay within the declared
/// wire width. This is what lets any assignment be framed as a reply.
pub open spec fn ids_fit(rooms: Seq<Room>) -> bool {
    strings_bytes(ids_of(rooms)).len() + 10 <= u32::MAX
}

/// A counter one observation higher, stopping at the counter's ceiling.
pub open spec fn next_obs(c: u64) -> u64 {
    if c == u64::MAX {
        c
    } else {
        (c + 1) as u64
    }
}

/// The index of the room carrying `id`; meaningful only when `id_in` holds
/// and the ids are unique.
pub open spec fn index_of_id(rooms: Seq<Room>, id: Seq<char>) -> int {
    choose|j: int| 0 <= j < rooms.len() && (#[trigger] rooms[j]).id@ == id
}

/// The observation counters after one observation of `id`: the matching
/// room's counter goes up by one; an unknown id changes nothing.
pub open spec fn observe_one(obs: Seq<u64>, rooms: Seq<Room>, id: Seq<char>) -> Seq<u64> {
    if id_in(rooms, id) {
        obs.update(index_of_id(rooms, id), next_obs(obs[index_of_id(rooms, id)]))
    } else {
        obs
    }
}

/// The observation counters after observing each id in the list in order.
pub open spec fn observe_list(obs: Seq<u64>, rooms: Seq<Room>, ids: Seq<Seq<char>>) -> Seq<u64>
    decreases ids.len(),
{
    if ids.len() == 0 {
        obs
    } else {
        observe_list(observe_one(obs, rooms, ids[0]), rooms, ids.skip(1))
    }
}

proof fn lemma_insert_sorted_len(r: Room, s: Seq<Room>)
    ensures
        insert_sorted(r, s).len() == s.len() + 1,
    decreases s.len(),
{
    if s.len() == 0 {
    } else if room_precedes(r, s[0]) {
    } else {
        lemma_insert_sorted_len(r, s.skip(1));
    }
}

proof fn lemma_sort_rooms_len(s: Seq<Room>)
    ensures
        sort_rooms(s).len() == s.len(),
    decreases s.len(),
{
    if s.len() == 0 {
    } else {
        lemma_sort_rooms_len(s.skip(1));
        lemma_insert_sorted_len(s[0], sort_rooms(s.skip(1)));
    }
}

proof fn lemma_insert_sorted_id_in(r: Room, s: Seq<Room>, id: Seq<char>)
    ensures
        id_in(insert_sorted(r, s), id) <==> (id == r.id@ || id_in(s, id)),
    decreases s.len(),
{
    let t = insert_sorted(r, s);
    if s.len() == 0 {
        assert(t =~= seq![r]);
        if id == r.id@ {
            assert(t[0].id@ == id);
        }
        if id_in(t, id) {
            let j = choose|j: int| 0 <= j < t.len() && (#[trigger] t[j]).id@ == id;
            assert(t[j] == r);
        }
    } else if room_precedes(r, s[0]) {
        assert(t =~= seq![r] + s);
        if id == r.id@ {
            assert(t[0].id@ == id);
        }
        if id_in(s, id) {
            let j = choose|j: int| 0 <= j < s.len() && (#[trigger] s[j]).id@ == id;
            assert(t[j + 1].id@ == id);
        }
        if id_in(t, id) {
            let j = choose|j: int| 0 <= j < t.len() && (#[trigger] t[j]).id@ == id;
            if j > 0 {
                assert(s[j - 1].id@ == id);
            }
        }
    } else {
        lemma_insert_sorted_id_in(r, s.skip(1), id);
        let u = insert_sorted(r, s.skip(1));
        assert(t =~= seq![s[0]] + u);
        if id == s[0].id@ {
            assert(t[0].id@ == id);
        }
        if id_in(s, id) {
            let j = choose|j: int| 0 <= j < s.len() && (#[trigger] s[j]).id@ == id;
            if j == 0 {
                assert(t[0].id@ == id);
            } else {
                assert(s.skip(1)[j - 1].id@ == id);
                assert(id_in(s.skip(1), id));
                let ju = choose|ju: int| 0 <= ju < u.len() && (#[trigger] u[ju]).id@ == id;
                assert(t[ju + 1].id@ == id);
            }
        }
        if id == r.id@ {
            let ju = choose|ju: int| 0 <= ju < u.len() && (#[trigger] u[ju]).id@ == id;
            assert(t[ju + 1].id@ == id);
        }
        if id_in(t, id) {
            let j = choose|j: int| 0 <= j < t.len() && (#[trigger] t[j]).id@ == id;
            if j == 0 {
                assert(s[0].id@ == id);
            } else {
                assert(u[j - 1].id@ == id);
                assert(id_in(u, id));
                if !(id == r.id@) {
                    let js = choose|js: int| 0 <= js < s.skip(1).len() && (#[trigger] s.skip(
                        1,
                    )[js]).id@ == id;
                    assert(s[js + 1].id@ == id);
                }
            }
        }
    }
}

proof fn lemma_unique_ids_skip(s: Seq<Room>)
    requires
        unique_ids(s),
        s.len() >= 1,
    ensures
        unique_ids(s.skip(1)),
        forall|j: int| 0 <= j < s.skip(1).len() ==> (#[trigger] s.skip(1)[j]).id@ != s[0].id@,
{
    assert forall|i: int, j: int| 0 <= i < j < s.skip(1).len() implies (#[trigger] s.skip(
        1,
    )[i]).id@ != (#[trigger] s.skip(1)[j]).id@ by {
        assert(s.skip(1)[i] == s[i + 1]);
        assert(s.skip(1)[j] == s[j + 1]);
    }
    assert forall|j: int| 0 <= j < s.skip(1).len() implies (#[trigger] s.skip(1)[j]).id@
        != s[0].id@ by {
        assert(s.skip(1)[j] == s[j + 1]);
    }
}

proof fn lemma_insert_sorted_unique(r: Room, s: Seq<Room>)
    requires
        unique_ids(s),
        !id_in(s, r.id@),
    ensures
        unique_ids(insert_sorted(r, s)),
    decreases s.len(),
{
    let t = insert_sorted(r, s);
    if s.len() == 0 {
        assert(t =~= seq![r]);
    } else if room_precedes(r, s[0]) {
        assert(t =~= seq![r] + s);
        assert forall|i: int, j: int| 0 <= i < j < t.len() implies (#[trigger] t[i]).id@ != (
        #[trigger] t[j]).id@ by {
            if i == 0 {
                assert(t[j] == s[j - 1]);
                if t[j].id@ == r.id@ {
                    assert(id_in(s, r.id@));
                }
            } else {
                assert(t[i] == s[i - 1]);
                assert(t[j] == s[j - 1]);
            }
        }
    } else {
        lemma_unique_ids_skip(s);
        assert(!id_in(s.skip(1), r.id@)) by {
            if id_in(s.skip(1), r.id@) {
                let j = choose|j: int| 0 <= j < s.skip(1).len() && (#[trigger] s.skip(1)[j]).id@
                    == r.id@;
                assert(s[j + 1].id@ == r.id@);
            }
        }
        lemma_insert_sorted_unique(r, s.skip(1));
        let u = insert_sorted(r, s.skip(1));
        assert(t =~= seq![s[0]] + u);
        assert forall|i: int, j: int| 0 <= i < j < t.len() implies (#[trigger] t[i]).id@ != (
        #[trigger] t[j]).id@ by {
            if i == 0 {
                assert(t[j] == u[j - 1]);
                lemma_insert_sorted_id_in(r, s.skip(1), t[j].id@);
                if t[j].id@ == s[0].id@ {
                    if t[j].id@ == r.id@ {
                        assert(id_in(s, r.id@));
                    } else {
                        assert(id_in(s.skip(1), t[j].id@));
                        let js = choose|js: int|
                            0 <= js < s.skip(1).len() && (#[trigger] s.skip(1)[js]).id@
                                == t[j].id@;
                        assert(s[js + 1].id@ == s[0].id@);
                    }
                }
            } else {
                assert(t[i] == u[i - 1]);
                assert(t[j] == u[j - 1]);
            }
        }
    }
}

proof fn lemma_sort_rooms_unique(s: Seq<Room>)
    requires
        unique_ids(s),
    ensures
        unique_ids(sort_rooms(s)),
        forall|id: Seq<char>| id_in(sort_rooms(s), id) <==> id_in(s, id),
    decreases s.len(),
{
    if s.len() == 0 {
        assert forall|id: Seq<char>| id_in(sort_rooms(s), id) <==> id_in(s, id) by {
        }
    } else {
        lemma_unique_ids_skip(s);
        lemma_sort_rooms_unique(s.skip(1));
        let u = sort_rooms(s.skip(1));
        assert(!id_in(u, s[0].id@)) by {
            if id_in(u, s[0].id@) {
                assert(id_in(s.skip(1), s[0].id@));
                let j = choose|j: int| 0 <= j < s.skip(1).len() && (#[trigger] s.skip(1)[j]).id@
                    == s[0].id@;
                assert(s[j + 1].id@ == s[0].id@);
            }
        }
        lemma_insert_sorted_unique(s[0], u);
        assert forall|id: Seq<char>| id_in(sort_rooms(s), id) <==> id_in(s, id) by {
            lemma_insert_sorted_id_in(s[0], u, id);
            if id == s[0].id@ {
                assert(s[0].id@ == id);
                assert(id_in(s, id));
            }
            if id_in(s.skip(1), id) {
                let j = choose|j: int| 0 <= j < s.skip(1).len() && (#[trigger] s.skip(1)[j]).id@
                    == id;
                assert(s[j + 1].id@ == id);
            }
            if id_in(s, id) && id != s[0].id@ {
                let j = choose|j: int| 0 <= j < s.len() && (#[trigger] s[j]).id@ == id;
                assert(s.skip(1)[j - 1].id@ == id);
                assert(id_in(s.skip(1), id));
            }
        }
    }
}

proof fn lemma_insert_sorted_at(r: Room, s: Seq<Room>, p: int)
    requires
        0 <= p <= s.len(),
        forall|i: int| 0 <= i < p ==> !room_precedes(r, #[trigger] s[i]),
        p < s.len() ==> room_precedes(r, s[p]),
    ensures
        insert_sorted(r, s) == s.insert(p, r),
    decreases s.len(),
{
    if s.len() == 0 {
        assert(insert_sorted(r, s) =~= s.insert(0, r));
    } else if p == 0 {
        assert(insert_sorted(r, s) =~= s.insert(0, r));
    } else {
        assert(!room_precedes(r, s[0]));
        assert(forall|i: int| 0 <= i < p - 1 ==> !room_precedes(r, #[trigger] s.skip(1)[i]))
            by {
            assert(forall|i: int| 0 <= i < p - 1 ==> s.skip(1)[i] == s[i + 1]);
        }
        assert(p - 1 < s.skip(1).len() ==> room_precedes(r, s.skip(1)[p - 1])) by {
            if p < s.len() {
                assert(s.skip(1)[p - 1] == s[p]);
            }
        }
        lemma_insert_sorted_at(r, s.skip(1), p - 1);
        assert(insert_sorted(r, s) =~= seq![s[0]] + s.skip(1).insert(p - 1, r));
        assert(seq![s[0]] + s.skip(1).insert(p - 1, r) =~= s.insert(p, r));
    }
}


proof fn lemma_observe_list_snoc(obs: Seq<u64>, rooms: Seq<Room>, ids: Seq<Seq<char>>, id: Seq<char>)
    ensures
        observe_list(obs, rooms, ids + seq![id]) == observe_one(
            observe_list(obs, rooms, ids),
            rooms,
            id,
        ),
    decreases ids.len(),
{
    if ids.len() == 0 {
        assert(ids + seq![id] =~= seq![id]);
        assert((ids + seq![id])[0] == id);
        assert((ids + seq![id]).skip(1) =~= Seq::<Seq<char>>::empty());
        assert(observe_list(observe_one(obs, rooms, id), rooms, Seq::<Seq<char>>::empty())
            == observe_one(obs, rooms, id));
        assert(observe_list(obs, rooms, ids) == obs);
    } else {
        assert((ids + seq![id]).skip(1) =~= ids.skip(1) + seq![id]);
        assert((ids + seq![id])[0] == ids[0]);
        lemma_observe_list_snoc(observe_one(obs, rooms, ids[0]), rooms, ids.skip(1), id);
    }
}

proof fn lemma_ids_of_insert_len(r: Room, s: Seq<Room>)
    ensures
        strings_bytes(ids_of(insert_sorted(r, s))).len() == string_bytes(r.id@).len()
            + strings_bytes(ids_of(s)).len(),
    decreases s.len(),
{
    if s.len() == 0 {
        assert(ids_of(insert_sorted(r, s)) =~= seq![r.id@]);
        lemma_strings_bytes_one(r.id@);
        assert(strings_bytes(ids_of(s)) =~= Seq::<u8>::empty());
    } else if room_precedes(r, s[0]) {
        assert(ids_of(insert_sorted(r, s)) =~= seq![r.id@] + ids_of(s));
        lemma_strings_bytes_concat(seq![r.id@], ids_of(s));
        lemma_strings_bytes_one(r.id@);
    } else {
        let u = insert_sorted(r, s.skip(1));
        assert(ids_of(insert_sorted(r, s)) =~= seq![s[0].id@] + ids_of(u));
        lemma_strings_bytes_concat(seq![s[0].id@], ids_of(u));
        lemma_strings_bytes_one(s[0].id@);
        lemma_ids_of_insert_len(r, s.skip(1));
        assert(ids_of(s) =~= seq![s[0].id@] + ids_of(s.skip(1)));
        lemma_strings_bytes_concat(seq![s[0].id@], ids_of(s.skip(1)));
    }
}

proof fn lemma_ids_of_sort_len(s: Seq<Room>)
    ensures
        strings_bytes(ids_of(sort_rooms(s))).len() == strings_bytes(ids_of(s)).len(),
    decreases s.len(),
{
    if s.len() == 0 {
        assert(ids_of(sort_rooms(s)) =~= ids_of(s));
    } else {
        lemma_ids_of_sort_len(s.skip(1));
        lemma_ids_of_insert_len(s[0], sort_rooms(s.skip(1)));
        assert(ids_of(s) =~= seq![s[0].id@] + ids_of(s.skip(1)));
        lemma_strings_bytes_concat(seq![s[0].id@], ids_of(s.skip(1)));
        lemma_strings_bytes_one(s[0].id@);
    }
}

/// When the whole catalogue's ids fit one frame, so does any assignment
/// drawn from it: its strings are each representable, together they leave
/// room for the count and the frame header, and there are no more of them
/// than the catalogue holds.
pub proof fn lemma_assignment_fits(rooms: Seq<Room>, n: int)
    requires
        0 <= n,
        ids_fit(rooms),
    ensures
        strings_bytes(assignment(rooms, n)).len() + 10 <= u32::MAX,
        strings_ok(assignment(rooms, n)),
        assignment(rooms, n).len() == assign_len(n, rooms.len() as int),
        assignment(rooms, n).len() <= rooms.len(),
{
    lemma_sort_rooms_len(rooms);
    let sorted = sort_rooms(rooms);
    let m = assign_len(n, rooms.len() as int);
    assert(assignment(rooms, n) =~= ids_of(sorted).take(m));
    lemma_ids_of_sort_len(rooms);
    lemma_strings_bytes_take(ids_of(sorted), m);
    assert forall|k: int| 0 <= k < assignment(rooms, n).len() implies encode_utf8(
        #[trigger] assignment(rooms, n)[k],
    ).len() <= u32::MAX by {
        lemma_strings_bytes_element(ids_of(sorted).take(m), k);
    }
}

/// The room catalogue and the observation counter of each room, index for
/// index.
pub struct Pool {
    pub rooms: Vec<Room>,
    pub observations: Vec<u64>,
}

impl Pool {
    /// One counter per room, no id twice, and ids that fit one frame.
    pub open spec fn wf(&self) -> bool {
        &&& self.observations@.len() == self.rooms@.len()
        &&& unique_ids(self.rooms@)
        &&& ids_fit(self.rooms@)
    }

    /// The total wire length of the catalogue's ids.
    fn ids_wire_len(&self) -> (r: u64)
        requires
            self.wf(),
        ensures
            r == strings_bytes(ids_of(self.rooms@)).len(),
            r + 10 <= u32::MAX,
    {
        let mut acc: u64 = 0;
        let mut i: usize = 0;
        proof {
            assert(ids_of(self.rooms@.take(0)) =~= Seq::<Seq<char>>::empty());
        }
        while i < self.rooms.len()
            invariant
                self.wf(),
                i <= self.rooms@.len(),
                acc == strings_bytes(ids_of(self.rooms@.take(i as int))).len(),
                acc + 10 <= u32::MAX,
            decreases self.rooms@.len() - i,
        {
            proof {
                lemma_strings_bytes_element(ids_of(self.rooms@), i as int);
                assert(ids_of(self.rooms@)[i as int] == self.rooms@[i as int].id@);
                assert(encode_utf8(self.rooms@[i as int].id@).len() + 10 <= u32::MAX);
            }
            let idlen = self.rooms[i].id.as_str().len();
            proof {
                lemma_varint_len_le_5(idlen as u32);
            }
            let term = sizeof_varint(idlen as u32) as u64 + idlen as u64;
            proof {
                assert(ids_of(self.rooms@.take(i + 1)) =~= ids_of(self.rooms@.take(i as int))
                    + seq![self.rooms@[i as int].id@]);
                lemma_strings_bytes_concat(
                    ids_of(self.rooms@.take(i as int)),
                    seq![self.rooms@[i as int].id@],
                );
                lemma_strings_bytes_one(self.rooms@[i as int].id@);
                assert(self.rooms@.take(i + 1) =~= self.rooms@.take(i as int).push(
                    self.rooms@[i as int],
                ));
                lemma_strings_bytes_take(ids_of(self.rooms@), i + 1);
                assert(ids_of(self.rooms@).take(i + 1) =~= ids_of(self.rooms@.take(i + 1)));
            }
            acc = acc + term;
            i = i + 1;
        }
        proof {
            assert(self.rooms@.take(self.rooms@.len() as int) =~= self.rooms@);
        }
        acc
    }

    /// An empty catalogue.
    pub fn new() -> (p: Pool)
        ensures
            p.wf(),
            p.rooms@ == Seq::<Room>::empty(),
            p.observations@ == Seq::<u64>::empty(),
    {
        Pool { rooms: Vec::new(), observations: Vec::new() }
    }

    /// Adds a room to the catalogue, unless its id is already present or the
    /// catalogue's ids would no longer fit one frame; says whether it was
    /// added. A new room starts with no observations.
    pub fn add_room(&mut self, room: Room) -> (r: bool)
        requires
            old(self).wf(),
        ensures
            final(self).wf(),
            r == (!id_in(old(self).rooms@, room.id@) && ids_fit(old(self).rooms@.push(room))),
            r ==> final(self).rooms@ == old(self).rooms@.push(room) && final(self).observations@
                == old(self).observations@.push(0u64),
            !r ==> final(self).rooms@ == old(self).rooms@ && final(self).observations@ == old(self).observations@,
    {
        proof {
            assert(ids_of(old(self).rooms@.push(room)) =~= ids_of(old(self).rooms@) + seq![
                room.id@,
            ]);
            lemma_strings_bytes_concat(ids_of(old(self).rooms@), seq![room.id@]);
            lemma_strings_bytes_one(room.id@);
        }
        match index_of_room(&self.rooms, &room.id) {
            Some(_) => false,
            None => {
                let total = self.ids_wire_len();
                let idbytes = room.id.as_str().as_bytes_vec();
                let idlen = idbytes.len();
                if idlen as u64 > u32::MAX as u64 - 10 {
                    proof {
                        assert(string_bytes(room.id@).len() >= encode_utf8(room.id@).len());
                    }
                    return false;
                }
                proof {
                    lemma_varint_len_le_5(idlen as u32);
                }
                let term = sizeof_varint(idlen as u32) as u64 + idlen as u64;
                proof {
                    assert(term == string_bytes(room.id@).len());
                }
                if total + term + 10 > u32::MAX as u64 {
                    return false;
                }
                let ghost old_rooms = self.rooms@;
                self.rooms.push(room);
                self.observations.push(0);
                proof {
                    assert forall|i: int, j: int| 0 <= i < j < self.rooms@.len() implies (
                    #[trigger] self.rooms@[i]).id@ != (#[trigger] self.rooms@[j]).id@ by {
                        if j == old_rooms.len() {
                            assert(self.rooms@[i] == old_rooms[i]);
                            if old_rooms[i].id@ == room.id@ {
                                assert(id_in(old_rooms, room.id@));
                            }
                        } else {
                            assert(self.rooms@[i] == old_rooms[i]);
                            assert(self.rooms@[j] == old_rooms[j]);
                        }
                    }
                }
                true
            },
        }
    }

    /// Up to `n` distinct room ids, the highest weight first, ties broken by
    /// ascending id; all of them if fewer than `n` exist. No id is handed
    /// out twice in one call.
    pub fn get(&self, n: usize) -> (r: Vec<String>)
        requires
            self.wf(),
        ensures
            r.deep_view() == assignment(self.rooms@, n as int),
            r@.len() == assign_len(n as int, self.rooms@.len() as int),
            forall|i1: int, i2: int|
                0 <= i1 < i2 < r@.len() ==> r.deep_view()[i1] != r.deep_view()[i2],
    {
        let mut sorted: Vec<Room> = Vec::new();
        let mut i = self.rooms.len();
        proof {
            assert(self.rooms@.skip(i as int) =~= Seq::<Room>::empty());
        }
        while i > 0
            invariant
                i <= self.rooms@.len(),
                sorted@ == sort_rooms(self.rooms@.skip(i as int)),
            decreases i,
        {
            i = i - 1;
            let r = self.rooms[i].duplicate();
            insert_room_sorted(&mut sorted, r);
            proof {
                assert(self.rooms@.skip(i as int)[0] == self.rooms@[i as int]);
                assert(self.rooms@.skip(i as int).skip(1) =~= self.rooms@.skip(i as int + 1));
            }
        }
        proof {
            assert(self.rooms@.skip(0) =~= self.rooms@);
            lemma_sort_rooms_len(self.rooms@);
            lemma_sort_rooms_unique(self.rooms@);
        }
        let count = if n <= sorted.len() {
            n
        } else {
            sorted.len()
        };
        let mut out: Vec<String> = Vec::new();
        let mut j: usize = 0;
        proof {
            assert(out.deep_view() =~= sort_rooms(self.rooms@).take(0).map(
                |i: int, r: Room| r.id@,
            ));
        }
        while j < count
            invariant
                j <= count,
                count == assign_len(n as int, self.rooms@.len() as int),
                count <= sorted@.len(),
                sorted@ == sort_rooms(self.rooms@),
                out@.len() == j,
                out.deep_view() == sort_rooms(self.rooms@).take(j as int).map(
                    |i: int, r: Room| r.id@,
                ),
            decreases count - j,
        {
            let ghost prev = out.deep_view();
            out.push(sorted[j].id.clone());
            j = j + 1;
            proof {
                assert(out.deep_view() =~= prev + seq![sorted@[j - 1].id@]);
                assert(out.deep_view() =~= sort_rooms(self.rooms@).take(j as int).map(
                    |i: int, r: Room| r.id@,
                ));
            }
        }
        proof {
            assert(out.deep_view() == assignment(self.rooms@, n as int));
            assert forall|i1: int, i2: int|
                0 <= i1 < i2 < out@.len() implies out.deep_view()[i1] != out.deep_view()[i2] by {
                assert(out.deep_view()[i1] == sorted@[i1].id@);
                assert(out.deep_view()[i2] == sorted@[i2].id@);
            }
        }
        out
    }

    /// Books one observation of each listed room id, in order: the matching
    /// room's counter goes up by one per occurrence; an id no room carries
    /// changes nothing. The catalogue itself is untouched.
    pub fn record_observation(&mut self, room_ids: &Vec<String>)
        requires
            old(self).wf(),
        ensures
            final(self).wf(),
            final(self).rooms@ == old(self).rooms@,
            final(self).observations@ == observe_list(
                old(self).observations@,
                old(self).rooms@,
                room_ids.deep_view(),
            ),
    {
        let mut i: usize = 0;
        proof {
            assert(room_ids.deep_view().take(0) =~= Seq::<Seq<char>>::empty());
        }
        while i < room_ids.len()
            invariant
                i <= room_ids@.len(),
                self.wf(),
                self.rooms@ == old(self).rooms@,
                self.observations@ == observe_list(
                    old(self).observations@,
                    old(self).rooms@,
                    room_ids.deep_view().take(i as int),
                ),
            decreases room_ids@.len() - i,
        {
            let ghost obs_before = self.observations@;
            let ghost ids_done = room_ids.deep_view().take(i as int);
            let id = &room_ids[i];
            match index_of_room(&self.rooms, id) {
                Some(j) => {
                    let c = self.observations[j];
                    let c2 = if c == u64::MAX {
                        c
                    } else {
                        c + 1
                    };
                    self.observations.set(j, c2);
                    proof {
                        assert(id_in(self.rooms@, id@));
                        let jj = index_of_id(self.rooms@, id@);
                        assert(0 <= jj < self.rooms@.len() && self.rooms@[jj].id@ == id@);
                        assert(jj == j);
                        assert(self.observations@ == observe_one(obs_before, self.rooms@, id@));
                    }
                },
                None => {
                    proof {
                        assert(self.observations@ == observe_one(obs_before, self.rooms@, id@));
                    }
                },
            }
            i = i + 1;
            proof {
                assert(room_ids.deep_view().take(i as int) =~= ids_done + seq![id@]);
                lemma_observe_list_snoc(
                    old(self).observations@,
                    old(self).rooms@,
                    ids_done,
                    id@,
                );
            }
        }
        proof {
            assert(room_ids.deep_view().take(room_ids@.len() as int) =~= room_ids.deep_view());
        }
    }
}

/// The index of the room carrying `id`, if any.
fn index_of_room(rooms: &Vec<Room>, id: &String) -> (r: Option<usize>)
    ensures
        match r {
            Some(j) => j < rooms@.len() && rooms@[j as int].id@ == id@,
            None => !id_in(rooms@, id@),
        },
{
    let mut j: usize = 0;
    while j < rooms.len()
        invariant
            j <= rooms@.len(),
            forall|k: int| 0 <= k < j ==> (#[trigger] rooms@[k]).id@ != id@,
        decreases rooms@.len() - j,
    {
        if rooms[j].id == *id {
            return Some(j);
        }
        j = j + 1;
    }
    proof {
        if id_in(rooms@, id@) {
            let k = choose|k: int| 0 <= k < rooms@.len() && (#[trigger] rooms@[k]).id@ == id@;
            assert(rooms@[k].id@ != id@);
        }
    }
    None
}

/// Places `r` into the sorted catalogue, before the first room it precedes.
fn insert_room_sorted(sorted: &mut Vec<Room>, r: Room)
    ensures
        final(sorted)@ == insert_sorted(r, old(sorted)@),
{
    let mut p: usize = 0;
    while p < sorted.len() && !r.precedes(&sorted[p])
        invariant
            p <= sorted@.len(),
            sorted@ == old(sorted)@,
            forall|i: int| 0 <= i < p ==> !room_precedes(r, #[trigger] sorted@[i]),
        decreases sorted@.len() - p,
    {
        p = p + 1;
    }
    proof {
        lemma_insert_sorted_at(r, sorted@, p as int);
    }
    sorted.insert(p, r);
    assert(sorted@ =~= insert_sorted(r, old(sorted)@));
}

} // verus!
