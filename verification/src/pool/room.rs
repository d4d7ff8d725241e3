//! A live room and the order the pool assigns rooms in.

use vstd::prelude::*;

verus! {

use vstd::string::StrSliceExecFns;
use vstd::string::StringSliceAdditionalSpecFns;
use vstd::utf8::encode_utf8;

/// A live room: its opaque identifier and its popularity weight.
#[derive(Debug, PartialEq, Eq, Hash)]
pub struct Room {
    pub id: String,
    pub weight: i32,
}

/// Strict lexicographic order on byte sequences.
pub open spec fn bytes_lt(a: Seq<u8>, b: Seq<u8>) -> bool
    decreases a.len(),
{
    if b.len() == 0 {
        false
    } else if a.len() == 0 {
        true
    } else if a[0] != b[0] {
        a[0] < b[0]
    } else {
        bytes_lt(a.skip(1), b.skip(1))
    }
}

/// Assignment preference: the higher weight comes first, a tie is broken by
/// ascending id, the ids' UTF-8 bytes compared lexicographically.
pub open spec fn room_precedes(a: Room, b: Room) -> bool {
    ||| a.weight > b.weight
    ||| (a.weight == b.weight && bytes_lt(encode_utf8(a.id@), encode_utf8(b.id@)))
}

/// Compares two byte buffers lexicographically.
fn bytes_less(a: &Vec<u8>, b: &Vec<u8>) -> (r: bool)
    ensures
        r == bytes_lt(a@, b@),
{
    let mut i: usize = 0;
    proof {
        assert(a@.skip(0) =~= a@);
        assert(b@.skip(0) =~= b@);
    }
    loop
        invariant
            i <= a@.len(),
            i <= b@.len(),
            bytes_lt(a@, b@) == bytes_lt(a@.skip(i as int), b@.skip(i as int)),
        decreases a@.len() - i,
    {
        if i >= b.len() {
            return false;
        }
        if i >= a.len() {
            return true;
        }
        let x = a[i];
        let y = b[i];
        if x < y {
            return true;
        }
        if x > y {
            return false;
        }
        proof {
            assert(a@.skip(i as int).skip(1) =~= a@.skip(i as int + 1));
            assert(b@.skip(i as int).skip(1) =~= b@.skip(i as int + 1));
        }
        i = i + 1;
    }
}

impl Room {
    /// A copy with the same id and weight.
    pub fn duplicate(&self) -> (c: Room)
        ensures
            c == *self,
    {
        Room { id: self.id.clone(), weight: self.weight }
    }

    /// Whether this room comes before `other` in assignment preference.
    pub fn precedes(&self, other: &Room) -> (r: bool)
        ensures
            r == room_precedes(*self, *other),
    {
        if self.weight > other.weight {
            true
        } else if self.weight < other.weight {
            false
        } else {
            let ab = self.id.as_str().as_bytes_vec();
            let bb = other.id.as_str().as_bytes_vec();
            bytes_less(&ab, &bb)
        }
    }
}

} // verus!
