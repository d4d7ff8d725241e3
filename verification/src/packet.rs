//! The packet frame and the typed payload schemas of the protocol.
//!
//! A frame is `VarInt(length) VarInt(id) byte[length]`, where `length` counts
//! the payload bytes only. Each payload schema is a fixed ordered sequence of
//! VarInt and length-prefixed-string fields, identified by the frame id.

use vstd::prelude::*;

pub mod constants;

use crate::codec::decode_string;
use crate::codec::decode_varint;
use crate::codec::encode_string;
use crate::codec::encode_varint;
use crate::codec::lemma_varint_len_le_5;
use crate::codec::lemma_varint_read_bound;
use crate::codec::lemma_varint_round_trip;
use crate::codec::varint_len;
use crate::codec::string_bytes;
use crate::codec::string_read;
use crate::codec::varint_bytes;
use crate::codec::varint_read;
use crate::codec::vec_copy_range;
use crate::codec::VarInt;

verus! {

use vstd::utf8::encode_utf8;

/// One wire frame: `length` is the byte length of `data` alone.
#[derive(Debug, Clone)]
pub struct Packet {
    pub length: VarInt,
    pub id: VarInt,
    pub data: Vec<u8>,
}

/// What decoding a frame from the front of `s` yields: length, id and payload
/// bytes, with the total number of bytes consumed. `None` exactly when a
/// VarInt is cut short or the declared length exceeds what is left.
pub open spec fn packet_read(s: Seq<u8>) -> Option<((int, int, Seq<u8>), nat)> {
    match varint_read(s, 5) {
        None => None,
        Some((length, n1)) => match varint_read(s.skip(n1 as int), 5) {
            None => None,
            Some((id, n2)) => {
                if s.len() < n1 + n2 + length {
                    None
                } else {
                    Some(
                        (
                            (length, id, s.subrange(n1 + n2 as int, n1 + n2 + length)),
                            (n1 + n2 + length) as nat,
                        ),
                    )
                }
            },
        },
    }
}

impl Packet {
    /// A frame is well-formed when its declared length is the payload length.
    pub open spec fn wf(&self) -> bool {
        self.length == self.data@.len()
    }

    /// The frame's wire encoding.
    pub open spec fn wire(&self) -> Seq<u8> {
        varint_bytes(self.length) + varint_bytes(self.id) + self.data@
    }

    /// Reads one frame from `buf` starting at `pos`. Fails without reading
    /// past the end when the declared length exceeds the bytes available;
    /// otherwise consumes exactly the two VarInt widths plus `length` bytes.
    pub fn read_from_bytes(buf: &Vec<u8>, pos: usize) -> (r: Option<(Packet, usize)>)
        requires
            pos <= buf@.len(),
        ensures
            match r {
                None => packet_read(buf@.skip(pos as int)) is None,
                Some((p, n)) => {
                    &&& packet_read(buf@.skip(pos as int)) == Some(
                        ((p.length as int, p.id as int, p.data@), n as nat),
                    )
                    &&& p.wf()
                    &&& 2 <= n
                    &&& pos + n <= buf@.len()
                },
            },
    {
        let s = Ghost(buf@.skip(pos as int));
        let blen = buf.len();
        let (length, n1) = match decode_varint(buf, pos) {
            None => {
                return None;
            },
            Some(x) => x,
        };
        assert(pos + n1 <= blen);
        let (id, n2) = match decode_varint(buf, pos + n1) {
            None => {
                proof {
                    assert(s@.skip(n1 as int) =~= buf@.skip(pos + n1 as int));
                }
                return None;
            },
            Some(x) => x,
        };
        proof {
            assert(s@.skip(n1 as int) =~= buf@.skip(pos + n1 as int));
        }
        assert(pos + n1 + n2 <= blen);
        let start = pos + n1 + n2;
        let length_us = length as usize;
        if length_us > blen - start {
            return None;
        }
        let data = vec_copy_range(buf, start, start + length_us);
        proof {
            assert(data@ =~= s@.subrange(n1 + n2 as int, n1 + n2 + length as int));
        }
        Some((Packet { length, id, data }, n1 + n2 + length_us))
    }

    /// Appends the frame's wire encoding to `out`.
    pub fn write_to_bytes(&self, out: &mut Vec<u8>)
        ensures
            final(out)@ == old(out)@ + self.wire(),
    {
        encode_varint(self.length, out);
        encode_varint(self.id, out);
        append_bytes(out, &self.data);
        assert(out@ =~= old(out)@ + self.wire());
    }

    /// The frame's wire encoding as a fresh buffer.
    pub fn to_bytes(&self) -> (r: Vec<u8>)
        ensures
            r@ == self.wire(),
    {
        let mut out: Vec<u8> = Vec::new();
        self.write_to_bytes(&mut out);
        out
    }
}

/// Round trip: decoding a well-formed frame's encoding yields the frame back
/// and consumes exactly its encoding, whatever follows it.
pub proof fn lemma_packet_round_trip(length: u32, id: u32, data: Seq<u8>, rest: Seq<u8>)
    requires
        data.len() == length,
    ensures
        packet_read(varint_bytes(length) + varint_bytes(id) + data + rest) == Some(
            (
                (length as int, id as int, data),
                varint_len(length) + varint_len(id) + length as nat,
            ),
        ),
{
    let whole = varint_bytes(length) + varint_bytes(id) + data + rest;
    lemma_varint_round_trip(length, varint_bytes(id) + data + rest);
    assert(whole =~= varint_bytes(length) + (varint_bytes(id) + data + rest));
    let n1 = varint_len(length);
    lemma_varint_round_trip(id, data + rest);
    assert(whole.skip(n1 as int) =~= varint_bytes(id) + (data + rest));
    let n2 = varint_len(id);
    assert(whole.len() >= n1 + n2 + length);
    assert(whole.subrange(n1 + n2 as int, n1 + n2 + length as int) =~= data);
}

/// What reading `count` consecutive length-prefixed strings from the front of
/// `s` yields.
pub open spec fn strings_read(s: Seq<u8>, count: nat) -> Option<(Seq<Seq<char>>, nat)>
    decreases count,
{
    if count == 0 {
        Some((Seq::empty(), 0))
    } else {
        match string_read(s) {
            None => None,
            Some((t, n)) => match strings_read(s.skip(n as int), (count - 1) as nat) {
                None => None,
                Some((ts, m)) => Some((seq![t] + ts, (n + m) as nat)),
            },
        }
    }
}

/// The concatenated wire encodings of a sequence of strings.
pub open spec fn strings_bytes(ts: Seq<Seq<char>>) -> Seq<u8>
    decreases ts.len(),
{
    if ts.len() == 0 {
        Seq::empty()
    } else {
        string_bytes(ts[0]) + strings_bytes(ts.skip(1))
    }
}

/// Every string in the sequence fits the declared wire width.
pub open spec fn strings_ok(ts: Seq<Seq<char>>) -> bool {
    forall|k: int| 0 <= k < ts.len() ==> encode_utf8(#[trigger] ts[k]).len() <= u32::MAX
}

/// Any successful frame read consumes at least the two VarInt widths and at
/// most what the buffer holds.
pub proof fn lemma_packet_read_bound(s: Seq<u8>)
    ensures
        match packet_read(s) {
            None => true,
            Some((f, n)) => 2 <= n <= s.len(),
        },
{
    lemma_varint_read_bound(s, 5);
    match varint_read(s, 5) {
        None => {},
        Some((length, n1)) => {
            lemma_varint_read_bound(s.skip(n1 as int), 5);
        },
    }
}

/// The encoding of one string alone.
pub proof fn lemma_strings_bytes_one(t: Seq<char>)
    ensures
        strings_bytes(seq![t]) == string_bytes(t),
{
    assert(seq![t].skip(1) =~= Seq::<Seq<char>>::empty());
    assert(strings_bytes(Seq::<Seq<char>>::empty()) =~= Seq::<u8>::empty());
    assert(seq![t][0] == t);
    assert(strings_bytes(seq![t]) =~= string_bytes(t));
}

/// Concatenation distributes over the encoding of string lists.
pub proof fn lemma_strings_bytes_concat(a: Seq<Seq<char>>, b: Seq<Seq<char>>)
    ensures
        strings_bytes(a + b) == strings_bytes(a) + strings_bytes(b),
    decreases a.len(),
{
    if a.len() == 0 {
        assert(a + b =~= b);
        assert(strings_bytes(a) =~= Seq::<u8>::empty());
        assert(strings_bytes(a) + strings_bytes(b) =~= strings_bytes(b));
    } else {
        assert((a + b)[0] == a[0]);
        assert((a + b).skip(1) =~= a.skip(1) + b);
        lemma_strings_bytes_concat(a.skip(1), b);
        assert(strings_bytes(a + b) =~= strings_bytes(a) + strings_bytes(b));
    }
}

/// A prefix of a string list never encodes longer than the whole list.
pub proof fn lemma_strings_bytes_take(ts: Seq<Seq<char>>, m: int)
    requires
        0 <= m <= ts.len(),
    ensures
        strings_bytes(ts.take(m)).len() <= strings_bytes(ts).len(),
{
    assert(ts =~= ts.take(m) + ts.skip(m));
    lemma_strings_bytes_concat(ts.take(m), ts.skip(m));
}

/// Each string's UTF-8 form is no longer than the whole list's encoding.
pub proof fn lemma_strings_bytes_element(ts: Seq<Seq<char>>, i: int)
    requires
        0 <= i < ts.len(),
    ensures
        encode_utf8(ts[i]).len() <= strings_bytes(ts).len(),
{
    assert(ts =~= ts.take(i) + (seq![ts[i]] + ts.skip(i + 1)));
    lemma_strings_bytes_concat(ts.take(i), seq![ts[i]] + ts.skip(i + 1));
    lemma_strings_bytes_concat(seq![ts[i]], ts.skip(i + 1));
    lemma_strings_bytes_one(ts[i]);
}

/// A string list never encodes shorter than one byte per string: the length
/// prefix alone takes one.
pub proof fn lemma_strings_bytes_min(ts: Seq<Seq<char>>)
    ensures
        strings_bytes(ts).len() >= ts.len(),
    decreases ts.len(),
{
    if ts.len() > 0 {
        lemma_strings_bytes_min(ts.skip(1));
        lemma_varint_len_le_5(encode_utf8(ts[0]).len() as u32);
    }
}

proof fn lemma_strings_bytes_snoc(ts: Seq<Seq<char>>, t: Seq<char>)
    ensures
        strings_bytes(ts + seq![t]) == strings_bytes(ts) + string_bytes(t),
    decreases ts.len(),
{
    if ts.len() == 0 {
        assert(ts + seq![t] =~= seq![t]);
        assert(seq![t].skip(1) =~= Seq::<Seq<char>>::empty());
        assert(strings_bytes(Seq::<Seq<char>>::empty()) =~= Seq::<u8>::empty());
        assert(seq![t][0] == t);
        assert(strings_bytes(seq![t]) =~= string_bytes(t));
        assert(strings_bytes(ts) + string_bytes(t) =~= string_bytes(t));
    } else {
        assert((ts + seq![t]).skip(1) =~= ts.skip(1) + seq![t]);
        lemma_strings_bytes_snoc(ts.skip(1), t);
        assert((ts + seq![t])[0] == ts[0]);
        assert(strings_bytes(ts + seq![t]) =~= strings_bytes(ts) + string_bytes(t));
    }
}

/// Reads `count` consecutive strings from `buf` starting at `pos`.
fn read_string_list(buf: &Vec<u8>, pos: usize, count: u32) -> (r: Option<(Vec<String>, usize)>)
    requires
        pos <= buf@.len(),
    ensures
        match r {
            None => strings_read(buf@.skip(pos as int), count as nat) is None,
            Some((ids, n)) => {
                &&& strings_read(buf@.skip(pos as int), count as nat) == Some(
                    (ids.deep_view(), n as nat),
                )
                &&& ids@.len() == count
                &&& pos + n <= buf@.len()
            },
        },
{
    let mut ids: Vec<String> = Vec::new();
    let blen = buf.len();
    let mut cur = pos;
    let mut i: u32 = 0;
    proof {
        match strings_read(buf@.skip(pos as int), count as nat) {
            Some((ts, m)) => {
                assert(ids.deep_view() + ts =~= ts);
            },
            None => {},
        }
    }
    while i < count
        invariant
            pos <= cur <= blen,
            blen == buf@.len(),
            i <= count,
            ids@.len() == i,
            match strings_read(buf@.skip(cur as int), (count - i) as nat) {
                None => strings_read(buf@.skip(pos as int), count as nat) is None,
                Some((ts, m)) => strings_read(buf@.skip(pos as int), count as nat) == Some(
                    (ids.deep_view() + ts, ((cur - pos) + m) as nat),
                ),
            },
        decreases count - i,
    {
        let ghost ids0 = ids.deep_view();
        let ghost cur0 = cur as int;
        match decode_string(buf, cur) {
            None => {
                return None;
            },
            Some((s, m)) => {
                proof {
                    assert(buf@.skip(cur0).skip(m as int) =~= buf@.skip(cur0 + m));
                }
                ids.push(s);
                cur = cur + m;
                i = i + 1;
                proof {
                    assert(ids.deep_view() =~= ids0 + seq![s@]);
                    match strings_read(buf@.skip(cur as int), (count - i) as nat) {
                        None => {},
                        Some((ts, mm)) => {
                            assert(ids0 + (seq![s@] + ts) =~= ids.deep_view() + ts);
                        },
                    }
                }
            },
        }
    }
    proof {
        match strings_read(buf@.skip(cur as int), 0) {
            Some((ts, m)) => {
                assert(ids.deep_view() + ts =~= ids.deep_view());
            },
            None => {},
        }
    }
    Some((ids, cur - pos))
}

/// Appends the wire encodings of all the strings in `ids` to `out`.
fn write_string_list(ids: &Vec<String>, out: &mut Vec<u8>)
    requires
        strings_ok(ids.deep_view()),
    ensures
        final(out)@ == old(out)@ + strings_bytes(ids.deep_view()),
{
    let mut i: usize = 0;
    while i < ids.len()
        invariant
            i <= ids@.len(),
            strings_ok(ids.deep_view()),
            out@ == old(out)@ + strings_bytes(ids.deep_view().take(i as int)),
        decreases ids@.len() - i,
    {
        assert(ids.deep_view()[i as int] == ids@[i as int]@);
        encode_string(ids[i].as_str(), out);
        i = i + 1;
        proof {
            lemma_strings_bytes_snoc(ids.deep_view().take(i - 1), ids.deep_view()[i - 1]);
            assert(ids.deep_view().take(i as int) =~= ids.deep_view().take(i - 1) + seq![
                ids.deep_view()[i - 1],
            ]);
        }
    }
    assert(ids.deep_view().take(ids@.len() as int) =~= ids.deep_view());
}

/// Identity shown by a freshly connected worker: its category and its token.
#[derive(Debug, Clone, PartialEq, Eq)]
pub struct ShowIdentity {
    pub category: VarInt,
    pub token: String,
}

/// What reading a `ShowIdentity` payload from the front of `s` yields.
pub open spec fn show_identity_read(s: Seq<u8>) -> Option<((int, Seq<char>), nat)> {
    match varint_read(s, 5) {
        None => None,
        Some((category, n1)) => match string_read(s.skip(n1 as int)) {
            None => None,
            Some((token, n2)) => Some(((category, token), (n1 + n2) as nat)),
        },
    }
}

impl ShowIdentity {
    /// The payload's wire encoding.
    pub open spec fn wire(&self) -> Seq<u8> {
        varint_bytes(self.category) + string_bytes(self.token@)
    }

    /// The token fits the declared wire width.
    pub open spec fn wire_ok(&self) -> bool {
        encode_utf8(self.token@).len() <= u32::MAX
    }

    pub fn read_from_bytes(buf: &Vec<u8>, pos: usize) -> (r: Option<(ShowIdentity, usize)>)
        requires
            pos <= buf@.len(),
        ensures
            match r {
                None => show_identity_read(buf@.skip(pos as int)) is None,
                Some((x, n)) => {
                    &&& show_identity_read(buf@.skip(pos as int)) == Some(
                        ((x.category as int, x.token@), n as nat),
                    )
                    &&& pos + n <= buf@.len()
                },
            },
    {
        let blen = buf.len();
        let (category, n1) = match decode_varint(buf, pos) {
            None => {
                return None;
            },
            Some(x) => x,
        };
        proof {
            assert(buf@.skip(pos as int).skip(n1 as int) =~= buf@.skip(pos + n1 as int));
        }
        assert(pos + n1 <= blen);
        let (token, n2) = match decode_string(buf, pos + n1) {
            None => {
                return None;
            },
            Some(x) => x,
        };
        Some((ShowIdentity { category, token }, n1 + n2))
    }

    pub fn write_to_bytes(&self, out: &mut Vec<u8>)
        requires
            self.wire_ok(),
        ensures
            final(out)@ == old(out)@ + self.wire(),
    {
        encode_varint(self.category, out);
        encode_string(self.token.as_str(), out);
        assert(out@ =~= old(out)@ + self.wire());
    }

    /// Wraps the payload in a frame carrying its id and byte length.
    pub fn to_packet(&self) -> (p: Packet)
        requires
            self.wire_ok(),
            self.wire().len() <= u32::MAX,
        ensures
            p.wf(),
            p.id == constants::SHOW_IDENTITY,
            p.data@ == self.wire(),
    {
        let mut data: Vec<u8> = Vec::new();
        self.write_to_bytes(&mut data);
        let length = data.len() as u32;
        Packet { length, id: constants::SHOW_IDENTITY, data }
    }
}

/// The negotiated rate-limit parameters the server answers an identity with.
#[derive(Debug, Clone, PartialEq, Eq)]
pub struct RateLimit {
    pub interval: VarInt,
    pub max_burst: VarInt,
}

/// What reading a `RateLimit` payload from the front of `s` yields.
pub open spec fn rate_limit_read(s: Seq<u8>) -> Option<((int, int), nat)> {
    match varint_read(s, 5) {
        None => None,
        Some((interval, n1)) => match varint_read(s.skip(n1 as int), 5) {
            None => None,
            Some((max_burst, n2)) => Some(((interval, max_burst), (n1 + n2) as nat)),
        },
    }
}

impl RateLimit {
    /// The payload's wire encoding.
    pub open spec fn wire(&self) -> Seq<u8> {
        varint_bytes(self.interval) + varint_bytes(self.max_burst)
    }

    pub fn read_from_bytes(buf: &Vec<u8>, pos: usize) -> (r: Option<(RateLimit, usize)>)
        requires
            pos <= buf@.len(),
        ensures
            match r {
                None => rate_limit_read(buf@.skip(pos as int)) is None,
                Some((x, n)) => {
                    &&& rate_limit_read(buf@.skip(pos as int)) == Some(
                        ((x.interval as int, x.max_burst as int), n as nat),
                    )
                    &&& pos + n <= buf@.len()
                },
            },
    {
        let blen = buf.len();
        let (interval, n1) = match decode_varint(buf, pos) {
            None => {
                return None;
            },
            Some(x) => x,
        };
        proof {
            assert(buf@.skip(pos as int).skip(n1 as int) =~= buf@.skip(pos + n1 as int));
        }
        assert(pos + n1 <= blen);
        let (max_burst, n2) = match decode_varint(buf, pos + n1) {
            None => {
                return None;
            },
            Some(x) => x,
        };
        Some((RateLimit { interval, max_burst }, n1 + n2))
    }

    pub fn write_to_bytes(&self, out: &mut Vec<u8>)
        ensures
            final(out)@ == old(out)@ + self.wire(),
    {
        encode_varint(self.interval, out);
        encode_varint(self.max_burst, out);
        assert(out@ =~= old(out)@ + self.wire());
    }

    /// Wraps the payload in a frame carrying its id and byte length.
    pub fn to_packet(&self) -> (p: Packet)
        ensures
            p.wf(),
            p.id == constants::RATE_LIMIT,
            p.data@ == self.wire(),
    {
        proof {
            lemma_varint_len_le_5(self.interval);
            lemma_varint_len_le_5(self.max_burst);
        }
        let mut data: Vec<u8> = Vec::new();
        self.write_to_bytes(&mut data);
        let length = data.len() as u32;
        Packet { length, id: constants::RATE_LIMIT, data }
    }
}

/// A worker's request to be assigned that many rooms.
#[derive(Debug, Clone, PartialEq, Eq)]
pub struct TaskApplication {
    pub room_count: VarInt,
}

/// What reading a `TaskApplication` payload from the front of `s` yields.
pub open spec fn task_application_read(s: Seq<u8>) -> Option<(int, nat)> {
    varint_read(s, 5)
}

impl TaskApplication {
    /// The payload's wire encoding.
    pub open spec fn wire(&self) -> Seq<u8> {
        varint_bytes(self.room_count)
    }

    pub fn read_from_bytes(buf: &Vec<u8>, pos: usize) -> (r: Option<(TaskApplication, usize)>)
        requires
            pos <= buf@.len(),
        ensures
            match r {
                None => task_application_read(buf@.skip(pos as int)) is None,
                Some((x, n)) => {
                    &&& task_application_read(buf@.skip(pos as int)) == Some(
                        (x.room_count as int, n as nat),
                    )
                    &&& pos + n <= buf@.len()
                },
            },
    {
        match decode_varint(buf, pos) {
            None => None,
            Some((room_count, n)) => Some((TaskApplication { room_count }, n)),
        }
    }

    pub fn write_to_bytes(&self, out: &mut Vec<u8>)
        ensures
            final(out)@ == old(out)@ + self.wire(),
    {
        encode_varint(self.room_count, out);
    }

    /// Wraps the payload in a frame carrying its id and byte length.
    pub fn to_packet(&self) -> (p: Packet)
        ensures
            p.wf(),
            p.id == constants::TASK_APPLICATION,
            p.data@ == self.wire(),
    {
        proof {
            lemma_varint_len_le_5(self.room_count);
        }
        let mut data: Vec<u8> = Vec::new();
        self.write_to_bytes(&mut data);
        let length = data.len() as u32;
        Packet { length, id: constants::TASK_APPLICATION, data }
    }
}

/// What reading a count-prefixed list of room ids from the front of `s`
/// yields; shared by `TaskChange` and `TaskConfirm`.
pub open spec fn room_list_read(s: Seq<u8>) -> Option<((int, Seq<Seq<char>>), nat)> {
    match varint_read(s, 5) {
        None => None,
        Some((count, n1)) => match strings_read(s.skip(n1 as int), count as nat) {
            None => None,
            Some((ids, n2)) => Some(((count, ids), (n1 + n2) as nat)),
        },
    }
}

/// Reads a count-prefixed list of room ids.
fn read_room_list(buf: &Vec<u8>, pos: usize) -> (r: Option<((VarInt, Vec<String>), usize)>)
    requires
        pos <= buf@.len(),
    ensures
        match r {
            None => room_list_read(buf@.skip(pos as int)) is None,
            Some(((count, ids), n)) => {
                &&& room_list_read(buf@.skip(pos as int)) == Some(
                    ((count as int, ids.deep_view()), n as nat),
                )
                &&& ids@.len() == count
                &&& pos + n <= buf@.len()
            },
        },
{
    let blen = buf.len();
    let (count, n1) = match decode_varint(buf, pos) {
        None => {
            return None;
        },
        Some(x) => x,
    };
    proof {
        assert(buf@.skip(pos as int).skip(n1 as int) =~= buf@.skip(pos + n1 as int));
    }
    assert(pos + n1 <= blen);
    let (ids, n2) = match read_string_list(buf, pos + n1, count) {
        None => {
            return None;
        },
        Some(x) => x,
    };
    Some(((count, ids), n1 + n2))
}

/// Appends a count-prefixed list of room ids; shared by `TaskChange` and
/// `TaskConfirm`.
fn write_room_list(count: VarInt, ids: &Vec<String>, out: &mut Vec<u8>)
    requires
        strings_ok(ids.deep_view()),
    ensures
        final(out)@ == old(out)@ + varint_bytes(count) + strings_bytes(ids.deep_view()),
{
    encode_varint(count, out);
    write_string_list(ids, out);
    assert(out@ =~= old(out)@ + varint_bytes(count) + strings_bytes(ids.deep_view()));
}

/// The server's assignment of rooms to a worker.
#[derive(Debug, Clone, PartialEq, Eq)]
pub struct TaskChange {
    pub room_count: VarInt,
    pub room_ids: Vec<String>,
}

impl TaskChange {
    /// The declared count is the number of room ids carried.
    pub open spec fn wf(&self) -> bool {
        self.room_count == self.room_ids@.len()
    }

    /// The payload's wire encoding.
    pub open spec fn wire(&self) -> Seq<u8> {
        varint_bytes(self.room_count) + strings_bytes(self.room_ids.deep_view())
    }

    /// Every room id fits the declared wire width.
    pub open spec fn wire_ok(&self) -> bool {
        strings_ok(self.room_ids.deep_view())
    }

    pub fn read_from_bytes(buf: &Vec<u8>, pos: usize) -> (r: Option<(TaskChange, usize)>)
        requires
            pos <= buf@.len(),
        ensures
            match r {
                None => room_list_read(buf@.skip(pos as int)) is None,
                Some((x, n)) => {
                    &&& room_list_read(buf@.skip(pos as int)) == Some(
                        ((x.room_count as int, x.room_ids.deep_view()), n as nat),
                    )
                    &&& x.wf()
                    &&& pos + n <= buf@.len()
                },
            },
    {
        match read_room_list(buf, pos) {
            None => None,
            Some(((room_count, room_ids), n)) => Some((TaskChange { room_count, room_ids }, n)),
        }
    }

    pub fn write_to_bytes(&self, out: &mut Vec<u8>)
        requires
            self.wire_ok(),
        ensures
            final(out)@ == old(out)@ + self.wire(),
    {
        write_room_list(self.room_count, &self.room_ids, out);
        assert(out@ =~= old(out)@ + self.wire());
    }

    /// Wraps the payload in a frame carrying its id and byte length.
    pub fn to_packet(&self) -> (p: Packet)
        requires
            self.wire_ok(),
            self.wire().len() <= u32::MAX,
        ensures
            p.wf(),
            p.id == constants::TASK_CHANGE,
            p.data@ == self.wire(),
    {
        let mut data: Vec<u8> = Vec::new();
        self.write_to_bytes(&mut data);
        let length = data.len() as u32;
        Packet { length, id: constants::TASK_CHANGE, data }
    }
}

/// A worker's confirmation of the rooms it now watches.
#[derive(Debug, Clone, PartialEq, Eq)]
pub struct TaskConfirm {
    pub room_count: VarInt,
    pub room_ids: Vec<String>,
}

impl TaskConfirm {
    /// The declared count is the number of room ids carried.
    pub open spec fn wf(&self) -> bool {
        self.room_count == self.room_ids@.len()
    }

    /// The payload's wire encoding.
    pub open spec fn wire(&self) -> Seq<u8> {
        varint_bytes(self.room_count) + strings_bytes(self.room_ids.deep_view())
    }

    /// Every room id fits the declared wire width.
    pub open spec fn wire_ok(&self) -> bool {
        strings_ok(self.room_ids.deep_view())
    }

    pub fn read_from_bytes(buf: &Vec<u8>, pos: usize) -> (r: Option<(TaskConfirm, usize)>)
        requires
            pos <= buf@.len(),
        ensures
            match r {
                None => room_list_read(buf@.skip(pos as int)) is None,
                Some((x, n)) => {
                    &&& room_list_read(buf@.skip(pos as int)) == Some(
                        ((x.room_count as int, x.room_ids.deep_view()), n as nat),
                    )
                    &&& x.wf()
                    &&& pos + n <= buf@.len()
                },
            },
    {
        match read_room_list(buf, pos) {
            None => None,
            Some(((room_count, room_ids), n)) => Some((TaskConfirm { room_count, room_ids }, n)),
        }
    }

    pub fn write_to_bytes(&self, out: &mut Vec<u8>)
        requires
            self.wire_ok(),
        ensures
            final(out)@ == old(out)@ + self.wire(),
    {
        write_room_list(self.room_count, &self.room_ids, out);
        assert(out@ =~= old(out)@ + self.wire());
    }

    /// Wraps the payload in a frame carrying its id and byte length.
    pub fn to_packet(&self) -> (p: Packet)
        requires
            self.wire_ok(),
            self.wire().len() <= u32::MAX,
        ensures
            p.wf(),
            p.id == constants::TASK_CONFIRM,
            p.data@ == self.wire(),
    {
        let mut data: Vec<u8> = Vec::new();
        self.write_to_bytes(&mut data);
        let length = data.len() as u32;
        Packet { length, id: constants::TASK_CONFIRM, data }
    }
}

/// A worker's observation report for one room.
#[derive(Debug, Clone, PartialEq, Eq)]
pub struct DataReport {
    pub category: VarInt,
    pub room_id: String,
    pub id: String,
    pub time: VarInt,
    pub detail: String,
}

/// What reading a `DataReport` payload from the front of `s` yields.
pub open spec fn data_report_read(s: Seq<u8>) -> Option<
    ((int, Seq<char>, Seq<char>, int, Seq<char>), nat),
> {
    match varint_read(s, 5) {
        None => None,
        Some((category, n1)) => match string_read(s.skip(n1 as int)) {
            None => None,
            Some((room_id, n2)) => match string_read(s.skip(n1 + n2 as int)) {
                None => None,
                Some((id, n3)) => match varint_read(s.skip(n1 + n2 + n3 as int), 5) {
                    None => None,
                    Some((time, n4)) => match string_read(s.skip(n1 + n2 + n3 + n4 as int)) {
                        None => None,
                        Some((detail, n5)) => Some(
                            (
                                (category, room_id, id, time, detail),
                                (n1 + n2 + n3 + n4 + n5) as nat,
                            ),
                        ),
                    },
                },
            },
        },
    }
}

impl DataReport {
    /// The payload's wire encoding.
    pub open spec fn wire(&self) -> Seq<u8> {
        varint_bytes(self.category) + string_bytes(self.room_id@) + string_bytes(self.id@)
            + varint_bytes(self.time) + string_bytes(self.detail@)
    }

    /// Every string fits the declared wire width.
    pub open spec fn wire_ok(&self) -> bool {
        &&& encode_utf8(self.room_id@).len() <= u32::MAX
        &&& encode_utf8(self.id@).len() <= u32::MAX
        &&& encode_utf8(self.detail@).len() <= u32::MAX
    }

    pub fn read_from_bytes(buf: &Vec<u8>, pos: usize) -> (r: Option<(DataReport, usize)>)
        requires
            pos <= buf@.len(),
        ensures
            match r {
                None => data_report_read(buf@.skip(pos as int)) is None,
                Some((x, n)) => {
                    &&& data_report_read(buf@.skip(pos as int)) == Some(
                        (
                            (x.category as int, x.room_id@, x.id@, x.time as int, x.detail@),
                            n as nat,
                        ),
                    )
                    &&& pos + n <= buf@.len()
                },
            },
    {
        let ghost s0 = buf@.skip(pos as int);
        let blen = buf.len();
        let (category, n1) = match decode_varint(buf, pos) {
            None => {
                return None;
            },
            Some(x) => x,
        };
        proof {
            assert(s0.skip(n1 as int) =~= buf@.skip(pos + n1 as int));
        }
        assert(pos + n1 <= blen);
        let (room_id, n2) = match decode_string(buf, pos + n1) {
            None => {
                return None;
            },
            Some(x) => x,
        };
        proof {
            assert(s0.skip(n1 + n2 as int) =~= buf@.skip(pos + n1 + n2 as int));
        }
        assert(pos + n1 + n2 <= blen);
        let (id, n3) = match decode_string(buf, pos + n1 + n2) {
            None => {
                return None;
            },
            Some(x) => x,
        };
        proof {
            assert(s0.skip(n1 + n2 + n3 as int) =~= buf@.skip(pos + n1 + n2 + n3 as int));
        }
        assert(pos + n1 + n2 + n3 <= blen);
        let (time, n4) = match decode_varint(buf, pos + n1 + n2 + n3) {
            None => {
                return None;
            },
            Some(x) => x,
        };
        proof {
            assert(s0.skip(n1 + n2 + n3 + n4 as int) =~= buf@.skip(
                pos + n1 + n2 + n3 + n4 as int,
            ));
        }
        assert(pos + n1 + n2 + n3 + n4 <= blen);
        let (detail, n5) = match decode_string(buf, pos + n1 + n2 + n3 + n4) {
            None => {
                return None;
            },
            Some(x) => x,
        };
        Some((DataReport { category, room_id, id, time, detail }, n1 + n2 + n3 + n4 + n5))
    }

    pub fn write_to_bytes(&self, out: &mut Vec<u8>)
        requires
            self.wire_ok(),
        ensures
            final(out)@ == old(out)@ + self.wire(),
    {
        encode_varint(self.category, out);
        encode_string(self.room_id.as_str(), out);
        encode_string(self.id.as_str(), out);
        encode_varint(self.time, out);
        encode_string(self.detail.as_str(), out);
        assert(out@ =~= old(out)@ + self.wire());
    }

    /// Wraps the payload in a frame carrying its id and byte length.
    pub fn to_packet(&self) -> (p: Packet)
        requires
            self.wire_ok(),
            self.wire().len() <= u32::MAX,
        ensures
            p.wf(),
            p.id == constants::DATA_REPORT,
            p.data@ == self.wire(),
    {
        let mut data: Vec<u8> = Vec::new();
        self.write_to_bytes(&mut data);
        let length = data.len() as u32;
        Packet { length, id: constants::DATA_REPORT, data }
    }
}

/// An out-of-band message addressed to a worker.
#[derive(Debug, Clone, PartialEq, Eq)]
pub struct Notification {
    pub category: VarInt,
    pub message: String,
    pub token: String,
}

/// What reading a `Notification` payload from the front of `s` yields.
pub open spec fn notification_read(s: Seq<u8>) -> Option<((int, Seq<char>, Seq<char>), nat)> {
    match varint_read(s, 5) {
        None => None,
        Some((category, n1)) => match string_read(s.skip(n1 as int)) {
            None => None,
            Some((message, n2)) => match string_read(s.skip(n1 + n2 as int)) {
                None => None,
                Some((token, n3)) => Some(((category, message, token), (n1 + n2 + n3) as nat)),
            },
        },
    }
}

impl Notification {
    /// The payload's wire encoding.
    pub open spec fn wire(&self) -> Seq<u8> {
        varint_bytes(self.category) + string_bytes(self.message@) + string_bytes(self.token@)
    }

    /// Every string fits the declared wire width.
    pub open spec fn wire_ok(&self) -> bool {
        &&& encode_utf8(self.message@).len() <= u32::MAX
        &&& encode_utf8(self.token@).len() <= u32::MAX
    }

    pub fn read_from_bytes(buf: &Vec<u8>, pos: usize) -> (r: Option<(Notification, usize)>)
        requires
            pos <= buf@.len(),
        ensures
            match r {
                None => notification_read(buf@.skip(pos as int)) is None,
                Some((x, n)) => {
                    &&& notification_read(buf@.skip(pos as int)) == Some(
                        ((x.category as int, x.message@, x.token@), n as nat),
                    )
                    &&& pos + n <= buf@.len()
                },
            },
    {
        let ghost s0 = buf@.skip(pos as int);
        let blen = buf.len();
        let (category, n1) = match decode_varint(buf, pos) {
            None => {
                return None;
            },
            Some(x) => x,
        };
        proof {
            assert(s0.skip(n1 as int) =~= buf@.skip(pos + n1 as int));
        }
        assert(pos + n1 <= blen);
        let (message, n2) = match decode_string(buf, pos + n1) {
            None => {
                return None;
            },
            Some(x) => x,
        };
        proof {
            assert(s0.skip(n1 + n2 as int) =~= buf@.skip(pos + n1 + n2 as int));
        }
        assert(pos + n1 + n2 <= blen);
        let (token, n3) = match decode_string(buf, pos + n1 + n2) {
            None => {
                return None;
            },
            Some(x) => x,
        };
        Some((Notification { category, message, token }, n1 + n2 + n3))
    }

    pub fn write_to_bytes(&self, out: &mut Vec<u8>)
        requires
            self.wire_ok(),
        ensures
            final(out)@ == old(out)@ + self.wire(),
    {
        encode_varint(self.category, out);
        encode_string(self.message.as_str(), out);
        encode_string(self.token.as_str(), out);
        assert(out@ =~= old(out)@ + self.wire());
    }

    /// Wraps the payload in a frame carrying its id and byte length.
    pub fn to_packet(&self) -> (p: Packet)
        requires
            self.wire_ok(),
            self.wire().len() <= u32::MAX,
        ensures
            p.wf(),
            p.id == constants::NOTIFICATION,
            p.data@ == self.wire(),
    {
        let mut data: Vec<u8> = Vec::new();
        self.write_to_bytes(&mut data);
        let length = data.len() as u32;
        Packet { length, id: constants::NOTIFICATION, data }
    }
}

/// Appends a copy of `data` to `out`.
fn append_bytes(out: &mut Vec<u8>, data: &Vec<u8>)
    ensures
        final(out)@ == old(out)@ + data@,
{
    let mut i: usize = 0;
    while i < data.len()
        invariant
            i <= data@.len(),
            out@ == old(out)@ + data@.subrange(0, i as int),
        decreases data@.len() - i,
    {
        out.push(data[i]);
        i = i + 1;
        assert(out@ =~= old(out)@ + data@.subrange(0, i as int));
    }
    assert(out@ =~= old(out)@ + data@);
}

} // verus!
