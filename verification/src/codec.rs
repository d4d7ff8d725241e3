//! The primitive wire types: variable-length unsigned integers ("VarInt"),
//! length-prefixed UTF-8 strings, and the packet frame built from them.
//!
//! A VarInt carries seven data bits per byte, least-significant group first,
//! with the high bit set on every byte but the last. A canonical encoding is
//! minimal; decoding also accepts non-minimal forms but reads at most five
//! bytes, so the value always fits in 32 bits.

use vstd::prelude::*;

verus! {

/// The wire-level variable-length integer covers the 32-bit range.
pub type VarInt = u32;

use vstd::arithmetic::div_mod::lemma_fundamental_div_mod;
use vstd::arithmetic::div_mod::lemma_multiply_divide_lt;
use vstd::string::StrSliceExecFns;
use vstd::string::StringSliceAdditionalSpecFns;
use vstd::utf8::decode_utf8;
use vstd::utf8::encode_utf8;
use vstd::utf8::encode_utf8_decode_utf8;
use vstd::utf8::encode_utf8_valid_utf8;
use vstd::utf8::valid_utf8;

/// The canonical (minimal) encoding of a VarInt value.
pub open spec fn varint_bytes(v: u32) -> Seq<u8>
    decreases v,
{
    if v < 128 {
        seq![v as u8]
    } else {
        seq![(v % 128 + 128) as u8] + varint_bytes(v / 128)
    }
}

/// Length in bytes of the canonical encoding.
pub open spec fn varint_len(v: u32) -> nat {
    varint_bytes(v).len()
}

/// What decoding a VarInt from the front of `s` yields when at most `max`
/// bytes may be read: the value and the number of bytes consumed, or `None`
/// if `s` is exhausted mid-sequence. At the last permitted byte only the low
/// four bits still fit into the 32-bit result, so only they contribute,
/// whatever the byte's continuation bit says.
pub open spec fn varint_read(s: Seq<u8>, max: nat) -> Option<(int, nat)>
    decreases max,
{
    if max == 0 || s.len() == 0 {
        None
    } else if max == 1 {
        Some(((s[0] % 16) as int, 1))
    } else if s[0] < 128 {
        Some((s[0] as int, 1))
    } else {
        match varint_read(s.skip(1), (max - 1) as nat) {
            None => None,
            Some((v, n)) => Some((s[0] - 128 + 128 * v, (n + 1) as nat)),
        }
    }
}

/// 128 to the power `k`.
pub open spec fn pow128(k: nat) -> int
    decreases k,
{
    if k == 0 {
        1
    } else {
        128 * pow128((k - 1) as nat)
    }
}

/// Strict upper bound on any value readable within `max` bytes.
pub open spec fn varint_cap(max: nat) -> int
    recommends
        max >= 1,
{
    16 * pow128((max - 1) as nat)
}

pub proof fn lemma_pow128_values()
    ensures
        pow128(0) == 1,
        pow128(1) == 128,
        pow128(2) == 0x4000,
        pow128(3) == 0x20_0000,
        pow128(4) == 0x1000_0000,
        pow128(5) == 0x8_0000_0000,
{
    assert(pow128(1) == 128 * pow128(0));
    assert(pow128(2) == 128 * pow128(1));
    assert(pow128(3) == 128 * pow128(2));
    assert(pow128(4) == 128 * pow128(3));
    assert(pow128(5) == 128 * pow128(4));
}

pub proof fn lemma_pow128_pos(k: nat)
    ensures
        pow128(k) >= 1,
    decreases k,
{
    if k > 0 {
        lemma_pow128_pos((k - 1) as nat);
    }
}

/// Any successful read stays under the cap, and under `128^n` when it stopped
/// before the last permitted byte.
pub proof fn lemma_varint_read_bound(s: Seq<u8>, max: nat)
    requires
        1 <= max,
    ensures
        match varint_read(s, max) {
            None => true,
            Some((v, n)) => {
                &&& 0 <= v < varint_cap(max)
                &&& 1 <= n <= max
                &&& n <= s.len()
                &&& (n < max ==> v < pow128(n))
            },
        },
    decreases max,
{
    if s.len() == 0 {
    } else if max == 1 {
        assert(pow128(0) == 1);
    } else if s[0] < 128 {
        lemma_pow128_values();
        assert(varint_cap(max) >= 16 * 128) by {
            assert(pow128((max - 1) as nat) == 128 * pow128((max - 2) as nat));
            lemma_pow128_pos((max - 2) as nat);
        };
    } else {
        lemma_varint_read_bound(s.skip(1), (max - 1) as nat);
        match varint_read(s.skip(1), (max - 1) as nat) {
            None => {},
            Some((v, n)) => {
                assert(varint_cap(max) == 128 * varint_cap((max - 1) as nat));
                if n < (max - 1) as nat {
                    assert(pow128((n + 1) as nat) == 128 * pow128(n));
                }
            },
        }
    }
}

/// A value below `128^k` encodes into at most `k` bytes.
pub proof fn lemma_varint_len_bound(v: u32, k: nat)
    requires
        1 <= k,
        (v as int) < pow128(k),
    ensures
        varint_len(v) <= k,
    decreases k,
{
    if v < 128 {
    } else {
        lemma_pow128_pos((k - 1) as nat);
        assert(k >= 2) by {
            if k == 1 {
                assert(pow128(1) == 128);
            }
        };
        lemma_multiply_divide_lt(v as int, pow128((k - 1) as nat), 128);
        lemma_varint_len_bound(v / 128, (k - 1) as nat);
    }
}

pub proof fn lemma_varint_len_le_5(v: u32)
    ensures
        1 <= varint_len(v) <= 5,
{
    lemma_pow128_values();
    lemma_varint_len_bound(v, 5);
}

/// Decoding an encoding yields the encoded value and consumes exactly the
/// encoding, whatever follows it.
pub proof fn lemma_varint_read_encode(v: u32, rest: Seq<u8>, max: nat)
    requires
        1 <= max,
        (v as int) < varint_cap(max),
    ensures
        varint_read(varint_bytes(v) + rest, max) == Some((v as int, varint_len(v))),
    decreases max,
{
    let s = varint_bytes(v) + rest;
    if v < 128 {
        assert(s[0] == v as u8);
        if max == 1 {
            assert(varint_cap(1) == 16);
            assert(s[0] % 16 == v);
        }
    } else {
        assert(max >= 2) by {
            if max == 1 {
                assert(varint_cap(1) == 16);
            }
        };
        assert(s[0] == (v % 128 + 128) as u8);
        assert(s[0] >= 128);
        assert(((v / 128) as int) < varint_cap((max - 1) as nat)) by {
            assert(varint_cap(max) == 128 * varint_cap((max - 1) as nat));
            lemma_pow128_pos((max - 2) as nat);
            lemma_multiply_divide_lt(v as int, varint_cap((max - 1) as nat), 128);
        };
        lemma_varint_read_encode(v / 128, rest, (max - 1) as nat);
        assert(s.skip(1) =~= varint_bytes(v / 128) + rest);
        let sub = varint_read(s.skip(1), (max - 1) as nat);
        assert(sub == Some(((v / 128) as int, varint_len(v / 128))));
        assert(s[0] - 128 + 128 * ((v / 128) as int) == v as int) by {
            lemma_fundamental_div_mod(v as int, 128);
        };
        assert(varint_len(v) == 1 + varint_len(v / 128));
    }
}

/// Round trip: decoding a canonical encoding gives the value back.
pub proof fn lemma_varint_round_trip(v: u32, rest: Seq<u8>)
    ensures
        varint_read(varint_bytes(v) + rest, 5) == Some((v as int, varint_len(v))),
{
    lemma_pow128_values();
    lemma_varint_read_encode(v, rest, 5);
}

/// Minimality: the canonical encoding is never longer than any byte sequence
/// that decodes to the same value, canonical or not.
pub proof fn lemma_varint_minimality(s: Seq<u8>, v: int, n: nat)
    requires
        varint_read(s, 5) == Some((v, n)),
    ensures
        0 <= v < 0x1_0000_0000,
        varint_len(v as u32) <= n,
{
    lemma_varint_read_bound(s, 5);
    lemma_pow128_values();
    if n < 5 {
        lemma_varint_len_bound(v as u32, n);
    } else {
        lemma_varint_len_le_5(v as u32);
    }
}

/// Byte length of the canonical encoding of `v`.
pub fn sizeof_varint(v: u32) -> (r: usize)
    ensures
        r == varint_len(v),
{
    proof {
        lemma_varint_len_le_5(v);
    }
    let mut x = v;
    let mut r: usize = 1;
    while x >= 128
        invariant
            varint_len(v) == varint_len(x) + r - 1,
            1 <= r <= 5,
        decreases x,
    {
        proof {
            lemma_varint_len_le_5(v);
            lemma_varint_len_le_5(x / 128);
            assert(varint_len(x) == 1 + varint_len(x / 128));
        }
        x = x / 128;
        r = r + 1;
    }
    r
}

/// Appends the canonical encoding of `v` to `out`.
pub fn encode_varint(v: u32, out: &mut Vec<u8>)
    ensures
        final(out)@ == old(out)@ + varint_bytes(v),
    decreases v,
{
    if v < 128 {
        out.push(v as u8);
        assert(out@ =~= old(out)@ + varint_bytes(v));
    } else {
        out.push((v % 128 + 128) as u8);
        encode_varint(v / 128, out);
        assert(out@ =~= old(out)@ + varint_bytes(v));
    }
}

fn decode_varint_bounded(buf: &Vec<u8>, pos: usize, max: u8) -> (r: Option<(u32, usize)>)
    requires
        pos <= buf@.len(),
        1 <= max <= 5,
    ensures
        match r {
            None => varint_read(buf@.skip(pos as int), max as nat) is None,
            Some((v, n)) => {
                &&& varint_read(buf@.skip(pos as int), max as nat) == Some((v as int, n as nat))
                &&& 1 <= n <= max
                &&& pos + n <= buf@.len()
            },
        },
    decreases max,
{
    if pos >= buf.len() {
        return None;
    }
    let b = buf[pos];
    assert(buf@.skip(pos as int)[0] == b);
    if max == 1 {
        return Some(((b % 16) as u32, 1));
    }
    if b < 128 {
        return Some((b as u32, 1));
    }
    let tail = decode_varint_bounded(buf, pos + 1, max - 1);
    proof {
        assert(buf@.skip(pos as int).skip(1) =~= buf@.skip(pos as int + 1));
        lemma_varint_read_bound(buf@.skip(pos as int + 1), (max - 1) as nat);
        assert(varint_cap((max - 1) as nat) <= 0x200_0000) by {
            lemma_pow128_values();
            if max == 2 {
                assert(varint_cap(1) == 16);
            } else if max == 3 {
                assert(varint_cap(2) == 16 * pow128(1));
            } else if max == 4 {
                assert(varint_cap(3) == 16 * pow128(2));
            } else {
                assert(max == 5);
                assert(varint_cap(4) == 16 * pow128(3));
            }
        };
    }
    match tail {
        None => None,
        Some((v, n)) => Some(((b - 128) as u32 + 128 * v, n + 1)),
    }
}

/// Reads a VarInt from `buf` starting at `pos`: at most five bytes, the low
/// seven bits of each, least-significant group first. Returns the value and
/// the number of bytes consumed, or `None` if the buffer ends mid-sequence.
pub fn decode_varint(buf: &Vec<u8>, pos: usize) -> (r: Option<(u32, usize)>)
    requires
        pos <= buf@.len(),
    ensures
        match r {
            None => varint_read(buf@.skip(pos as int), 5) is None,
            Some((v, n)) => {
                &&& varint_read(buf@.skip(pos as int), 5) == Some((v as int, n as nat))
                &&& 1 <= n <= 5
                &&& pos + n <= buf@.len()
            },
        },
{
    decode_varint_bounded(buf, pos, 5)
}

/// Wire encoding of a string: a VarInt byte length followed by the UTF-8
/// bytes themselves.
pub open spec fn string_bytes(s: Seq<char>) -> Seq<u8>
    recommends
        encode_utf8(s).len() <= u32::MAX,
{
    varint_bytes(encode_utf8(s).len() as u32) + encode_utf8(s)
}

/// What decoding a string from the front of `s` yields: the characters and
/// the number of bytes consumed, or `None` if the declared length exceeds
/// what is left or the body is not valid UTF-8.
pub open spec fn string_read(s: Seq<u8>) -> Option<(Seq<char>, nat)> {
    match varint_read(s, 5) {
        None => None,
        Some((len, n)) => {
            if s.len() < n + len {
                None
            } else {
                let body = s.subrange(n as int, n + len);
                if valid_utf8(body) {
                    Some((decode_utf8(body), (n + len) as nat))
                } else {
                    None
                }
            }
        },
    }
}

/// Relies on String::from_utf8: it succeeds exactly on valid UTF-8 input,
/// returning the character sequence those bytes encode.
#[verifier::external_body]
fn bytes_to_string(v: Vec<u8>) -> (r: Option<String>)
    ensures
        match r {
            Some(s) => valid_utf8(v@) && s@ == decode_utf8(v@),
            None => !valid_utf8(v@),
        },
{
    String::from_utf8(v).ok()
}

/// Copies `buf[from..to]` into a fresh vector.
pub fn vec_copy_range(buf: &Vec<u8>, from: usize, to: usize) -> (r: Vec<u8>)
    requires
        from <= to <= buf@.len(),
    ensures
        r@ == buf@.subrange(from as int, to as int),
{
    let mut r: Vec<u8> = Vec::new();
    let mut i = from;
    while i < to
        invariant
            from <= i <= to <= buf@.len(),
            r@ == buf@.subrange(from as int, i as int),
        decreases to - i,
    {
        r.push(buf[i]);
        i = i + 1;
        assert(r@ =~= buf@.subrange(from as int, i as int));
    }
    r
}

/// Appends the wire encoding of `s` to `out`. Any string whose UTF-8 form
/// fits the declared wire width is representable; there is no failure mode.
pub fn encode_string(s: &str, out: &mut Vec<u8>)
    requires
        encode_utf8(s@).len() <= u32::MAX,
    ensures
        final(out)@ == old(out)@ + string_bytes(s@),
{
    let mut bytes = s.as_bytes_vec();
    let len = bytes.len() as u32;
    encode_varint(len, out);
    out.append(&mut bytes);
    assert(out@ =~= old(out)@ + string_bytes(s@));
}

/// Reads a length-prefixed UTF-8 string from `buf` starting at `pos`.
pub fn decode_string(buf: &Vec<u8>, pos: usize) -> (r: Option<(String, usize)>)
    requires
        pos <= buf@.len(),
    ensures
        match r {
            None => string_read(buf@.skip(pos as int)) is None,
            Some((s, n)) => {
                &&& string_read(buf@.skip(pos as int)) == Some((s@, n as nat))
                &&& 1 <= n
                &&& pos + n <= buf@.len()
            },
        },
{
    let (len, n1) = match decode_varint(buf, pos) {
        None => {
            return None;
        },
        Some(x) => x,
    };
    let len_us = len as usize;
    let blen = buf.len();
    assert(pos + n1 <= blen);
    let start = pos + n1;
    if len_us > blen - start {
        return None;
    }
    let body = vec_copy_range(buf, start, start + len_us);
    assert(body@ =~= buf@.skip(pos as int).subrange(n1 as int, n1 + len as int));
    match bytes_to_string(body) {
        None => None,
        Some(s) => Some((s, n1 + len_us)),
    }
}

/// Round trip: decoding an encoded string yields the same characters back,
/// consuming exactly the encoding, whatever follows it.
pub proof fn lemma_string_round_trip(s: Seq<char>, rest: Seq<u8>)
    requires
        encode_utf8(s).len() <= u32::MAX,
    ensures
        string_read(string_bytes(s) + rest) == Some((s, string_bytes(s).len())),
{
    let body = encode_utf8(s);
    let len = body.len() as u32;
    lemma_varint_round_trip(len, body + rest);
    let whole = string_bytes(s) + rest;
    assert(whole =~= varint_bytes(len) + (body + rest));
    let n = varint_len(len);
    lemma_varint_len_le_5(len);
    assert(whole.len() >= n + len);
    assert(whole.subrange(n as int, n + len as int) =~= body);
    encode_utf8_valid_utf8(s);
    encode_utf8_decode_utf8(s);
}

/// Byte length of the wire encoding of `s`: the length prefix plus the
/// UTF-8 byte length.
pub fn sizeof_string(s: &str) -> (r: usize)
    requires
        encode_utf8(s@).len() <= u32::MAX,
        encode_utf8(s@).len() + 5 <= usize::MAX,
    ensures
        r == string_bytes(s@).len(),
{
    let len = s.len();
    proof {
        lemma_varint_len_le_5(len as u32);
    }
    sizeof_varint(len as u32) + len
}

} // verus!
