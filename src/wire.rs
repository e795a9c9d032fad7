//! The unit of exchange between parties and its byte layout.
//!
//! A value is a tag byte followed by its payload, little-endian:
//!
//! | tag | variant          | payload                                   |
//! |-----|------------------|-------------------------------------------|
//! | 0   | `PrfKey`         | 16 key bytes                              |
//! | 1   | `Ring16`         | 2 bytes                                   |
//! | 2   | `Ring32`         | 4 bytes                                   |
//! | 3   | `RingElementBit` | 1 byte, 0 or 1                            |
//! | 4   | `RingElement16`  | 2 bytes                                   |
//! | 5   | `RingElement32`  | 4 bytes                                   |
//! | 6   | `RingElement64`  | 8 bytes                                   |
//! | 7   | `VecRing16`      | 8-byte element count, then 2 bytes each   |
//! | 8   | `VecRing32`      | 8-byte element count, then 4 bytes each   |
//! | 9   | `VecRing64`      | 8-byte element count, then 8 bytes each   |

use crate::bytes::{
    concat_groups, le16, le32, le64, lemma_bytes_round_trip, lemma_bytes_round_trip16,
    lemma_bytes_round_trip32, lemma_concat_groups_index, lemma_concat_groups_len,
    lemma_u16_round_trip, lemma_u32_round_trip, lemma_u64_at_subrange, lemma_u64_round_trip,
    push_bytes, push_u16, push_u32, push_u64, read_u16, read_u32, read_u64, u64_at,
};
use vstd::prelude::*;

verus! {

/// A value sent between parties.
#[derive(Debug, PartialEq, Eq, Clone)]
pub enum NetworkValue {
    PrfKey([u8; 16]),
    Ring16(u16),
    Ring32(u32),
    RingElementBit(bool),
    RingElement16(u16),
    RingElement32(u32),
    RingElement64(u64),
    VecRing16(Vec<u16>),
    VecRing32(Vec<u32>),
    VecRing64(Vec<u64>),
}

/// The mathematical content of a `NetworkValue`.
pub enum WireValue {
    PrfKey(Seq<u8>),
    Ring16(u16),
    Ring32(u32),
    RingElementBit(bool),
    RingElement16(u16),
    RingElement32(u32),
    RingElement64(u64),
    VecRing16(Seq<u16>),
    VecRing32(Seq<u32>),
    VecRing64(Seq<u64>),
}

impl View for NetworkValue {
    type V = WireValue;

    open spec fn view(&self) -> WireValue {
        match self {
            NetworkValue::PrfKey(k) => WireValue::PrfKey(k@),
            NetworkValue::Ring16(x) => WireValue::Ring16(*x),
            NetworkValue::Ring32(x) => WireValue::Ring32(*x),
            NetworkValue::RingElementBit(b) => WireValue::RingElementBit(*b),
            NetworkValue::RingElement16(x) => WireValue::RingElement16(*x),
            NetworkValue::RingElement32(x) => WireValue::RingElement32(*x),
            NetworkValue::RingElement64(x) => WireValue::RingElement64(*x),
            NetworkValue::VecRing16(v) => WireValue::VecRing16(v@),
            NetworkValue::VecRing32(v) => WireValue::VecRing32(v@),
            NetworkValue::VecRing64(v) => WireValue::VecRing64(v@),
        }
    }
}

/// A value could not be decoded: unknown tag, wrong length or a bit byte
/// other than 0 or 1.
#[derive(Debug, PartialEq, Eq, Clone, Copy, Structural)]
pub enum DecodeError {
    Malformed,
}

/// The values that `NetworkValue` can hold.
pub open spec fn wire_wf(w: WireValue) -> bool {
    match w {
        WireValue::PrfKey(k) => k.len() == 16,
        WireValue::VecRing16(s) => s.len() <= u64::MAX,
        WireValue::VecRing32(s) => s.len() <= u64::MAX,
        WireValue::VecRing64(s) => s.len() <= u64::MAX,
        _ => true,
    }
}

/// The little-endian bytes of each element of `s`.
pub open spec fn groups16(s: Seq<u16>) -> Seq<Seq<u8>> {
    s.map_values(|x: u16| le16(x))
}

/// The little-endian bytes of each element of `s`.
pub open spec fn groups32(s: Seq<u32>) -> Seq<Seq<u8>> {
    s.map_values(|x: u32| le32(x))
}

/// The little-endian bytes of each element of `s`.
pub open spec fn groups64(s: Seq<u64>) -> Seq<Seq<u8>> {
    s.map_values(|x: u64| le64(x))
}

/// The elements of `s`, each as 2 little-endian bytes, back to back.
pub open spec fn enc_vec16(s: Seq<u16>) -> Seq<u8> {
    concat_groups(groups16(s))
}

proof fn lemma_enc_vec16_groups(s: Seq<u16>)
    ensures
        forall|i: int| 0 <= i < s.len() ==> (#[trigger] groups16(s)[i]).len() == 2,
        enc_vec16(s).len() == 2 * s.len(),
{
    lemma_concat_groups_len(groups16(s), 2);
}

proof fn lemma_enc_vec16_injective(s1: Seq<u16>, s2: Seq<u16>)
    requires
        enc_vec16(s1) == enc_vec16(s2),
    ensures
        s1 == s2,
{
    lemma_enc_vec16_groups(s1);
    lemma_enc_vec16_groups(s2);
    let g1 = groups16(s1);
    let g2 = groups16(s2);
    assert forall|i: int| 0 <= i < s1.len() implies s1[i] == s2[i] by {
        lemma_concat_groups_index(g1, 2, i);
        lemma_concat_groups_index(g2, 2, i);
        assert(g1[i] == le16(s1[i]));
        assert(g2[i] == le16(s2[i]));
        lemma_u16_round_trip(s1[i]);
        lemma_u16_round_trip(s2[i]);
    }
    assert(s1 =~= s2);
}

fn push_vec16(out: &mut Vec<u8>, v: &Vec<u16>)
    ensures
        final(out)@ == old(out)@ + enc_vec16(v@),
{
    let mut i: usize = 0;
    while i < v.len()
        invariant
            i <= v@.len(),
            out@ == old(out)@ + enc_vec16(v@.subrange(0, i as int)),
        decreases v@.len() - i,
    {
        let ghost pre = v@.subrange(0, i as int);
        let ghost next = v@.subrange(0, i + 1);
        push_u16(out, v[i]);
        assert(groups16(next).drop_last() =~= groups16(pre));
        assert(out@ =~= old(out)@ + enc_vec16(next));
        i = i + 1;
    }
    assert(v@.subrange(0, i as int) =~= v@);
}

fn read_vec16(b: &[u8], pos: usize, n: usize) -> (r: Vec<u16>)
    requires
        pos + 2 * n <= b@.len(),
    ensures
        r@.len() == n,
        enc_vec16(r@) == b@.subrange(pos as int, pos + 2 * n),
{
    let blen = b.len();
    let mut r: Vec<u16> = Vec::new();
    let mut j: usize = 0;
    while j < n
        invariant
            j <= n,
            blen == b@.len(),
            pos + 2 * n <= b@.len(),
            r@.len() == j,
            enc_vec16(r@) == b@.subrange(pos as int, pos + 2 * j),
        decreases n - j,
    {
        let p = pos + 2 * j;
        let x = read_u16(b, p);
        let ghost pre = r@;
        r.push(x);
        proof {
            lemma_bytes_round_trip16(b@, p as int);
            assert(groups16(r@).drop_last() =~= groups16(pre));
            assert(enc_vec16(r@) =~= b@.subrange(pos as int, pos + 2 * (j + 1)));
        }
        j = j + 1;
    }
    r
}

/// The elements of `s`, each as 4 little-endian bytes, back to back.
pub open spec fn enc_vec32(s: Seq<u32>) -> Seq<u8> {
    concat_groups(groups32(s))
}

proof fn lemma_enc_vec32_groups(s: Seq<u32>)
    ensures
        forall|i: int| 0 <= i < s.len() ==> (#[trigger] groups32(s)[i]).len() == 4,
        enc_vec32(s).len() == 4 * s.len(),
{
    lemma_concat_groups_len(groups32(s), 4);
}

proof fn lemma_enc_vec32_injective(s1: Seq<u32>, s2: Seq<u32>)
    requires
        enc_vec32(s1) == enc_vec32(s2),
    ensures
        s1 == s2,
{
    lemma_enc_vec32_groups(s1);
    lemma_enc_vec32_groups(s2);
    let g1 = groups32(s1);
    let g2 = groups32(s2);
    assert forall|i: int| 0 <= i < s1.len() implies s1[i] == s2[i] by {
        lemma_concat_groups_index(g1, 4, i);
        lemma_concat_groups_index(g2, 4, i);
        assert(g1[i] == le32(s1[i]));
        assert(g2[i] == le32(s2[i]));
        lemma_u32_round_trip(s1[i]);
        lemma_u32_round_trip(s2[i]);
    }
    assert(s1 =~= s2);
}

fn push_vec32(out: &mut Vec<u8>, v: &Vec<u32>)
    ensures
        final(out)@ == old(out)@ + enc_vec32(v@),
{
    let mut i: usize = 0;
    while i < v.len()
        invariant
            i <= v@.len(),
            out@ == old(out)@ + enc_vec32(v@.subrange(0, i as int)),
        decreases v@.len() - i,
    {
        let ghost pre = v@.subrange(0, i as int);
        let ghost next = v@.subrange(0, i + 1);
        push_u32(out, v[i]);
        assert(groups32(next).drop_last() =~= groups32(pre));
        assert(out@ =~= old(out)@ + enc_vec32(next));
        i = i + 1;
    }
    assert(v@.subrange(0, i as int) =~= v@);
}

fn read_vec32(b: &[u8], pos: usize, n: usize) -> (r: Vec<u32>)
    requires
        pos + 4 * n <= b@.len(),
    ensures
        r@.len() == n,
        enc_vec32(r@) == b@.subrange(pos as int, pos + 4 * n),
{
    let blen = b.len();
    let mut r: Vec<u32> = Vec::new();
    let mut j: usize = 0;
    while j < n
        invariant
            j <= n,
            blen == b@.len(),
            pos + 4 * n <= b@.len(),
            r@.len() == j,
            enc_vec32(r@) == b@.subrange(pos as int, pos + 4 * j),
        decreases n - j,
    {
        let p = pos + 4 * j;
        let x = read_u32(b, p);
        let ghost pre = r@;
        r.push(x);
        proof {
            lemma_bytes_round_trip32(b@, p as int);
            assert(groups32(r@).drop_last() =~= groups32(pre));
            assert(enc_vec32(r@) =~= b@.subrange(pos as int, pos + 4 * (j + 1)));
        }
        j = j + 1;
    }
    r
}

/// The elements of `s`, each as 8 little-endian bytes, back to back.
pub open spec fn enc_vec64(s: Seq<u64>) -> Seq<u8> {
    concat_groups(groups64(s))
}

proof fn lemma_enc_vec64_groups(s: Seq<u64>)
    ensures
        forall|i: int| 0 <= i < s.len() ==> (#[trigger] groups64(s)[i]).len() == 8,
        enc_vec64(s).len() == 8 * s.len(),
{
    lemma_concat_groups_len(groups64(s), 8);
}

proof fn lemma_enc_vec64_injective(s1: Seq<u64>, s2: Seq<u64>)
    requires
        enc_vec64(s1) == enc_vec64(s2),
    ensures
        s1 == s2,
{
    lemma_enc_vec64_groups(s1);
    lemma_enc_vec64_groups(s2);
    let g1 = groups64(s1);
    let g2 = groups64(s2);
    assert forall|i: int| 0 <= i < s1.len() implies s1[i] == s2[i] by {
        lemma_concat_groups_index(g1, 8, i);
        lemma_concat_groups_index(g2, 8, i);
        assert(g1[i] == le64(s1[i]));
        assert(g2[i] == le64(s2[i]));
        lemma_u64_round_trip(s1[i]);
        lemma_u64_round_trip(s2[i]);
    }
    assert(s1 =~= s2);
}

fn push_vec64(out: &mut Vec<u8>, v: &Vec<u64>)
    ensures
        final(out)@ == old(out)@ + enc_vec64(v@),
{
    let mut i: usize = 0;
    while i < v.len()
        invariant
            i <= v@.len(),
            out@ == old(out)@ + enc_vec64(v@.subrange(0, i as int)),
        decreases v@.len() - i,
    {
        let ghost pre = v@.subrange(0, i as int);
        let ghost next = v@.subrange(0, i + 1);
        push_u64(out, v[i]);
        assert(groups64(next).drop_last() =~= groups64(pre));
        assert(out@ =~= old(out)@ + enc_vec64(next));
        i = i + 1;
    }
    assert(v@.subrange(0, i as int) =~= v@);
}

fn read_vec64(b: &[u8], pos: usize, n: usize) -> (r: Vec<u64>)
    requires
        pos + 8 * n <= b@.len(),
    ensures
        r@.len() == n,
        enc_vec64(r@) == b@.subrange(pos as int, pos + 8 * n),
{
    let blen = b.len();
    let mut r: Vec<u64> = Vec::new();
    let mut j: usize = 0;
    while j < n
        invariant
            j <= n,
            blen == b@.len(),
            pos + 8 * n <= b@.len(),
            r@.len() == j,
            enc_vec64(r@) == b@.subrange(pos as int, pos + 8 * j),
        decreases n - j,
    {
        let p = pos + 8 * j;
        let x = read_u64(b, p);
        let ghost pre = r@;
        r.push(x);
        proof {
            lemma_bytes_round_trip(b@, p as int);
            assert(groups64(r@).drop_last() =~= groups64(pre));
            assert(enc_vec64(r@) =~= b@.subrange(pos as int, pos + 8 * (j + 1)));
        }
        j = j + 1;
    }
    r
}

/// The bytes of a value.
pub open spec fn wire_bytes(w: WireValue) -> Seq<u8> {
    match w {
        WireValue::PrfKey(k) => seq![0u8] + k,
        WireValue::Ring16(x) => seq![1u8] + le16(x),
        WireValue::Ring32(x) => seq![2u8] + le32(x),
        WireValue::RingElementBit(b) => seq![3u8, if b { 1u8 } else { 0u8 }],
        WireValue::RingElement16(x) => seq![4u8] + le16(x),
        WireValue::RingElement32(x) => seq![5u8] + le32(x),
        WireValue::RingElement64(x) => seq![6u8] + le64(x),
        WireValue::VecRing16(s) => seq![7u8] + le64(s.len() as u64) + enc_vec16(s),
        WireValue::VecRing32(s) => seq![8u8] + le64(s.len() as u64) + enc_vec32(s),
        WireValue::VecRing64(s) => seq![9u8] + le64(s.len() as u64) + enc_vec64(s),
    }
}

/// The payload size that an element count announces for elements of `w` bytes.
pub open spec fn vec_fits(b: Seq<u8>, w: int) -> bool {
    b.len() >= 9 && b.len() - 9 == w * u64_at(b, 1)
}

/// Whether `b` is the encoding of some value.
pub open spec fn wire_decodable(b: Seq<u8>) -> bool {
    b.len() >= 1 && {
        let t = b[0];
        let n = b.len();
        if t == 0 {
            n == 17
        } else if t == 1 || t == 4 {
            n == 3
        } else if t == 2 || t == 5 {
            n == 5
        } else if t == 3 {
            n == 2 && b[1] <= 1
        } else if t == 6 {
            n == 9
        } else if t == 7 {
            vec_fits(b, 2)
        } else if t == 8 {
            vec_fits(b, 4)
        } else if t == 9 {
            vec_fits(b, 8)
        } else {
            false
        }
    }
}

/// Every value's encoding decodes, and only to that value; a buffer cut
/// short by its last byte does not decode.
pub proof fn lemma_wire_round_trip(x: WireValue, y: WireValue)
    requires
        wire_wf(x),
        wire_bytes(y) == wire_bytes(x),
    ensures
        wire_decodable(wire_bytes(x)),
        y == x,
        !wire_decodable(wire_bytes(x).drop_last()),
{
    let b = wire_bytes(x);
    assert(b[0] == wire_bytes(y)[0]);
    match x {
        WireValue::PrfKey(k) => {
            if let WireValue::PrfKey(k2) = y {
                assert(k =~= b.subrange(1, 17));
                assert(k2 =~= wire_bytes(y).subrange(1, 17));
            }
        },
        WireValue::Ring16(v) => {
            if let WireValue::Ring16(v2) = y {
                assert(le16(v) =~= b.subrange(1, 3));
                assert(le16(v2) =~= b.subrange(1, 3));
                lemma_u16_round_trip(v);
                lemma_u16_round_trip(v2);
            }
        },
        WireValue::RingElement16(v) => {
            if let WireValue::RingElement16(v2) = y {
                assert(le16(v) =~= b.subrange(1, 3));
                assert(le16(v2) =~= b.subrange(1, 3));
                lemma_u16_round_trip(v);
                lemma_u16_round_trip(v2);
            }
        },
        WireValue::Ring32(v) => {
            if let WireValue::Ring32(v2) = y {
                assert(le32(v) =~= b.subrange(1, 5));
                assert(le32(v2) =~= b.subrange(1, 5));
                lemma_u32_round_trip(v);
                lemma_u32_round_trip(v2);
            }
        },
        WireValue::RingElement32(v) => {
            if let WireValue::RingElement32(v2) = y {
                assert(le32(v) =~= b.subrange(1, 5));
                assert(le32(v2) =~= b.subrange(1, 5));
                lemma_u32_round_trip(v);
                lemma_u32_round_trip(v2);
            }
        },
        WireValue::RingElement64(v) => {
            if let WireValue::RingElement64(v2) = y {
                assert(le64(v) =~= b.subrange(1, 9));
                assert(le64(v2) =~= b.subrange(1, 9));
                lemma_u64_round_trip(v);
                lemma_u64_round_trip(v2);
            }
        },
        WireValue::RingElementBit(v) => {
            assert(b[1] == wire_bytes(y)[1]);
        },
        WireValue::VecRing16(s) => {
            lemma_enc_vec16_groups(s);
            assert(b.subrange(1, 9) =~= le64(s.len() as u64));
            lemma_count_field(b, s.len() as u64);
            if let WireValue::VecRing16(s2) = y {
                lemma_enc_vec16_groups(s2);
                assert(enc_vec16(s) =~= b.subrange(9, b.len() as int));
                assert(enc_vec16(s2) =~= b.subrange(9, b.len() as int));
                lemma_enc_vec16_injective(s, s2);
            }
        },
        WireValue::VecRing32(s) => {
            lemma_enc_vec32_groups(s);
            assert(b.subrange(1, 9) =~= le64(s.len() as u64));
            lemma_count_field(b, s.len() as u64);
            if let WireValue::VecRing32(s2) = y {
                lemma_enc_vec32_groups(s2);
                assert(enc_vec32(s) =~= b.subrange(9, b.len() as int));
                assert(enc_vec32(s2) =~= b.subrange(9, b.len() as int));
                lemma_enc_vec32_injective(s, s2);
            }
        },
        WireValue::VecRing64(s) => {
            lemma_enc_vec64_groups(s);
            assert(b.subrange(1, 9) =~= le64(s.len() as u64));
            lemma_count_field(b, s.len() as u64);
            if let WireValue::VecRing64(s2) = y {
                lemma_enc_vec64_groups(s2);
                assert(enc_vec64(s) =~= b.subrange(9, b.len() as int));
                assert(enc_vec64(s2) =~= b.subrange(9, b.len() as int));
                lemma_enc_vec64_injective(s, s2);
            }
        },
    }
}

/// The element count that a vector's encoding announces, also once cut short.
proof fn lemma_count_field(b: Seq<u8>, count: u64)
    requires
        b.len() >= 9,
        b.subrange(1, 9) == le64(count),
    ensures
        u64_at(b, 1) == count,
        b.len() >= 10 ==> u64_at(b.drop_last(), 1) == count,
{
    lemma_u64_round_trip(count);
    lemma_u64_at_subrange(b, 1, 9, 0);
    if b.len() >= 10 {
        lemma_u64_at_subrange(b.drop_last(), 1, 9, 0);
        assert(b.drop_last().subrange(1, 9) =~= b.subrange(1, 9));
    }
}

impl NetworkValue {
    /// The bytes of this value.
    pub fn to_network(&self) -> (r: Vec<u8>)
        ensures
            r@ == wire_bytes(self@),
            wire_wf(self@),
    {
        let mut out: Vec<u8> = Vec::new();
        match self {
            NetworkValue::PrfKey(k) => {
                out.push(0u8);
                push_bytes(&mut out, k.as_slice());
            },
            NetworkValue::Ring16(x) => {
                out.push(1u8);
                push_u16(&mut out, *x);
            },
            NetworkValue::Ring32(x) => {
                out.push(2u8);
                push_u32(&mut out, *x);
            },
            NetworkValue::RingElementBit(b) => {
                out.push(3u8);
                out.push(if *b { 1u8 } else { 0u8 });
            },
            NetworkValue::RingElement16(x) => {
                out.push(4u8);
                push_u16(&mut out, *x);
            },
            NetworkValue::RingElement32(x) => {
                out.push(5u8);
                push_u32(&mut out, *x);
            },
            NetworkValue::RingElement64(x) => {
                out.push(6u8);
                push_u64(&mut out, *x);
            },
            NetworkValue::VecRing16(v) => {
                out.push(7u8);
                push_u64(&mut out, v.len() as u64);
                push_vec16(&mut out, v);
            },
            NetworkValue::VecRing32(v) => {
                out.push(8u8);
                push_u64(&mut out, v.len() as u64);
                push_vec32(&mut out, v);
            },
            NetworkValue::VecRing64(v) => {
                out.push(9u8);
                push_u64(&mut out, v.len() as u64);
                push_vec64(&mut out, v);
            },
        }
        assert(out@ =~= wire_bytes(self@));
        out
    }

    /// Decodes a value, failing on any buffer that is not an encoding.
    pub fn from_network(serialized: &[u8]) -> (r: Result<NetworkValue, DecodeError>)
        ensures
            r is Ok <==> wire_decodable(serialized@),
            r matches Ok(v) ==> wire_bytes(v@) == serialized@,
    {
        let b = serialized;
        let n = b.len();
        if n == 0 {
            return Err(DecodeError::Malformed);
        }
        let tag = b[0];
        if tag == 0 {
            if n != 17 {
                return Err(DecodeError::Malformed);
            }
            let k: [u8; 16] = [
                b[1], b[2], b[3], b[4], b[5], b[6], b[7], b[8], b[9], b[10], b[11], b[12], b[13],
                b[14], b[15], b[16],
            ];
            assert(wire_bytes(WireValue::PrfKey(k@)) =~= b@);
            Ok(NetworkValue::PrfKey(k))
        } else if tag == 1 || tag == 4 {
            if n != 3 {
                return Err(DecodeError::Malformed);
            }
            let x = read_u16(b, 1);
            proof {
                lemma_bytes_round_trip16(b@, 1);
            }
            if tag == 1 {
                assert(wire_bytes(WireValue::Ring16(x)) =~= b@);
                Ok(NetworkValue::Ring16(x))
            } else {
                assert(wire_bytes(WireValue::RingElement16(x)) =~= b@);
                Ok(NetworkValue::RingElement16(x))
            }
        } else if tag == 2 || tag == 5 {
            if n != 5 {
                return Err(DecodeError::Malformed);
            }
            let x = read_u32(b, 1);
            proof {
                lemma_bytes_round_trip32(b@, 1);
            }
            if tag == 2 {
                assert(wire_bytes(WireValue::Ring32(x)) =~= b@);
                Ok(NetworkValue::Ring32(x))
            } else {
                assert(wire_bytes(WireValue::RingElement32(x)) =~= b@);
                Ok(NetworkValue::RingElement32(x))
            }
        } else if tag == 3 {
            if n != 2 || b[1] > 1 {
                return Err(DecodeError::Malformed);
            }
            let bit = b[1] == 1;
            assert(wire_bytes(WireValue::RingElementBit(bit)) =~= b@);
            Ok(NetworkValue::RingElementBit(bit))
        } else if tag == 6 {
            if n != 9 {
                return Err(DecodeError::Malformed);
            }
            let x = read_u64(b, 1);
            proof {
                lemma_bytes_round_trip(b@, 1);
            }
            assert(wire_bytes(WireValue::RingElement64(x)) =~= b@);
            Ok(NetworkValue::RingElement64(x))
        } else if tag == 7 || tag == 8 || tag == 9 {
            if n < 9 {
                return Err(DecodeError::Malformed);
            }
            let count = read_u64(b, 1);
            let width: usize = if tag == 7 {
                2
            } else if tag == 8 {
                4
            } else {
                8
            };
            let m = n - 9;
            if m % width != 0 || (m / width) as u64 != count {
                return Err(DecodeError::Malformed);
            }
            let len = m / width;
            assert(width * len == m);
            proof {
                lemma_bytes_round_trip(b@, 1);
            }
            if tag == 7 {
                let v = read_vec16(b, 9, len);
                assert(wire_bytes(WireValue::VecRing16(v@)) =~= b@);
                Ok(NetworkValue::VecRing16(v))
            } else if tag == 8 {
                let v = read_vec32(b, 9, len);
                assert(wire_bytes(WireValue::VecRing32(v@)) =~= b@);
                Ok(NetworkValue::VecRing32(v))
            } else {
                let v = read_vec64(b, 9, len);
                assert(wire_bytes(WireValue::VecRing64(v@)) =~= b@);
                Ok(NetworkValue::VecRing64(v))
            }
        } else {
            Err(DecodeError::Malformed)
        }
    }
}

} // verus!
