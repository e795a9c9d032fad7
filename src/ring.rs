//! Replicated additive sharing over rings of 2^16, 2^32 and 2^64 elements,
//! and XOR sharing of single bits.
//!
//! A value `v` is split with two random ring elements `a` and `b` into the
//! shares `a`, `b` and `v - a - b`; party `i` holds shares `i` and `i + 1`
//! (mod 3), so any two parties can rebuild `v` and no one party can.

use crate::circuit::{add_val, Triple};
use vstd::prelude::*;

verus! {

/// The three shares of `value` mod 2^16, from the random `a` and `b`.
pub open spec fn shares16(value: u16, a: u16, b: u16) -> (u16, u16, u16) {
    (a, b, value.wrapping_sub(a).wrapping_sub(b))
}

/// The value three shares mod 2^16 stand for.
pub open spec fn sum16(s: (u16, u16, u16)) -> u16 {
    s.0.wrapping_add(s.1).wrapping_add(s.2)
}

/// Share `i` of three.
pub open spec fn nth16(s: (u16, u16, u16), i: int) -> u16 {
    if i % 3 == 0 {
        s.0
    } else if i % 3 == 1 {
        s.1
    } else {
        s.2
    }
}

/// Party `id`'s pair of shares of `value` mod 2^16.
pub fn rep_share16(value: u16, a: u16, b: u16, id: usize) -> (r: (u16, u16))
    requires
        id < 3,
    ensures
        r == (nth16(shares16(value, a, b), id as int), nth16(shares16(value, a, b), id + 1)),
{
    let c = value.wrapping_sub(a).wrapping_sub(b);
    if id == 0 {
        (a, b)
    } else if id == 1 {
        (b, c)
    } else {
        (c, a)
    }
}

/// The value that three shares mod 2^16 stand for.
pub fn reconstruct16(x: u16, y: u16, z: u16) -> (r: u16)
    ensures
        r == sum16((x, y, z)),
{
    x.wrapping_add(y).wrapping_add(z)
}

/// The shares of every value mod 2^16 add up to it, whatever the random parts.
pub proof fn lemma_sharing_round_trip16(value: u16, a: u16, b: u16)
    ensures
        sum16(shares16(value, a, b)) == value,
{
    assert(a.wrapping_add(b).wrapping_add(value.wrapping_sub(a).wrapping_sub(b)) == value)
        by (bit_vector);
}

/// The three shares of `value` mod 2^64, from the random `a` and `b`.
pub open spec fn shares64(value: u64, a: u64, b: u64) -> (u64, u64, u64) {
    (a, b, value.wrapping_sub(a).wrapping_sub(b))
}

/// The value three shares mod 2^64 stand for.
pub open spec fn sum64(s: (u64, u64, u64)) -> u64 {
    s.0.wrapping_add(s.1).wrapping_add(s.2)
}

/// Share `i` of three.
pub open spec fn nth64(s: (u64, u64, u64), i: int) -> u64 {
    if i % 3 == 0 {
        s.0
    } else if i % 3 == 1 {
        s.1
    } else {
        s.2
    }
}

/// Party `id`'s pair of shares of `value` mod 2^64.
pub fn rep_share64(value: u64, a: u64, b: u64, id: usize) -> (r: (u64, u64))
    requires
        id < 3,
    ensures
        r == (nth64(shares64(value, a, b), id as int), nth64(shares64(value, a, b), id + 1)),
{
    let c = value.wrapping_sub(a).wrapping_sub(b);
    if id == 0 {
        (a, b)
    } else if id == 1 {
        (b, c)
    } else {
        (c, a)
    }
}

/// The value that three shares mod 2^64 stand for.
pub fn reconstruct64(x: u64, y: u64, z: u64) -> (r: u64)
    ensures
        r == sum64((x, y, z)),
{
    x.wrapping_add(y).wrapping_add(z)
}

/// The shares of every value mod 2^64 add up to it, whatever the random parts.
pub proof fn lemma_sharing_round_trip64(value: u64, a: u64, b: u64)
    ensures
        sum64(shares64(value, a, b)) == value,
{
    assert(a.wrapping_add(b).wrapping_add(value.wrapping_sub(a).wrapping_sub(b)) == value)
        by (bit_vector);
}

/// The three shares of `value` mod 2^32, from the random `a` and `b`.
pub open spec fn shares32(value: u32, a: u32, b: u32) -> Triple {
    Triple { s0: a, s1: b, s2: value.wrapping_sub(a).wrapping_sub(b) }
}

/// The three shares of `value` mod 2^32, as the circuit takes them.
pub fn share32(value: u32, a: u32, b: u32) -> (r: Triple)
    ensures
        r == shares32(value, a, b),
{
    Triple { s0: a, s1: b, s2: value.wrapping_sub(a).wrapping_sub(b) }
}

/// The value that three shares mod 2^32 stand for.
pub fn reconstruct32(t: Triple) -> (r: u32)
    ensures
        r == add_val(t),
{
    t.s0.wrapping_add(t.s1).wrapping_add(t.s2)
}

/// The shares of every value mod 2^32 add up to it, whatever the random parts.
pub proof fn lemma_sharing_round_trip32(value: u32, a: u32, b: u32)
    ensures
        add_val(shares32(value, a, b)) == value,
{
    assert(a.wrapping_add(b).wrapping_add(value.wrapping_sub(a).wrapping_sub(b)) == value)
        by (bit_vector);
}

/// The three XOR shares of a bit, from the random `a` and `b`.
pub open spec fn bit_shares(value: bool, a: bool, b: bool) -> (bool, bool, bool) {
    (a, b, value ^ a ^ b)
}

/// The three XOR shares of a bit.
pub fn share_bit(value: bool, a: bool, b: bool) -> (r: (bool, bool, bool))
    ensures
        r == bit_shares(value, a, b),
{
    (a, b, value ^ a ^ b)
}

/// The bit that three XOR shares stand for.
pub fn reconstruct_bit(x: bool, y: bool, z: bool) -> (r: bool)
    ensures
        r == (x ^ y ^ z),
{
    x ^ y ^ z
}

/// The XOR shares of every bit give it back, whatever the random parts.
pub proof fn lemma_bit_sharing_round_trip(value: bool, a: bool, b: bool)
    ensures
        ({
            let s = bit_shares(value, a, b);
            s.0 ^ s.1 ^ s.2
        }) == value,
{
}

/// Two shares of a bit say nothing of it: for either value of the bit there
/// is a third share that completes them to it.
pub proof fn lemma_pair_hides_bit(x: bool, y: bool, value: bool)
    ensures
        x ^ y ^ (x ^ y ^ value) == value,
{
}

} // verus!
