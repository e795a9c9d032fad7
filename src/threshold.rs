//! The plaintext threshold decision that the shared circuit computes.
//!
//! Dot-products live in the ring of 2^16 elements: a code dot-product is a
//! signed quantity in two's complement, a mask dot-product is a count.
//! With at most `IRIS_CODE_SIZE` bits compared, the form `m * A - c * B`
//! never leaves the signed 32-bit range, so its top bit is its sign.

use crate::circuit::{threshold_bit, threshold_form, A};
use vstd::arithmetic::power2::lemma2_to64;
use vstd::bits::lemma_u32_shl_is_mul;
use vstd::prelude::*;

verus! {

/// The number of bits in an iris code: the largest magnitude of a dot-product.
pub const IRIS_CODE_SIZE: u16 = 12800;

/// The signed value of a ring element of 2^16 elements in two's complement.
pub open spec fn signed16(x: u16) -> int {
    if x < 32768 {
        x as int
    } else {
        x - 65536
    }
}

/// The top bit of the threshold form of a code and a mask dot-product.
pub fn threshold_msb(code: u16, mask: u16) -> (r: bool)
    ensures
        r == threshold_bit(code as u32, mask as u32),
{
    let f = (mask as u32).wrapping_mul(A).wrapping_sub((code as u32) << 16);
    f >> 31 == 1
}

/// The top bit of the threshold form of every pair, in order.
pub fn real_result_msb(code_input: &Vec<u16>, mask_input: &Vec<u16>) -> (r: Option<Vec<bool>>)
    ensures
        r is None <==> code_input@.len() != mask_input@.len(),
        r matches Some(bits) ==> bits@.len() == code_input@.len() && forall|j: int|
            0 <= j < bits@.len() ==> #[trigger] bits@[j] == threshold_bit(
                code_input@[j] as u32,
                mask_input@[j] as u32,
            ),
{
    let n = code_input.len();
    if mask_input.len() != n {
        return None;
    }
    let mut bits: Vec<bool> = Vec::new();
    let mut j: usize = 0;
    while j < n
        invariant
            j <= n,
            n == code_input@.len(),
            n == mask_input@.len(),
            bits@.len() == j,
            forall|i: int|
                0 <= i < j ==> #[trigger] bits@[i] == threshold_bit(
                    code_input@[i] as u32,
                    mask_input@[i] as u32,
                ),
        decreases n - j,
    {
        bits.push(threshold_msb(code_input[j], mask_input[j]));
        j = j + 1;
    }
    Some(bits)
}

/// For dot-products within the size of an iris code, the top bit of the
/// threshold form is 1 exactly when `c * B > m * A`: for `m > 0`, when the
/// ratio `c / m` exceeds `A / B`.
pub proof fn lemma_threshold_correct(c: u16, m: u16)
    requires
        -(IRIS_CODE_SIZE as int) <= signed16(c) <= IRIS_CODE_SIZE,
        m <= IRIS_CODE_SIZE,
    ensures
        threshold_bit(c as u32, m as u32) <==> signed16(c) * 65536 > m * 16384,
{
    let cr = c as u32;
    let mr = m as u32;
    lemma2_to64();
    assert(cr * 65536 <= u32::MAX) by (nonlinear_arith)
        requires
            cr < 65536,
    ;
    lemma_u32_shl_is_mul(cr, 16);
    let y = (cr << 16u32) as int;
    assert(y == cr * 65536);
    assert(mr * 16384 <= 209715200) by (nonlinear_arith)
        requires
            mr <= 12800,
    ;
    assert(mr.wrapping_mul(A) == mr * 16384);
    let f = threshold_form(cr, mr);
    assert(f >> 31u32 == 1u32 <==> f >= 0x80000000u32) by (bit_vector);
    if cr < 32768 {
        assert(cr * 65536 <= 838860800) by (nonlinear_arith)
            requires
                cr <= 12800,
        ;
    } else {
        assert(cr * 65536 >= 3456106496) by (nonlinear_arith)
            requires
                cr >= 52736,
        ;
        assert(signed16(c) * 65536 == cr * 65536 - 4294967296);
    }
}

} // verus!
