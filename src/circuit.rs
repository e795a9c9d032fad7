//! The masked threshold circuit over replicated shares.
//!
//! A secret is split into three shares `s0`, `s1`, `s2`; party `i` holds
//! shares `i` and `i + 1` (mod 3). Arithmetic sharing adds the shares modulo
//! 2^32, boolean sharing XORs them. A `Triple` holds the three shares of
//! one value at once: what the three parties hold together. Every gate
//! computes share `i` of its output from what party `i` holds alone.
//!
//! The circuit turns arithmetic shares of a code dot-product `c` and a mask
//! dot-product `m` into boolean shares of the top bit of
//! `m * A - c * B` (mod 2^32), with `B = 2^16` and `A = (1 - 2 * ratio) * B`
//! for the match ratio 3/8. That bit is 1 exactly when `c * B > m * A`.

use vstd::prelude::*;

verus! {

/// The fixed-point precision bits of the threshold.
pub const B_BITS: u32 = 16;

/// The fixed-point denominator, `2^B_BITS`.
pub const B: u32 = 65536;

/// The fixed-point numerator scale, `(1 - 2 * 3/8) * B`.
pub const A: u32 = 16384;

/// Random triples that the AND gates of one comparison consume.
pub const GATES: usize = 11;

/// The three shares of one value.
#[derive(Debug, Clone, Copy, PartialEq, Eq, Structural)]
pub struct Triple {
    pub s0: u32,
    pub s1: u32,
    pub s2: u32,
}

/// The value of a boolean sharing.
pub open spec fn xor_val(t: Triple) -> u32 {
    t.s0 ^ t.s1 ^ t.s2
}

/// The value of an arithmetic sharing.
pub open spec fn add_val(t: Triple) -> u32 {
    t.s0.wrapping_add(t.s1).wrapping_add(t.s2)
}

/// The linear form whose sign decides a comparison: `m * A - c * B` mod 2^32.
pub open spec fn threshold_form(c: u32, m: u32) -> u32 {
    m.wrapping_mul(A).wrapping_sub(c << 16u32)
}

/// The bit the circuit computes: the top bit of the threshold form.
pub open spec fn threshold_bit(c: u32, m: u32) -> bool {
    threshold_form(c, m) >> 31u32 == 1
}

/// Carry-save step: three addends become a sum word and a carry word.
pub proof fn lemma_carry_save(x0: u32, x1: u32, x2: u32)
    ensures
        ((x0 ^ x1 ^ x2) as u32).wrapping_add(((((x0 ^ x1) & (x1 ^ x2)) ^ x1) << 1u32) as u32)
            == x0.wrapping_add(x1).wrapping_add(x2),
{
    assert(((x0 ^ x1 ^ x2) as u32).wrapping_add(((((x0 ^ x1) & (x1 ^ x2)) ^ x1) << 1u32) as u32)
        == x0.wrapping_add(x1).wrapping_add(x2)) by (bit_vector);
}


/// A parallel-prefix carry chain gives the top bit of a sum of two words.
pub proof fn lemma_prefix_msb(
    s: u32,
    k: u32,
    g0: u32,
    p0: u32,
    g1: u32,
    p1: u32,
    g2: u32,
    p2: u32,
    g3: u32,
    p3: u32,
    g4: u32,
    p4: u32,
    g5: u32,
)
    requires
        g0 == s & k,
        p0 == s ^ k,
        g1 == g0 ^ (p0 & (g0 << 1u32)),
        p1 == p0 & (p0 << 1u32),
        g2 == g1 ^ (p1 & (g1 << 2u32)),
        p2 == p1 & (p1 << 2u32),
        g3 == g2 ^ (p2 & (g2 << 4u32)),
        p3 == p2 & (p2 << 4u32),
        g4 == g3 ^ (p3 & (g3 << 8u32)),
        p4 == p3 & (p3 << 8u32),
        g5 == g4 ^ (p4 & (g4 << 16u32)),
    ensures
        (p0 ^ (g5 << 1u32)) >> 31u32 == s.wrapping_add(k) >> 31u32,
{
    assert((p0 ^ (g5 << 1u32)) >> 31u32 == s.wrapping_add(k) >> 31u32) by (bit_vector)
        requires
            g0 == s & k,
            p0 == s ^ k,
            g1 == g0 ^ (p0 & (g0 << 1u32)),
            p1 == p0 & (p0 << 1u32),
            g2 == g1 ^ (p1 & (g1 << 2u32)),
            p2 == p1 & (p1 << 2u32),
            g3 == g2 ^ (p2 & (g2 << 4u32)),
            p3 == p2 & (p2 << 4u32),
            g4 == g3 ^ (p3 & (g3 << 8u32)),
            p4 == p3 & (p3 << 8u32),
            g5 == g4 ^ (p4 & (g4 << 16u32)),
    ;
}


/// Party-local part of the threshold form, applied to one share of each input.
pub fn local_form(c: u32, m: u32) -> (r: u32)
    ensures
        r == threshold_form(c, m),
{
    m.wrapping_mul(A).wrapping_sub(c << 16)
}

/// The threshold form is linear: applied share by share it gives shares of
/// the form of the shared values.
pub fn form_gate(c: Triple, m: Triple) -> (r: Triple)
    ensures
        add_val(r) == threshold_form(add_val(c), add_val(m)),
{
    let r = Triple { s0: local_form(c.s0, m.s0), s1: local_form(c.s1, m.s1), s2: local_form(c.s2, m.s2) };
    let (c0, c1, c2, m0, m1, m2) = (c.s0, c.s1, c.s2, m.s0, m.s1, m.s2);
    assert(m0.wrapping_mul(16384u32).wrapping_sub(c0 << 16u32).wrapping_add(
        m1.wrapping_mul(16384u32).wrapping_sub(c1 << 16u32),
    ).wrapping_add(m2.wrapping_mul(16384u32).wrapping_sub(c2 << 16u32)) == m0.wrapping_add(
        m1,
    ).wrapping_add(m2).wrapping_mul(16384u32).wrapping_sub(
        c0.wrapping_add(c1).wrapping_add(c2) << 16u32,
    )) by (bit_vector);
    r
}

/// Share `i` of an AND: from party `i`'s shares `(xa, xb)` of `x`, `(ya, yb)`
/// of `y`, and its two random words `(ra, rb)`.
pub fn and_local(xa: u32, xb: u32, ya: u32, yb: u32, ra: u32, rb: u32) -> (z: u32)
    ensures
        z == (xa & ya) ^ (xa & yb) ^ (xb & ya) ^ ra ^ rb,
{
    (xa & ya) ^ (xa & yb) ^ (xb & ya) ^ ra ^ rb
}

/// Boolean shares of `x & y`. The random words cancel out in the value and
/// hide each party's cross terms from the others.
pub fn and_gate(x: Triple, y: Triple, r: Triple) -> (z: Triple)
    ensures
        xor_val(z) == xor_val(x) & xor_val(y),
{
    let z = Triple {
        s0: and_local(x.s0, x.s1, y.s0, y.s1, r.s0, r.s1),
        s1: and_local(x.s1, x.s2, y.s1, y.s2, r.s1, r.s2),
        s2: and_local(x.s2, x.s0, y.s2, y.s0, r.s2, r.s0),
    };
    let (x0, x1, x2, y0, y1, y2, r0, r1, r2) = (x.s0, x.s1, x.s2, y.s0, y.s1, y.s2, r.s0, r.s1, r.s2);
    assert(((x0 & y0) ^ (x0 & y1) ^ (x1 & y0) ^ r0 ^ r1) ^ ((x1 & y1) ^ (x1 & y2) ^ (x2 & y1) ^ r1
        ^ r2) ^ ((x2 & y2) ^ (x2 & y0) ^ (x0 & y2) ^ r2 ^ r0) == (x0 ^ x1 ^ x2) & (y0 ^ y1 ^ y2))
        by (bit_vector);
    z
}

/// Boolean shares of `x ^ y`, computed locally.
pub fn xor_gate(x: Triple, y: Triple) -> (z: Triple)
    ensures
        xor_val(z) == xor_val(x) ^ xor_val(y),
{
    let z = Triple { s0: x.s0 ^ y.s0, s1: x.s1 ^ y.s1, s2: x.s2 ^ y.s2 };
    let (x0, x1, x2, y0, y1, y2) = (x.s0, x.s1, x.s2, y.s0, y.s1, y.s2);
    assert((x0 ^ y0) ^ (x1 ^ y1) ^ (x2 ^ y2) == (x0 ^ x1 ^ x2) ^ (y0 ^ y1 ^ y2)) by (bit_vector);
    z
}

/// Boolean shares of `x << d`, computed locally.
pub fn shl_gate(x: Triple, d: u32) -> (z: Triple)
    requires
        d < 32,
    ensures
        xor_val(z) == xor_val(x) << d,
{
    let z = Triple { s0: x.s0 << d, s1: x.s1 << d, s2: x.s2 << d };
    let (x0, x1, x2) = (x.s0, x.s1, x.s2);
    assert((x0 << d) ^ (x1 << d) ^ (x2 << d) == (x0 ^ x1 ^ x2) << d) by (bit_vector)
        requires
            d < 32,
    ;
    z
}

/// Boolean shares of the top bit of `x`, as the value 0 or 1, computed locally.
pub fn top_bit_gate(x: Triple) -> (z: Triple)
    ensures
        xor_val(z) == xor_val(x) >> 31u32,
{
    let z = Triple { s0: x.s0 >> 31, s1: x.s1 >> 31, s2: x.s2 >> 31 };
    let (x0, x1, x2) = (x.s0, x.s1, x.s2);
    assert((x0 >> 31u32) ^ (x1 >> 31u32) ^ (x2 >> 31u32) == (x0 ^ x1 ^ x2) >> 31u32)
        by (bit_vector);
    z
}

/// Boolean shares of the top bit of an arithmetically shared value.
///
/// Share `i` of the value is already a boolean sharing of it with the other
/// shares zero; a carry-save adder folds the three into a sum and a carry
/// word, and a parallel-prefix carry chain adds those two. `r` holds the
/// `GATES` random triples of the AND gates, read from `at`.
pub fn msb_extract(x: Triple, r: &Vec<Triple>, at: usize) -> (z: Triple)
    requires
        at + GATES <= r@.len(),
    ensures
        xor_val(z) == add_val(x) >> 31u32,
{
    let n = r.len();
    assert(at + GATES <= n);
    let (x0, x1, x2) = (x.s0, x.s1, x.s2);
    // the sum word of the carry-save adder needs no interaction
    let s = x;
    let u = Triple { s0: x0, s1: x1, s2: 0 };
    let v = Triple { s0: 0, s1: x1, s2: x2 };
    let w = Triple { s0: 0, s1: x1, s2: 0 };
    let carry = xor_gate(and_gate(u, v, r[at]), w);
    let k = shl_gate(carry, 1);
    proof {
        assert(x0 ^ x1 ^ 0u32 == x0 ^ x1 && 0u32 ^ x1 ^ x2 == x1 ^ x2 && 0u32 ^ x1 ^ 0u32 == x1)
            by (bit_vector);
        lemma_carry_save(x0, x1, x2);
    }
    let g0 = and_gate(s, k, r[at + 1]);
    let p0 = xor_gate(s, k);
    let g1 = xor_gate(g0, and_gate(p0, shl_gate(g0, 1), r[at + 2]));
    let p1 = and_gate(p0, shl_gate(p0, 1), r[at + 3]);
    let g2 = xor_gate(g1, and_gate(p1, shl_gate(g1, 2), r[at + 4]));
    let p2 = and_gate(p1, shl_gate(p1, 2), r[at + 5]);
    let g3 = xor_gate(g2, and_gate(p2, shl_gate(g2, 4), r[at + 6]));
    let p3 = and_gate(p2, shl_gate(p2, 4), r[at + 7]);
    let g4 = xor_gate(g3, and_gate(p3, shl_gate(g3, 8), r[at + 8]));
    let p4 = and_gate(p3, shl_gate(p3, 8), r[at + 9]);
    let g5 = xor_gate(g4, and_gate(p4, shl_gate(g4, 16), r[at + 10]));
    let z = top_bit_gate(xor_gate(p0, shl_gate(g5, 1)));
    proof {
        lemma_prefix_msb(
            xor_val(s),
            xor_val(k),
            xor_val(g0),
            xor_val(p0),
            xor_val(g1),
            xor_val(p1),
            xor_val(g2),
            xor_val(p2),
            xor_val(g3),
            xor_val(p3),
            xor_val(g4),
            xor_val(p4),
            xor_val(g5),
        );
    }
    z
}


/// Why a batch was refused before any work started.
#[derive(Debug, Clone, Copy, PartialEq, Eq, Structural)]
pub enum CircuitError {
    /// Code, mask, random or received buffers of different lengths.
    ShapeMismatch,
    /// A party index outside `0..3`.
    NoSuchParty,
}

/// One party's pair of equal-length share buffers for one chunk.
#[derive(Debug)]
pub struct ChunkShare<T> {
    pub a: Vec<T>,
    pub b: Vec<T>,
}

impl<T> ChunkShare<T> {
    /// The two buffers cover the same values.
    pub open spec fn wf(&self) -> bool {
        self.a@.len() == self.b@.len()
    }
}

/// Share `i` of a triple.
pub open spec fn share(t: Triple, i: int) -> u32 {
    if i % 3 == 0 {
        t.s0
    } else if i % 3 == 1 {
        t.s1
    } else {
        t.s2
    }
}

/// The comparison bits of a batch of pairs, in order.
pub open spec fn threshold_bits(code: Seq<Triple>, mask: Seq<Triple>) -> Seq<bool> {
    Seq::new(code.len(), |j: int| threshold_bit(add_val(code[j]), add_val(mask[j])))
}

/// The bits that boolean sharings of 0 or 1 stand for.
pub open spec fn opened_bits(z: Seq<Triple>) -> Seq<bool> {
    Seq::new(z.len(), |j: int| xor_val(z[j]) & 1u32 == 1u32)
}

/// Chunks laid end to end.
pub open spec fn concat_all<T>(s: Seq<Seq<T>>) -> Seq<T>
    decreases s.len(),
{
    if s.len() == 0 {
        Seq::empty()
    } else {
        concat_all(s.drop_last()) + s.last()
    }
}

/// The contents of a list of chunks.
pub open spec fn chunks_view<T>(c: Seq<Vec<T>>) -> Seq<Seq<T>> {
    c.map_values(|v: Vec<T>| v@)
}

/// Share `i` of every triple of `z`.
pub open spec fn shares_of(z: Seq<Triple>, i: int) -> Seq<u32> {
    z.map_values(|t: Triple| share(t, i))
}

/// Boolean shares of the comparison bit of one pair: 1 when `c * B > m * A`
/// modulo 2^32, read from the top bit of the threshold form.
pub fn compare_one(c: Triple, m: Triple, r: &Vec<Triple>, at: usize) -> (z: Triple)
    requires
        at + GATES <= r@.len(),
    ensures
        xor_val(z) == threshold_form(add_val(c), add_val(m)) >> 31u32,
        xor_val(z) & 1u32 == 1u32 <==> threshold_bit(add_val(c), add_val(m)),
{
    let f = form_gate(c, m);
    let z = msb_extract(f, r, at);
    let ghost t = threshold_form(add_val(c), add_val(m));
    assert((t >> 31u32) & 1u32 == 1u32 <==> t >> 31u32 == 1u32) by (bit_vector);
    z
}

/// Boolean shares of the comparison bit of every pair of one chunk.
/// `rand` holds `GATES` random triples per pair.
pub fn compare_threshold_masked(code: &Vec<Triple>, mask: &Vec<Triple>, rand: &Vec<Triple>) -> (r:
    Result<Vec<Triple>, CircuitError>)
    ensures
        r is Err <==> code@.len() != mask@.len() || rand@.len() != GATES * code@.len(),
        r is Err ==> r == Err::<Vec<Triple>, CircuitError>(CircuitError::ShapeMismatch),
        r matches Ok(z) ==> opened_bits(z@) == threshold_bits(code@, mask@),
{
    let n = code.len();
    if mask.len() != n || rand.len() % GATES != 0 || rand.len() / GATES != n {
        return Err(CircuitError::ShapeMismatch);
    }
    let rl = rand.len();
    let mut z: Vec<Triple> = Vec::new();
    let mut j: usize = 0;
    while j < n
        invariant
            j <= n,
            rl == rand@.len(),
            n == code@.len(),
            n == mask@.len(),
            rand@.len() == GATES * n,
            z@.len() == j,
            forall|i: int| 0 <= i < j ==> (xor_val(#[trigger] z@[i]) & 1u32 == 1u32) == threshold_bit(
                add_val(code@[i]),
                add_val(mask@[i]),
            ),
        decreases n - j,
    {
        let t = compare_one(code[j], mask[j], rand, GATES * j);
        z.push(t);
        j = j + 1;
    }
    assert(opened_bits(z@) =~= threshold_bits(code@, mask@));
    Ok(z)
}

/// Party `id`'s pair of share buffers for a chunk.
pub fn party_chunk(z: &Vec<Triple>, id: usize) -> (r: ChunkShare<u32>)
    requires
        id < 3,
    ensures
        r.wf(),
        r.a@ == shares_of(z@, id as int),
        r.b@ == shares_of(z@, id + 1),
{
    let mut a: Vec<u32> = Vec::new();
    let mut b: Vec<u32> = Vec::new();
    let mut j: usize = 0;
    while j < z.len()
        invariant
            j <= z@.len(),
            id < 3,
            a@ == shares_of(z@.subrange(0, j as int), id as int),
            b@ == shares_of(z@.subrange(0, j as int), id + 1),
        decreases z@.len() - j,
    {
        let t = z[j];
        let (x, y) = if id == 0 {
            (t.s0, t.s1)
        } else if id == 1 {
            (t.s1, t.s2)
        } else {
            (t.s2, t.s0)
        };
        a.push(x);
        b.push(y);
        j = j + 1;
        assert(a@ =~= shares_of(z@.subrange(0, j as int), id as int));
        assert(b@ =~= shares_of(z@.subrange(0, j as int), id + 1));
    }
    assert(z@.subrange(0, j as int) =~= z@);
    ChunkShare { a, b }
}

/// One party's step of the open round: its two shares and the share that
/// the previous party sent give the bits.
pub fn open_local(own: &ChunkShare<u32>, received: &Vec<u32>) -> (r: Result<
    Vec<bool>,
    CircuitError,
>)
    ensures
        r is Err <==> own.a@.len() != received@.len() || own.b@.len() != received@.len(),
        r is Err ==> r == Err::<Vec<bool>, CircuitError>(CircuitError::ShapeMismatch),
        r matches Ok(bits) ==> bits@.len() == received@.len() && forall|j: int|
            0 <= j < bits@.len() ==> #[trigger] bits@[j] == ((own.a@[j] ^ own.b@[j] ^ received@[j])
                & 1u32 == 1u32),
{
    let n = received.len();
    if own.a.len() != n || own.b.len() != n {
        return Err(CircuitError::ShapeMismatch);
    }
    let mut bits: Vec<bool> = Vec::new();
    let mut j: usize = 0;
    while j < n
        invariant
            j <= n,
            n == received@.len(),
            n == own.a@.len(),
            n == own.b@.len(),
            bits@.len() == j,
            forall|i: int|
                0 <= i < j ==> #[trigger] bits@[i] == ((own.a@[i] ^ own.b@[i] ^ received@[i]) & 1u32
                    == 1u32),
        decreases n - j,
    {
        bits.push((own.a[j] ^ own.b[j] ^ received[j]) & 1 == 1);
        j = j + 1;
    }
    Ok(bits)
}

/// Whichever party opens a sharing, it finds the same value.
pub proof fn lemma_open_agrees(t: Triple, id: int)
    requires
        0 <= id < 3,
    ensures
        share(t, id) ^ share(t, id + 1) ^ share(t, id + 2) == xor_val(t),
{
    let (x0, x1, x2) = (t.s0, t.s1, t.s2);
    assert(x1 ^ x2 ^ x0 == x0 ^ x1 ^ x2 && x2 ^ x0 ^ x1 == x0 ^ x1 ^ x2) by (bit_vector);
}

/// Party `id` opens every chunk of a batch, in device order. The share it
/// receives from the previous party is share `id + 2`.
pub fn open_batch(chunks: &Vec<Vec<Triple>>, id: usize) -> (r: Result<Vec<bool>, CircuitError>)
    ensures
        r is Err <==> id >= 3,
        r is Err ==> r == Err::<Vec<bool>, CircuitError>(CircuitError::NoSuchParty),
        r matches Ok(bits) ==> bits@ == opened_bits(concat_all(chunks_view(chunks@))),
{
    if id >= 3 {
        return Err(CircuitError::NoSuchParty);
    }
    let prev = (id + 2) % 3;
    let mut out: Vec<bool> = Vec::new();
    let mut k: usize = 0;
    while k < chunks.len()
        invariant
            k <= chunks@.len(),
            id < 3,
            prev == (id + 2) % 3,
            out@ == opened_bits(concat_all(chunks_view(chunks@.subrange(0, k as int)))),
        decreases chunks@.len() - k,
    {
        let z = &chunks[k];
        let own = party_chunk(z, id);
        let received = party_chunk(z, prev).a;
        let bits = match open_local(&own, &received) {
            Ok(bits) => bits,
            Err(e) => {
                return Err(e);
            },
        };
        let ghost pre = out@;
        let mut j: usize = 0;
        while j < bits.len()
            invariant
                j <= bits@.len(),
                out@ == pre + bits@.subrange(0, j as int),
            decreases bits@.len() - j,
        {
            out.push(bits[j]);
            j = j + 1;
            assert(out@ =~= pre + bits@.subrange(0, j as int));
        }
        proof {
            let cv = chunks_view(chunks@.subrange(0, k + 1));
            assert(cv.drop_last() =~= chunks_view(chunks@.subrange(0, k as int)));
            assert(cv.last() == z@);
            assert forall|i: int| 0 <= i < z@.len() implies #[trigger] bits@[i] == opened_bits(
                z@,
            )[i] by {
                lemma_open_agrees(z@[i], id as int);
                let (x0, x1, x2) = (z@[i].s0, z@[i].s1, z@[i].s2);
                assert(x1 ^ x2 ^ x0 == x0 ^ x1 ^ x2 && x2 ^ x0 ^ x1 == x0 ^ x1 ^ x2)
                    by (bit_vector);
            }
            assert(bits@.subrange(0, j as int) =~= opened_bits(z@));
            lemma_opened_concat(concat_all(cv.drop_last()), z@);
        }
        k = k + 1;
    }
    assert(chunks@.subrange(0, k as int) =~= chunks@);
    Ok(out)
}

proof fn lemma_opened_concat(x: Seq<Triple>, y: Seq<Triple>)
    ensures
        opened_bits(x + y) == opened_bits(x) + opened_bits(y),
{
    assert(opened_bits(x + y) =~= opened_bits(x) + opened_bits(y));
}


/// Whether chunk `k` of a batch has matching code, mask and random buffers.
pub open spec fn chunk_shape_ok(code: Seq<Triple>, mask: Seq<Triple>, rand: Seq<Triple>) -> bool {
    code.len() == mask.len() && rand.len() == GATES * code.len()
}

/// Whether every chunk of a batch has a matching shape.
pub open spec fn batch_shape_ok(
    code: Seq<Vec<Triple>>,
    mask: Seq<Vec<Triple>>,
    rand: Seq<Vec<Triple>>,
) -> bool {
    &&& code.len() == mask.len()
    &&& code.len() == rand.len()
    &&& forall|k: int| 0 <= k < code.len() ==> chunk_shape_ok(#[trigger] code[k]@, mask[k]@, rand[k]@)
}

/// Evaluates every chunk of a batch, one per device, after checking all
/// shapes first: a batch with one bad chunk does no work at all.
pub fn compare_threshold_masked_many(
    code: &Vec<Vec<Triple>>,
    mask: &Vec<Vec<Triple>>,
    rand: &Vec<Vec<Triple>>,
) -> (r: Result<Vec<Vec<Triple>>, CircuitError>)
    ensures
        r is Err <==> !batch_shape_ok(code@, mask@, rand@),
        r is Err ==> r == Err::<Vec<Vec<Triple>>, CircuitError>(CircuitError::ShapeMismatch),
        r matches Ok(z) ==> z@.len() == code@.len() && forall|k: int|
            0 <= k < z@.len() ==> opened_bits(#[trigger] z@[k]@) == threshold_bits(
                code@[k]@,
                mask@[k]@,
            ),
{
    let n = code.len();
    if mask.len() != n || rand.len() != n {
        return Err(CircuitError::ShapeMismatch);
    }
    let mut k: usize = 0;
    while k < n
        invariant
            k <= n,
            n == code@.len(),
            n == mask@.len(),
            n == rand@.len(),
            forall|i: int| 0 <= i < k ==> chunk_shape_ok(#[trigger] code@[i]@, mask@[i]@, rand@[i]@),
        decreases n - k,
    {
        let len = code[k].len();
        if mask[k].len() != len || rand[k].len() % GATES != 0 || rand[k].len() / GATES != len {
            assert(!chunk_shape_ok(code@[k as int]@, mask@[k as int]@, rand@[k as int]@));
            return Err(CircuitError::ShapeMismatch);
        }
        k = k + 1;
    }
    let mut out: Vec<Vec<Triple>> = Vec::new();
    let mut k: usize = 0;
    while k < n
        invariant
            k <= n,
            n == code@.len(),
            n == mask@.len(),
            n == rand@.len(),
            batch_shape_ok(code@, mask@, rand@),
            out@.len() == k,
            forall|i: int|
                0 <= i < k ==> opened_bits(#[trigger] out@[i]@) == threshold_bits(
                    code@[i]@,
                    mask@[i]@,
                ),
        decreases n - k,
    {
        assert(chunk_shape_ok(code@[k as int]@, mask@[k as int]@, rand@[k as int]@));
        match compare_threshold_masked(&code[k], &mask[k], &rand[k]) {
            Ok(z) => {
                out.push(z);
            },
            Err(e) => {
                return Err(e);
            },
        }
        k = k + 1;
    }
    Ok(out)
}

/// Evaluating a batch chunk by chunk and laying the opened bits of the
/// chunks end to end gives the bits of the whole batch, however it was cut.
pub proof fn lemma_chunked_bits(zs: Seq<Seq<Triple>>, cs: Seq<Seq<Triple>>, ms: Seq<Seq<Triple>>)
    requires
        zs.len() == cs.len(),
        cs.len() == ms.len(),
        forall|k: int|
            0 <= k < cs.len() ==> (#[trigger] cs[k]).len() == ms[k].len() && opened_bits(zs[k])
                == threshold_bits(cs[k], ms[k]),
    ensures
        opened_bits(concat_all(zs)) == threshold_bits(concat_all(cs), concat_all(ms)),
        concat_all(cs).len() == concat_all(ms).len(),
    decreases cs.len(),
{
    if cs.len() > 0 {
        let (zi, ci, mi) = (zs.drop_last(), cs.drop_last(), ms.drop_last());
        assert forall|k: int| 0 <= k < ci.len() implies (#[trigger] ci[k]).len() == mi[k].len()
            && opened_bits(zi[k]) == threshold_bits(ci[k], mi[k]) by {
            assert(ci[k] == cs[k] && mi[k] == ms[k] && zi[k] == zs[k]);
        }
        lemma_chunked_bits(zi, ci, mi);
        let last = cs.len() - 1;
        assert(cs[last].len() == ms[last].len());
        lemma_opened_concat(concat_all(zi), zs.last());
        assert(threshold_bits(concat_all(cs), concat_all(ms)) =~= threshold_bits(
            concat_all(ci),
            concat_all(mi),
        ) + threshold_bits(cs.last(), ms.last()));
    }
}

/// Evaluates a batch and opens it as party `id`: the comparison bit of every
/// pair of the batch, in order, whatever the chunks.
pub fn compare_and_open(
    code: &Vec<Vec<Triple>>,
    mask: &Vec<Vec<Triple>>,
    rand: &Vec<Vec<Triple>>,
    id: usize,
) -> (r: Result<Vec<bool>, CircuitError>)
    ensures
        r == Err::<Vec<bool>, CircuitError>(CircuitError::ShapeMismatch) <==> !batch_shape_ok(
            code@,
            mask@,
            rand@,
        ),
        r == Err::<Vec<bool>, CircuitError>(CircuitError::NoSuchParty) <==> batch_shape_ok(
            code@,
            mask@,
            rand@,
        ) && id >= 3,
        r matches Ok(bits) ==> bits@ == threshold_bits(
            concat_all(chunks_view(code@)),
            concat_all(chunks_view(mask@)),
        ),
{
    let z = compare_threshold_masked_many(code, mask, rand)?;
    let bits = open_batch(&z, id)?;
    proof {
        let (zs, cs, ms) = (chunks_view(z@), chunks_view(code@), chunks_view(mask@));
        assert forall|k: int| 0 <= k < cs.len() implies (#[trigger] cs[k]).len() == ms[k].len()
            && opened_bits(zs[k]) == threshold_bits(cs[k], ms[k]) by {
            assert(chunk_shape_ok(code@[k]@, mask@[k]@, rand@[k]@));
            assert(opened_bits(z@[k]@) == threshold_bits(code@[k]@, mask@[k]@));
        }
        lemma_chunked_bits(zs, cs, ms);
    }
    Ok(bits)
}

} // verus!
