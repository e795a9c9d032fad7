use iris_mpc::circuit::{
    compare_and_open, compare_threshold_masked, compare_threshold_masked_many, open_batch,
    open_local, party_chunk, CircuitError, Triple, GATES,
};
use iris_mpc::ring::{reconstruct32, share32};
use iris_mpc::threshold::{real_result_msb, threshold_msb, IRIS_CODE_SIZE};

/// A small deterministic generator for test inputs.
struct Rng(u64);

impl Rng {
    fn next(&mut self) -> u64 {
        self.0 ^= self.0 << 13;
        self.0 ^= self.0 >> 7;
        self.0 ^= self.0 << 17;
        self.0
    }
    fn below(&mut self, n: u64) -> u64 {
        self.next() % n
    }
}

fn sample_code_dots(size: usize, rng: &mut Rng) -> Vec<u16> {
    (0..size)
        .map(|_| {
            let mut x = rng.below(IRIS_CODE_SIZE as u64 + 1) as u16;
            if rng.next() & 1 == 1 {
                x = (u16::MAX - x).wrapping_add(1);
            }
            x
        })
        .collect()
}

fn sample_mask_dots(size: usize, rng: &mut Rng) -> Vec<u16> {
    (0..size).map(|_| rng.below(IRIS_CODE_SIZE as u64 + 1) as u16).collect()
}

fn share_all(values: &[u16], rng: &mut Rng) -> Vec<Triple> {
    values.iter().map(|v| share32(*v as u32, rng.next() as u32, rng.next() as u32)).collect()
}

fn random_triples(n: usize, rng: &mut Rng) -> Vec<Triple> {
    (0..n)
        .map(|_| Triple { s0: rng.next() as u32, s1: rng.next() as u32, s2: rng.next() as u32 })
        .collect()
}

fn chunked<T: Clone>(v: &[T], n_chunks: usize) -> Vec<Vec<T>> {
    let size = (v.len() + n_chunks - 1) / n_chunks;
    let mut out: Vec<Vec<T>> = v.chunks(size.max(1)).map(|c| c.to_vec()).collect();
    while out.len() < n_chunks {
        out.push(vec![]);
    }
    out
}

fn signed(x: u16) -> i64 {
    x as i16 as i64
}

#[test]
fn test_threshold() {
    let mut rng = Rng(42);
    let n = 2048;
    let code_dots = sample_code_dots(n, &mut rng);
    let mask_dots = sample_mask_dots(n, &mut rng);
    let real_result = real_result_msb(&code_dots, &mask_dots).unwrap();
    let code = share_all(&code_dots, &mut rng);
    let mask = share_all(&mask_dots, &mut rng);
    for _ in 0..10 {
        let rand = random_triples(GATES * n, &mut rng);
        for party in 0..3 {
            let result = compare_and_open(&vec![code.clone()], &vec![mask.clone()], &vec![rand.clone()], party)
                .unwrap();
            for (i, (r, r_)) in result.iter().zip(&real_result).enumerate() {
                assert_eq!(r, r_, "index {}", i);
            }
        }
    }
}

#[test]
fn shared_decision_matches_plaintext_ratio() {
    let mut rng = Rng(7);
    let n = 4096;
    let code_dots = sample_code_dots(n, &mut rng);
    let mask_dots = sample_mask_dots(n, &mut rng);
    let code = share_all(&code_dots, &mut rng);
    let mask = share_all(&mask_dots, &mut rng);
    let rand = random_triples(GATES * n, &mut rng);
    let bits = compare_and_open(&vec![code], &vec![mask], &vec![rand], 0).unwrap();
    for i in 0..n {
        let expected = signed(code_dots[i]) * 65536 > mask_dots[i] as i64 * 16384;
        assert_eq!(bits[i], expected);
        if mask_dots[i] > 0 {
            // the same comparison as a ratio: c / m > A / B
            let ratio_above = (signed(code_dots[i]) as f64) / (mask_dots[i] as f64) > 0.25;
            assert_eq!(bits[i], ratio_above);
        }
    }
}

#[test]
fn plaintext_formula_values() {
    assert!(!threshold_msb(0, 0));
    assert!(threshold_msb(1, 0));
    assert!(!threshold_msb(3200, 12800));
    assert!(threshold_msb(3201, 12800));
    assert!(!threshold_msb(u16::MAX, 0));
    assert!(!threshold_msb((u16::MAX - 12800).wrapping_add(1), 12800));
    assert_eq!(real_result_msb(&vec![1, 0], &vec![0, 0]), Some(vec![true, false]));
    assert_eq!(real_result_msb(&vec![1], &vec![]), None);
}

#[test]
fn chunking_does_not_change_bits() {
    let mut rng = Rng(99);
    let n = 1000;
    let code_dots = sample_code_dots(n, &mut rng);
    let mask_dots = sample_mask_dots(n, &mut rng);
    let code = share_all(&code_dots, &mut rng);
    let mask = share_all(&mask_dots, &mut rng);
    let rand = random_triples(GATES * n, &mut rng);
    let whole = compare_and_open(&vec![code.clone()], &vec![mask.clone()], &vec![rand.clone()], 1).unwrap();
    for n_chunks in [2usize, 3, 7, 8] {
        let cs = chunked(&code, n_chunks);
        let ms = chunked(&mask, n_chunks);
        let rs: Vec<Vec<Triple>> = cs
            .iter()
            .map(|c| random_triples(GATES * c.len(), &mut rng))
            .collect();
        let bits = compare_and_open(&cs, &ms, &rs, 2).unwrap();
        assert_eq!(bits, whole);
    }
}

#[test]
fn open_twice_gives_same_bits() {
    let mut rng = Rng(5);
    let n = 300;
    let code = share_all(&sample_code_dots(n, &mut rng), &mut rng);
    let mask = share_all(&sample_mask_dots(n, &mut rng), &mut rng);
    let rand = random_triples(GATES * n, &mut rng);
    let z = compare_threshold_masked(&code, &mask, &rand).unwrap();
    let batch = vec![z.clone()];
    let first = open_batch(&batch, 0).unwrap();
    let second = open_batch(&batch.clone(), 0).unwrap();
    assert_eq!(first, second);
    assert_eq!(open_batch(&batch, 1).unwrap(), first);
    assert_eq!(open_batch(&batch, 2).unwrap(), first);
    // each party's own step, with the first share of the previous party
    for id in 0..3 {
        let own = party_chunk(&z, id);
        let received = party_chunk(&z, (id + 2) % 3).a;
        assert_eq!(open_local(&own, &received).unwrap(), first);
    }
    assert_eq!(open_batch(&batch, 3), Err(CircuitError::NoSuchParty));
}

#[test]
fn result_shares_are_masked() {
    // the random words change every share while the opened bits stay
    let mut rng = Rng(11);
    let n = 64;
    let code = share_all(&sample_code_dots(n, &mut rng), &mut rng);
    let mask = share_all(&sample_mask_dots(n, &mut rng), &mut rng);
    let z1 = compare_threshold_masked(&code, &mask, &random_triples(GATES * n, &mut rng)).unwrap();
    let z2 = compare_threshold_masked(&code, &mask, &random_triples(GATES * n, &mut rng)).unwrap();
    assert_ne!(z1, z2);
    assert_eq!(open_batch(&vec![z1], 0), open_batch(&vec![z2], 0));
}

#[test]
fn shape_errors_come_before_work() {
    let t = Triple { s0: 0, s1: 0, s2: 0 };
    let good = vec![t; 2];
    let rand = vec![t; 2 * GATES];
    assert_eq!(compare_threshold_masked(&good, &vec![t; 1], &rand), Err(CircuitError::ShapeMismatch));
    assert_eq!(compare_threshold_masked(&good, &good, &vec![t; 3]), Err(CircuitError::ShapeMismatch));
    assert_eq!(
        compare_threshold_masked_many(&vec![good.clone(), good.clone()], &vec![good.clone(), vec![t]], &vec![rand.clone(), rand.clone()]),
        Err(CircuitError::ShapeMismatch)
    );
    assert_eq!(
        compare_and_open(&vec![good.clone()], &vec![good.clone()], &vec![rand.clone()], 5),
        Err(CircuitError::NoSuchParty)
    );
    let own = party_chunk(&good, 0);
    assert_eq!(open_local(&own, &vec![0u32]), Err(CircuitError::ShapeMismatch));
    // zero shares of zero: the form is zero, its top bit is 0
    assert_eq!(compare_and_open(&vec![good.clone()], &vec![good], &vec![rand], 0), Ok(vec![false, false]));
    assert_eq!(reconstruct32(t), 0);
}
