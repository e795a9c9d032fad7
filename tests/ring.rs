use iris_mpc::ring::{
    reconstruct16, reconstruct32, reconstruct64, reconstruct_bit, rep_share16, rep_share64,
    share32, share_bit,
};

struct Rng(u64);

impl Rng {
    fn next(&mut self) -> u64 {
        self.0 ^= self.0 << 13;
        self.0 ^= self.0 >> 7;
        self.0 ^= self.0 << 17;
        self.0
    }
}

#[test]
fn sharing_round_trip_16() {
    let mut rng = Rng(3);
    for _ in 0..1000 {
        let (v, a, b) = (rng.next() as u16, rng.next() as u16, rng.next() as u16);
        let p: Vec<(u16, u16)> = (0..3).map(|id| rep_share16(v, a, b, id)).collect();
        assert_eq!(reconstruct16(p[0].0, p[1].0, p[2].0), v);
        // each party's second share is the next party's first
        for id in 0..3 {
            assert_eq!(p[id].1, p[(id + 1) % 3].0);
        }
    }
    assert_eq!(rep_share16(5, 1, 2, 1), (2, 2));
    assert_eq!(rep_share16(0, 1, 0, 1), (0, u16::MAX));
}

#[test]
fn sharing_round_trip_32() {
    let mut rng = Rng(4);
    for _ in 0..1000 {
        let (v, a, b) = (rng.next() as u32, rng.next() as u32, rng.next() as u32);
        let t = share32(v, a, b);
        assert_eq!((t.s0, t.s1), (a, b));
        assert_eq!(reconstruct32(t), v);
    }
    assert_eq!(share32(0, 1, 1).s2, u32::MAX - 1);
}

#[test]
fn sharing_round_trip_64() {
    let mut rng = Rng(5);
    for _ in 0..1000 {
        let (v, a, b) = (rng.next(), rng.next(), rng.next());
        let p: Vec<(u64, u64)> = (0..3).map(|id| rep_share64(v, a, b, id)).collect();
        assert_eq!(reconstruct64(p[0].0, p[1].0, p[2].0), v);
        assert_eq!(reconstruct64(p[0].1, p[1].1, p[2].1), v);
    }
    assert_eq!(rep_share64(10, 3, 4, 2), (3, 3));
}

#[test]
fn bit_sharing_round_trip() {
    for v in [false, true] {
        for a in [false, true] {
            for b in [false, true] {
                let (x, y, z) = share_bit(v, a, b);
                assert_eq!(reconstruct_bit(x, y, z), v);
            }
        }
    }
    assert_eq!(share_bit(true, false, false), (false, false, true));
}
