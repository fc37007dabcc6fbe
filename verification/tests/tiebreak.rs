use tkiw::picker::TieBreaker;

#[test]
fn tiebreaker_is_deterministic_for_a_given_seed() {
    let mut a = TieBreaker::new(7);
    let mut b = TieBreaker::new(7);
    let xs: Vec<usize> = (0..20).map(|_| a.next(5)).collect();
    let ys: Vec<usize> = (0..20).map(|_| b.next(5)).collect();
    assert_eq!(xs, ys);
    assert!(xs.iter().all(|&v| v < 5));
}

/// xorshift64* as published, for a fixed seed.
fn reference(seed: u64, n: usize, count: usize) -> Vec<usize> {
    let mut x = seed | 1;
    let mut out = Vec::new();
    for _ in 0..count {
        x ^= x >> 12;
        x ^= x << 25;
        x ^= x >> 27;
        out.push((x.wrapping_mul(0x2545_F491_4F6C_DD1D) >> 33) as usize % n.max(1));
    }
    out
}

#[test]
fn tiebreaker_follows_xorshift64_star() {
    let mut t = TieBreaker::new(12345);
    let got: Vec<usize> = (0..50).map(|_| t.next(1000)).collect();
    assert_eq!(got, reference(12345, 1000, 50));
}

#[test]
fn zero_options_draw_zero() {
    let mut t = TieBreaker::new_const();
    for _ in 0..10 {
        assert_eq!(t.next(0), 0);
    }
}
