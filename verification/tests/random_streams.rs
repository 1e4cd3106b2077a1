use stitchd_core::experimentation::stats::bayesian::Lcg;
use stitchd_core::experimentation::stats::bootstrap::{
    default_bootstrap_seed, resample_indices, Xorshift64,
};

#[test]
fn lcg_steps_match_the_recurrence() {
    let mut rng = Lcg::new(0);
    assert_eq!(rng.next_u64(), 1442695040888963407);
    let expected = 1442695040888963407u64
        .wrapping_mul(6364136223846793005)
        .wrapping_add(1442695040888963407);
    assert_eq!(rng.next_u64(), expected);
}

#[test]
fn lcg_mantissa_is_top_53_bits() {
    let mut a = Lcg::new(42);
    let mut b = Lcg::new(42);
    let full = a.next_u64();
    let m = b.next_mantissa();
    assert_eq!(m, full >> 11);
    assert!(m < (1u64 << 53));
    assert_eq!(a.next_u64(), b.next_u64());
}

#[test]
fn xorshift_is_deterministic_and_never_zero() {
    let mut a = Xorshift64::new(7);
    let mut b = Xorshift64::new(7);
    for _ in 0..1000 {
        let x = a.next_u64();
        assert_eq!(x, b.next_u64());
        assert_ne!(x, 0);
    }
}

#[test]
fn xorshift_step_matches_shifts() {
    // Seed 0 scrambles to a fixed non-zero state; check one step by hand.
    let mut s = 0u64.wrapping_add(0x9e3779b97f4a7c15);
    s = (s ^ (s >> 30)).wrapping_mul(0xbf58476d1ce4e5b9);
    s = (s ^ (s >> 27)).wrapping_mul(0x94d049bb133111eb);
    s ^= s >> 31;
    let mut x = s;
    x ^= x << 13;
    x ^= x >> 7;
    x ^= x << 17;
    let mut rng = Xorshift64::new(0);
    assert_eq!(rng.next_u64(), x);
}

#[test]
fn resample_indices_are_in_range_and_follow_the_stream() {
    let mut a = Xorshift64::new(99);
    let idx = resample_indices(&mut a, 17);
    assert_eq!(idx.len(), 17);
    let mut b = Xorshift64::new(99);
    for i in &idx {
        assert!(*i < 17);
        assert_eq!(*i, b.next_index(17));
    }
    assert_eq!(a.next_u64(), b.next_u64());
}

#[test]
fn default_seed_mixes_length() {
    assert_eq!(default_bootstrap_seed(0), 0xdeadbeef_cafebabe);
    assert_eq!(default_bootstrap_seed(3), 3 ^ 0xdeadbeef_cafebabe);
}
