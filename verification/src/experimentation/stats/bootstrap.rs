//! Deterministic resampling stream for bootstrap confidence intervals.

use vstd::prelude::*;

verus! {

/// The splitmix64 scramble used to seed the generator; a zero result is
/// replaced by 1 because xorshift never leaves the all-zero state.
pub open spec fn xorshift_seed(seed: u64) -> u64 {
    let s0 = vstd::wrapping::u64_specs::wrapping_add(seed, 0x9e3779b97f4a7c15u64);
    let s1 = vstd::wrapping::u64_specs::wrapping_mul(s0 ^ (s0 >> 30u64), 0xbf58476d1ce4e5b9u64);
    let s2 = vstd::wrapping::u64_specs::wrapping_mul(s1 ^ (s1 >> 27u64), 0x94d049bb133111ebu64);
    let s3 = s2 ^ (s2 >> 31u64);
    if s3 == 0 {
        1
    } else {
        s3
    }
}

/// One xorshift64 step (shifts 13, 7, 17).
pub open spec fn xorshift_step(x: u64) -> u64 {
    let a = x ^ (x << 13u64);
    let b = a ^ (a >> 7u64);
    b ^ (b << 17u64)
}

/// The state after `k` steps from `x`.
pub open spec fn xorshift_iterate(x: u64, k: nat) -> u64
    decreases k,
{
    if k == 0 {
        x
    } else {
        xorshift_step(xorshift_iterate(x, (k - 1) as nat))
    }
}

/// Minimal xorshift64 generator (period 2⁶⁴ − 1) for bootstrap resampling.
pub struct Xorshift64 {
    state: u64,
}

impl Xorshift64 {
    /// The current state of the generator.
    pub closed spec fn state(&self) -> u64 {
        self.state
    }

    /// Seed the generator through one splitmix64 step, so that the state is
    /// never zero.
    pub fn new(seed: u64) -> (r: Self)
        ensures
            r.state() == xorshift_seed(seed),
            r.state() != 0,
    {
        let mut s = seed.wrapping_add(0x9e3779b97f4a7c15);
        s = (s ^ (s >> 30)).wrapping_mul(0xbf58476d1ce4e5b9);
        s = (s ^ (s >> 27)).wrapping_mul(0x94d049bb133111eb);
        s = s ^ (s >> 31);
        Xorshift64 { state: if s == 0 { 1 } else { s } }
    }

    /// Returns the next value of the stream.
    pub fn next_u64(&mut self) -> (r: u64)
        ensures
            r == xorshift_step(old(self).state()),
            final(self).state() == r,
    {
        let mut x = self.state;
        x ^= x << 13;
        x ^= x >> 7;
        x ^= x << 17;
        self.state = x;
        x
    }

    /// Returns a random index in `[0, n)`.
    pub fn next_index(&mut self, n: usize) -> (r: usize)
        requires
            n > 0,
        ensures
            final(self).state() == xorshift_step(old(self).state()),
            r == (xorshift_step(old(self).state()) as usize) % n,
            r < n,
    {
        (self.next_u64() as usize) % n
    }
}

/// The seed used for a bootstrap run without an explicit seed: derived from
/// the sample length.
pub fn default_bootstrap_seed(n: usize) -> (r: u64)
    ensures
        r == (n as u64) ^ 0xdeadbeef_cafebabeu64,
{
    (n as u64) ^ 0xdeadbeef_cafebabe
}

/// One bootstrap resample: `n` indices drawn with replacement from `[0, n)`,
/// each the next value of the stream reduced modulo `n`.
pub fn resample_indices(rng: &mut Xorshift64, n: usize) -> (r: Vec<usize>)
    requires
        n > 0,
    ensures
        r@.len() == n,
        forall|j: int| 0 <= j < n ==> (#[trigger] r@[j]) < n,
        forall|j: int|
            0 <= j < n ==> (#[trigger] r@[j]) == (xorshift_iterate(
                old(rng).state(),
                (j + 1) as nat,
            ) as usize) % n,
        final(rng).state() == xorshift_iterate(old(rng).state(), n as nat),
{
    let ghost start = rng.state();
    let mut out: Vec<usize> = Vec::new();
    let mut j: usize = 0;
    while j < n
        invariant
            0 <= j <= n,
            out@.len() == j,
            rng.state() == xorshift_iterate(start, j as nat),
            forall|i: int| 0 <= i < j ==> (#[trigger] out@[i]) < n,
            forall|i: int|
                0 <= i < j ==> (#[trigger] out@[i]) == (xorshift_iterate(start, (i + 1) as nat)
                    as usize) % n,
        decreases n - j,
    {
        let idx = rng.next_index(n);
        out.push(idx);
        j = j + 1;
    }
    out
}

proof fn lemma_xorshift_step_nonzero(x: u64)
    requires
        x != 0,
    ensures
        xorshift_step(x) != 0,
{
    assert(x != 0 ==> (x ^ (x << 13u64)) != 0) by (bit_vector);
    let a = x ^ (x << 13u64);
    assert(a != 0 ==> (a ^ (a >> 7u64)) != 0) by (bit_vector);
    let b = a ^ (a >> 7u64);
    assert(b != 0 ==> (b ^ (b << 17u64)) != 0) by (bit_vector);
}

/// A seeded generator never reaches the all-zero state, from which xorshift
/// could not escape: every state of the stream is non-zero.
pub proof fn lemma_stream_never_zero(seed: u64, k: nat)
    ensures
        xorshift_iterate(xorshift_seed(seed), k) != 0,
    decreases k,
{
    if k > 0 {
        lemma_stream_never_zero(seed, (k - 1) as nat);
        lemma_xorshift_step_nonzero(xorshift_iterate(xorshift_seed(seed), (k - 1) as nat));
    }
}

} // verus!
