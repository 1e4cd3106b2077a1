//! Basis-point apportionment with a minimum-exploration floor.
//!
//! Bandit allocators produce a raw weight per arm; the allocation converts
//! them into basis points that
//!
//! * sum to **exactly** `10_000`,
//! * give **every** arm at least `min_exploration_bp` (the exploration floor),
//! * keep the arms in input order.
//!
//! The method is largest-remainder (Hamilton) apportionment: reserve the
//! floor for every arm, give each arm the integer part of its proportional
//! share of the rest, then hand the leftover basis points out one at a time,
//! cycling through the arms in order of decreasing fractional remainder.
//! The proportional shares and their ranking come from the raw weights; the
//! integer bookkeeping that guarantees the totals is here.

use vstd::prelude::*;

verus! {

/// Total basis points of a distribution.
pub const TOTAL_BP: u32 = 10_000;

/// Error normalising raw bandit weights into a basis-point distribution.
#[derive(Debug, Clone, Copy, PartialEq, Eq, Structural)]
pub enum NormalizeError {
    /// No arms were supplied.
    NoArms,
    /// The exploration floor cannot be honoured for every arm:
    /// `min_exploration_bp · n` exceeds 10_000.
    FloorTooHigh {
        /// The requested per-arm floor.
        min_exploration_bp: u32,
        /// The number of arms.
        n: usize,
        /// The total bp the floor would require (`min_exploration_bp · n`).
        required: u64,
    },
}

/// One arm of a rollout: a variant key and its share in basis points.
#[derive(Debug, Clone, PartialEq, Eq)]
pub struct RolloutAllocation {
    /// The variant this share routes to.
    pub variant_key: String,
    /// The share, in basis points.
    pub percentage_bp: u32,
}

/// A rollout split across variants, in basis points.
#[derive(Debug, Clone, PartialEq, Eq)]
pub struct RolloutDistribution {
    /// The per-variant shares, in variant order.
    pub allocations: Vec<RolloutAllocation>,
}

/// Sum of a sequence of basis-point values.
pub open spec fn sum_bp(s: Seq<u32>) -> int
    decreases s.len(),
{
    if s.len() == 0 {
        0
    } else {
        sum_bp(s.drop_last()) + s.last()
    }
}

/// Whether `order` lists every index in `0..n` exactly once.
pub open spec fn is_permutation(order: Seq<usize>, n: nat) -> bool {
    &&& order.len() == n
    &&& forall|p: int| 0 <= p < n ==> (#[trigger] order[p]) < n
    &&& forall|p: int, q: int| 0 <= p < n && 0 <= q < n && p != q ==> order[p] != order[q]
}

/// The share of the arm ranked `p`-th in `order` when `leftover` basis
/// points are dealt out round-robin in that order on top of the integer
/// `base` shares and the `floor`.
pub open spec fn spec_share(base: Seq<u32>, order: Seq<usize>, floor: u32, leftover: int, p: int) -> int {
    floor + base[order[p] as int] + leftover / (order.len() as int) + if p < leftover % (
    order.len() as int) {
        1int
    } else {
        0int
    }
}

/// Dealing the leftover favours rank: an arm ranked earlier receives at
/// least as many leftover points as an arm ranked later, and at most one
/// more.
pub proof fn lemma_leftover_favours_rank(
    base: Seq<u32>,
    order: Seq<usize>,
    floor: u32,
    leftover: int,
    p: int,
    q: int,
)
    requires
        0 <= p < q < order.len(),
        forall|k: int| 0 <= k < order.len() ==> (#[trigger] order[k]) < base.len(),
    ensures
        0 <= (spec_share(base, order, floor, leftover, p) - base[order[p] as int]) - (spec_share(
            base,
            order,
            floor,
            leftover,
            q,
        ) - base[order[q] as int]) <= 1,
{
}

proof fn lemma_sum_update(s: Seq<u32>, i: int, v: u32)
    requires
        0 <= i < s.len(),
    ensures
        sum_bp(s.update(i, v)) == sum_bp(s) - s[i] + v,
    decreases s.len(),
{
    if i == s.len() - 1 {
        assert(s.update(i, v).drop_last() =~= s.drop_last());
    } else {
        lemma_sum_update(s.drop_last(), i, v);
        assert(s.update(i, v).drop_last() =~= s.drop_last().update(i, v));
    }
}

proof fn lemma_elem_le_sum(s: Seq<u32>, i: int)
    requires
        0 <= i < s.len(),
    ensures
        s[i] <= sum_bp(s),
        0 <= sum_bp(s),
    decreases s.len(),
{
    lemma_sum_nonneg(s.drop_last());
    if i < s.len() - 1 {
        lemma_elem_le_sum(s.drop_last(), i);
    }
}

proof fn lemma_sum_nonneg(s: Seq<u32>)
    ensures
        0 <= sum_bp(s),
    decreases s.len(),
{
    if s.len() > 0 {
        lemma_sum_nonneg(s.drop_last());
    }
}

proof fn lemma_sum_constant(s: Seq<u32>, c: u32)
    requires
        forall|i: int| 0 <= i < s.len() ==> s[i] == c,
    ensures
        sum_bp(s) == s.len() * c,
    decreases s.len(),
{
    if s.len() > 0 {
        lemma_sum_constant(s.drop_last(), c);
        assert(s.len() * c == (s.len() - 1) * c + c) by (nonlinear_arith);
    }
}

/// Check the arm count and the exploration floor, returning the basis points
/// left to distribute proportionally (`10_000 − min_exploration_bp · n`).
pub fn exploration_budget(n: usize, min_exploration_bp: u32) -> (r: Result<u32, NormalizeError>)
    requires
        min_exploration_bp as int * n as int <= u64::MAX,
    ensures
        n == 0 ==> r == Err::<u32, NormalizeError>(NormalizeError::NoArms),
        n > 0 && min_exploration_bp as int * n as int > TOTAL_BP ==> r == Err::<
            u32,
            NormalizeError,
        >(
            NormalizeError::FloorTooHigh {
                min_exploration_bp,
                n,
                required: (min_exploration_bp as int * n as int) as u64,
            },
        ),
        n > 0 && min_exploration_bp as int * n as int <= TOTAL_BP ==> r == Ok::<u32, NormalizeError>(
            (TOTAL_BP - min_exploration_bp as int * n as int) as u32,
        ),
{
    if n == 0 {
        return Err(NormalizeError::NoArms);
    }
    let required: u64 = min_exploration_bp as u64 * n as u64;
    if required > 10_000 {
        return Err(NormalizeError::FloorTooHigh { min_exploration_bp, n, required });
    }
    let reserved: u32 = required as u32;
    Ok(TOTAL_BP - reserved)
}

/// The proportional shares used when no arm has positive weight: every arm
/// gets `remaining / n`, and the leftover is dealt in input order.
pub fn even_shares(n: usize, remaining: u32) -> (r: (Vec<u32>, Vec<usize>))
    requires
        n > 0,
    ensures
        r.0@.len() == n,
        forall|i: int| 0 <= i < n ==> (#[trigger] r.0@[i]) == remaining as int / n as int,
        r.1@.len() == n,
        forall|i: int| 0 <= i < n ==> (#[trigger] r.1@[i]) == i,
        is_permutation(r.1@, n as nat),
        sum_bp(r.0@) <= remaining,
{
    let share: u32 = if n > remaining as usize {
        0
    } else {
        remaining / (n as u32)
    };
    assert(share == remaining as int / n as int) by (nonlinear_arith)
        requires
            n > 0,
            n > remaining ==> share == 0,
            n <= remaining ==> share == remaining as int / n as int,
    ;
    let mut bases: Vec<u32> = Vec::new();
    let mut order: Vec<usize> = Vec::new();
    let mut i: usize = 0;
    while i < n
        invariant
            0 <= i <= n,
            bases@.len() == i,
            order@.len() == i,
            forall|j: int| 0 <= j < i ==> (#[trigger] bases@[j]) == share,
            forall|j: int| 0 <= j < i ==> (#[trigger] order@[j]) == j,
        decreases n - i,
    {
        bases.push(share);
        order.push(i);
        i = i + 1;
    }
    proof {
        lemma_sum_constant(bases@, share);
        assert(n * share <= remaining) by (nonlinear_arith)
            requires
                n > 0,
                share == remaining as int / n as int,
        ;
    }
    (bases, order)
}

/// Deal the leftover basis points and add the floor.
///
/// `base[i]` is arm `i`'s integer proportional share and `order` ranks the
/// arms by decreasing fractional remainder. The `remaining − Σ base`
/// leftover points are handed out one at a time to `order[0]`, `order[1]`,
/// …, cycling, and every arm then receives the `floor`. The result keeps
/// arm order, sums to exactly `10_000` and gives every arm at least `floor`.
#[verifier::spinoff_prover]
pub fn apportion(base: &Vec<u32>, order: &Vec<usize>, floor: u32, remaining: u32) -> (bp: Vec<u32>)
    requires
        base@.len() > 0,
        is_permutation(order@, base@.len()),
        sum_bp(base@) <= remaining,
        floor as int * base@.len() + remaining == TOTAL_BP,
    ensures
        bp@.len() == base@.len(),
        sum_bp(bp@) == TOTAL_BP,
        forall|i: int| 0 <= i < bp@.len() ==> (#[trigger] bp@[i]) >= floor,
        forall|p: int|
            0 <= p < base@.len() ==> (#[trigger] bp@[order@[p] as int]) == spec_share(
                base@,
                order@,
                floor,
                remaining - sum_bp(base@),
                p,
            ),
{
    let n = base.len();
    let ghost nn = n as int;
    let mut bp: Vec<u32> = Vec::new();
    let mut assigned: u32 = 0;
    let mut i: usize = 0;
    while i < n
        invariant
            n == base@.len(),
            0 <= i <= n,
            bp@ == base@.subrange(0, i as int),
            assigned == sum_bp(bp@),
            sum_bp(base@) <= remaining,
        decreases n - i,
    {
        proof {
            assert(base@.subrange(0, i + 1).drop_last() =~= base@.subrange(0, i as int));
            lemma_prefix_sum_le(base@, i + 1);
        }
        assigned = assigned + base[i];
        bp.push(base[i]);
        assert(bp@ =~= base@.subrange(0, i + 1));
        i = i + 1;
    }
    assert(bp@ =~= base@);
    let ghost leftover0: int = remaining - assigned;
    let mut leftover: u32 = remaining - assigned;
    let mut pos: usize = 0;
    let ghost mut rounds: int = 0;
    let ghost mut given: int = 0;
    while leftover > 0
        invariant
            n == base@.len(),
            nn == n,
            n > 0,
            is_permutation(order@, base@.len()),
            bp@.len() == n,
            0 <= pos < n,
            rounds >= 0,
            given == rounds * nn + pos,
            given + leftover == leftover0,
            leftover0 == remaining - sum_bp(base@),
            sum_bp(bp@) == sum_bp(base@) + given,
            sum_bp(base@) <= remaining,
            remaining <= TOTAL_BP,
            forall|p: int|
                0 <= p < n ==> (#[trigger] bp@[order@[p] as int]) == base@[order@[p] as int]
                    + rounds + if p < pos {
                    1int
                } else {
                    0int
                },
        decreases leftover,
    {
        let target = order[pos];
        proof {
            lemma_elem_le_sum(bp@, target as int);
        }
        let ghost before = bp@;
        let v = bp[target] + 1;
        bp.set(target, v);
        proof {
            lemma_sum_update(before, target as int, v);
            assert forall|p: int| 0 <= p < n && p != pos implies order@[p] != order@[pos as int] by {}
        }
        leftover = leftover - 1;
        proof {
            given = given + 1;
        }
        if pos + 1 == n {
            pos = 0;
            proof {
                rounds = rounds + 1;
                assert(rounds * nn == (rounds - 1) * nn + nn) by (nonlinear_arith);
            }
        } else {
            pos = pos + 1;
        }
    }
    proof {
        vstd::arithmetic::div_mod::lemma_fundamental_div_mod_converse(leftover0, nn, rounds, pos as int);
    }
    let ghost dealt = bp@;
    assert(sum_bp(dealt) == remaining);
    assert(sum_bp(dealt) + n * floor == TOTAL_BP) by (nonlinear_arith)
        requires
            sum_bp(dealt) == remaining,
            floor as int * n + remaining == TOTAL_BP,
    ;
    let mut j: usize = 0;
    while j < n
        invariant
            n == base@.len(),
            bp@.len() == n,
            n > 0,
            dealt.len() == n,
            0 <= j <= n,
            forall|k: int| 0 <= k < j ==> (#[trigger] bp@[k]) == dealt[k] + floor,
            forall|k: int| j <= k < n ==> (#[trigger] bp@[k]) == dealt[k],
            sum_bp(bp@) == sum_bp(dealt) + j * floor,
            sum_bp(dealt) + n * floor == TOTAL_BP,
        decreases n - j,
    {
        let ghost before = bp@;
        proof {
            lemma_elem_le_sum(dealt, j as int);
            lemma_elem_le_sum(before, j as int);
            assert(j * floor <= n * floor) by (nonlinear_arith)
                requires
                    j <= n,
            ;
            assert(floor <= n * floor) by (nonlinear_arith)
                requires
                    n >= 1,
            ;
        }
        let v = bp[j] + floor;
        bp.set(j, v);
        proof {
            lemma_sum_update(before, j as int, v);
            assert((j + 1) * floor == j * floor + floor) by (nonlinear_arith);
        }
        j = j + 1;
    }
    proof {
        assert forall|i: int| 0 <= i < n implies (#[trigger] bp@[i]) >= floor by {}
    }
    bp
}

proof fn lemma_prefix_sum_le(s: Seq<u32>, k: int)
    requires
        0 <= k <= s.len(),
    ensures
        sum_bp(s.subrange(0, k)) <= sum_bp(s),
    decreases s.len(),
{
    if k < s.len() {
        lemma_prefix_sum_le(s.drop_last(), k);
        assert(s.drop_last().subrange(0, k) =~= s.subrange(0, k));
    } else {
        assert(s.subrange(0, k) =~= s);
    }
}

/// The basis-point shares of a distribution, in variant order.
pub open spec fn distribution_bps(d: RolloutDistribution) -> Seq<u32> {
    d.allocations@.map_values(|a: RolloutAllocation| a.percentage_bp)
}

/// Pair each variant key with its share, keeping input order.
pub fn assemble_distribution(keys: &[String], bp: Vec<u32>) -> (d: RolloutDistribution)
    requires
        keys@.len() == bp@.len(),
    ensures
        d.allocations@.len() == keys@.len(),
        forall|i: int|
            0 <= i < keys@.len() ==> (#[trigger] d.allocations@[i]).variant_key@ == keys@[i]@
                && d.allocations@[i].percentage_bp == bp@[i],
        distribution_bps(d) == bp@,
{
    let mut allocations: Vec<RolloutAllocation> = Vec::new();
    let mut i: usize = 0;
    while i < keys.len()
        invariant
            keys@.len() == bp@.len(),
            0 <= i <= keys@.len(),
            allocations@.len() == i,
            forall|k: int|
                0 <= k < i ==> (#[trigger] allocations@[k]).variant_key@ == keys@[k]@
                    && allocations@[k].percentage_bp == bp@[k],
        decreases keys@.len() - i,
    {
        allocations.push(
            RolloutAllocation { variant_key: keys[i].clone(), percentage_bp: bp[i] },
        );
        i = i + 1;
    }
    let d = RolloutDistribution { allocations };
    assert(distribution_bps(d) =~= bp@);
    d
}


/// Turn per-arm proportional shares into the rollout: every arm keeps its
/// `floor`, the arms' integer `base` shares are added, and the basis points
/// still left over are dealt one at a time in `order` (the arms by
/// decreasing fractional remainder, ties in input order).
///
/// The distribution lists the arms in input order under their own keys,
/// gives every arm at least `floor`, and sums to exactly `10_000`.
pub fn distribute(keys: &[String], base: &Vec<u32>, order: &Vec<usize>, floor: u32) -> (d:
    RolloutDistribution)
    requires
        keys@.len() == base@.len(),
        base@.len() > 0,
        is_permutation(order@, base@.len()),
        floor as int * base@.len() + sum_bp(base@) <= TOTAL_BP,
    ensures
        d.allocations@.len() == keys@.len(),
        forall|i: int|
            0 <= i < keys@.len() ==> (#[trigger] d.allocations@[i]).variant_key@ == keys@[i]@
                && d.allocations@[i].percentage_bp >= floor,
        sum_bp(distribution_bps(d)) == TOTAL_BP,
        forall|p: int|
            0 <= p < base@.len() ==> (#[trigger] distribution_bps(d)[order@[p] as int])
                == spec_share(
                base@,
                order@,
                floor,
                TOTAL_BP - floor as int * base@.len() - sum_bp(base@),
                p,
            ),
{
    proof {
        lemma_sum_nonneg(base@);
    }
    let reserved: u32 = (floor as u64 * base.len() as u64) as u32;
    let remaining: u32 = TOTAL_BP - reserved;
    let bp = apportion(base, order, floor, remaining);
    let d = assemble_distribution(keys, bp);
    d
}

} // verus!
