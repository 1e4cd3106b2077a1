//! Integer side of the log-linear decomposition of a binary k-factor grid:
//! level counts, collapses onto one or two factors, and the observed table
//! of the three-way term.

use vstd::prelude::*;

use super::bayes_common::{lemma_level_count_bounds, spec_level_count};
use super::{
    grid_cols, grid_rows, grid_tally, saturate, tabulates, total_trials, BinaryCell, BinaryGrid,
    NdBinaryCell, MIN_TOTAL_TRIALS,
};

verus! {

/// The level tuples of a grid's cells.
pub open spec fn cell_levels(cells: Seq<NdBinaryCell>) -> Seq<Seq<usize>> {
    cells.map_values(|c: NdBinaryCell| c.levels@)
}

/// Largest level index present on factor `f`, plus one (the dense level
/// count), or 0 when no cell carries that factor.
#[verifier::spinoff_prover]
pub fn levels_on(cells: &[NdBinaryCell], f: usize) -> (r: usize)
    requires
        forall|t: int, d: int|
            0 <= t < cells@.len() && 0 <= d < cells@[t].levels@.len() ==> #[trigger] cells@[t].levels@[d]
                < usize::MAX,
    ensures
        r == spec_level_count(cell_levels(cells@), f as int),
{
    let ghost tuples = cell_levels(cells@);
    let mut best: usize = 0;
    let mut t: usize = 0;
    while t < cells.len()
        invariant
            tuples == cell_levels(cells@),
            0 <= t <= cells@.len(),
            best == spec_level_count(tuples.subrange(0, t as int), f as int),
            forall|u: int, d: int|
                0 <= u < cells@.len() && 0 <= d < cells@[u].levels@.len() ==> #[trigger] cells@[u].levels@[d]
                    < usize::MAX,
        decreases cells@.len() - t,
    {
        assert(tuples.subrange(0, t + 1).drop_last() =~= tuples.subrange(0, t as int));
        assert(tuples.subrange(0, t + 1).last() == cells@[t as int].levels@);
        let levels = &cells[t].levels;
        if f < levels.len() {
            let v = levels[f];
            if v + 1 > best {
                best = v + 1;
            }
        }
        t = t + 1;
    }
    assert(tuples.subrange(0, cells@.len() as int) =~= tuples);
    best
}

/// Total trials (or successes, when `successes` is set) of the cells whose
/// level on factor `f` is `l`.
pub open spec fn tally(cells: Seq<NdBinaryCell>, f: int, l: int, successes: bool) -> int
    decreases cells.len(),
{
    if cells.len() == 0 {
        0
    } else {
        let c = cells.last();
        tally(cells.drop_last(), f, l, successes) + if c.levels@[f] == l {
            if successes {
                c.successes as int
            } else {
                c.n as int
            }
        } else {
            0int
        }
    }
}

/// Total trials (or successes) of the cells whose levels on factors `a` and
/// `b` are `x` and `y`.
pub open spec fn tally_pair(
    cells: Seq<NdBinaryCell>,
    a: int,
    b: int,
    x: int,
    y: int,
    successes: bool,
) -> int
    decreases cells.len(),
{
    if cells.len() == 0 {
        0
    } else {
        let c = cells.last();
        tally_pair(cells.drop_last(), a, b, x, y, successes) + if c.levels@[a] == x
            && c.levels@[b] == y {
            if successes {
                c.successes as int
            } else {
                c.n as int
            }
        } else {
            0int
        }
    }
}

proof fn lemma_tally_nonneg(cells: Seq<NdBinaryCell>, f: int, l: int, successes: bool)
    ensures
        tally(cells, f, l, successes) >= 0,
    decreases cells.len(),
{
    if cells.len() > 0 {
        lemma_tally_nonneg(cells.drop_last(), f, l, successes);
    }
}

proof fn lemma_tally_pair_nonneg(
    cells: Seq<NdBinaryCell>,
    a: int,
    b: int,
    x: int,
    y: int,
    successes: bool,
)
    ensures
        tally_pair(cells, a, b, x, y, successes) >= 0,
    decreases cells.len(),
{
    if cells.len() > 0 {
        lemma_tally_pair_nonneg(cells.drop_last(), a, b, x, y, successes);
    }
}

/// A cell's count: its successes when `successes` is set, else its trials.
pub open spec fn cell_count(c: NdBinaryCell, successes: bool) -> int {
    if successes {
        c.successes as int
    } else {
        c.n as int
    }
}

/// Total trials (or successes) over every cell of a grid.
pub open spec fn grid_count(cells: Seq<NdBinaryCell>, successes: bool) -> int
    decreases cells.len(),
{
    if cells.len() == 0 {
        0
    } else {
        grid_count(cells.drop_last(), successes) + cell_count(cells.last(), successes)
    }
}

/// Sum of the per-level totals on factor `f` over levels `0 .. levels`.
pub open spec fn level_total(cells: Seq<NdBinaryCell>, f: int, levels: nat, successes: bool) -> int
    decreases levels,
{
    if levels == 0 {
        0
    } else {
        level_total(cells, f, (levels - 1) as nat, successes) + tally(
            cells,
            f,
            levels - 1,
            successes,
        )
    }
}

proof fn lemma_level_total_empty(cells: Seq<NdBinaryCell>, f: int, levels: nat, successes: bool)
    requires
        cells.len() == 0,
    ensures
        level_total(cells, f, levels, successes) == 0,
    decreases levels,
{
    if levels > 0 {
        lemma_level_total_empty(cells, f, (levels - 1) as nat, successes);
    }
}

proof fn lemma_level_total_step(cells: Seq<NdBinaryCell>, f: int, levels: nat, successes: bool)
    requires
        cells.len() > 0,
    ensures
        level_total(cells, f, levels, successes) == level_total(
            cells.drop_last(),
            f,
            levels,
            successes,
        ) + if 0 <= cells.last().levels@[f] < levels {
            cell_count(cells.last(), successes)
        } else {
            0
        },
    decreases levels,
{
    if levels > 0 {
        lemma_level_total_step(cells, f, (levels - 1) as nat, successes);
    }
}

/// Collapsing onto a factor loses nothing: when every cell sits below
/// `levels` on factor `f`, the per-level totals add up to the grid's total.
pub proof fn lemma_collapse_conserves_counts(
    cells: Seq<NdBinaryCell>,
    f: int,
    levels: nat,
    successes: bool,
)
    requires
        0 <= f,
        forall|t: int|
            0 <= t < cells.len() ==> f < (#[trigger] cells[t]).levels@.len() && cells[t].levels@[f]
                < levels,
    ensures
        level_total(cells, f, levels, successes) == grid_count(cells, successes),
    decreases cells.len(),
{
    if cells.len() == 0 {
        lemma_level_total_empty(cells, f, levels, successes);
    } else {
        let init = cells.drop_last();
        assert forall|t: int| 0 <= t < init.len() implies f < (#[trigger] init[t]).levels@.len()
            && init[t].levels@[f] < levels by {
            assert(init[t] == cells[t]);
        }
        lemma_collapse_conserves_counts(init, f, levels, successes);
        lemma_level_total_step(cells, f, levels, successes);
        assert(cells.last() == cells[cells.len() - 1]);
    }
}

/// Sum of the totals of the first `k` cells, in row-major order, of the
/// dense `(a, b)` grid with `lb` levels on `b`.
pub open spec fn pair_total(
    cells: Seq<NdBinaryCell>,
    a: int,
    b: int,
    lb: int,
    k: nat,
    successes: bool,
) -> int
    decreases k,
{
    if k == 0 {
        0
    } else {
        pair_total(cells, a, b, lb, (k - 1) as nat, successes) + tally_pair(
            cells,
            a,
            b,
            (k - 1) / lb,
            (k - 1) % lb,
            successes,
        )
    }
}

proof fn lemma_pair_total_empty(cells: Seq<NdBinaryCell>, a: int, b: int, lb: int, k: nat, successes: bool)
    requires
        cells.len() == 0,
    ensures
        pair_total(cells, a, b, lb, k, successes) == 0,
    decreases k,
{
    if k > 0 {
        lemma_pair_total_empty(cells, a, b, lb, (k - 1) as nat, successes);
    }
}

proof fn lemma_pair_total_step(cells: Seq<NdBinaryCell>, a: int, b: int, lb: int, k: nat, successes: bool)
    requires
        cells.len() > 0,
        lb > 0,
        0 <= cells.last().levels@[a],
        0 <= cells.last().levels@[b] < lb,
    ensures
        pair_total(cells, a, b, lb, k, successes) == pair_total(
            cells.drop_last(),
            a,
            b,
            lb,
            k,
            successes,
        ) + if cells.last().levels@[a] * lb + cells.last().levels@[b] < k {
            cell_count(cells.last(), successes)
        } else {
            0
        },
    decreases k,
{
    if k > 0 {
        lemma_pair_total_step(cells, a, b, lb, (k - 1) as nat, successes);
        let x = cells.last().levels@[a] as int;
        let y = cells.last().levels@[b] as int;
        let j = k - 1;
        vstd::arithmetic::div_mod::lemma_fundamental_div_mod(j, lb);
        if j / lb == x && j % lb == y {
            assert(j == x * lb + y) by (nonlinear_arith)
                requires
                    j == lb * (j / lb) + j % lb,
                    j / lb == x,
                    j % lb == y,
            ;
        }
        if j == x * lb + y {
            vstd::arithmetic::div_mod::lemma_fundamental_div_mod_converse(j, lb, x, y);
        }
    }
}

/// Collapsing onto a pair of factors loses nothing: when every cell sits
/// below `la` on factor `a` and below `lb` on factor `b`, the totals of the
/// `la × lb` cells of the collapsed grid add up to the grid's total.
pub proof fn lemma_pair_collapse_conserves_counts(
    cells: Seq<NdBinaryCell>,
    a: int,
    b: int,
    la: nat,
    lb: nat,
    successes: bool,
)
    requires
        0 <= a,
        0 <= b,
        forall|t: int|
            0 <= t < cells.len() ==> a < (#[trigger] cells[t]).levels@.len() && b
                < cells[t].levels@.len() && cells[t].levels@[a] < la && cells[t].levels@[b] < lb,
    ensures
        pair_total(cells, a, b, lb as int, la * lb, successes) == grid_count(cells, successes),
    decreases cells.len(),
{
    if cells.len() == 0 {
        lemma_pair_total_empty(cells, a, b, lb as int, la * lb, successes);
    } else {
        let init = cells.drop_last();
        assert forall|t: int| 0 <= t < init.len() implies a < (#[trigger] init[t]).levels@.len()
            && b < init[t].levels@.len() && init[t].levels@[a] < la && init[t].levels@[b] < lb by {
            assert(init[t] == cells[t]);
        }
        lemma_pair_collapse_conserves_counts(init, a, b, la, lb, successes);
        let last = cells[cells.len() - 1];
        assert(cells.last() == last);
        let x = last.levels@[a] as int;
        let y = last.levels@[b] as int;
        assert(x * lb + y < la * lb) by (nonlinear_arith)
            requires
                0 <= x < la,
                0 <= y < lb,
        ;
        lemma_pair_total_step(cells, a, b, lb as int, la * lb, successes);
    }
}

/// Collapse a k-factor grid onto factor `i`: for each level `l` of that
/// factor, the trials and successes summed (saturating) over every cell at
/// level `l`, whatever its levels on the other factors.
#[verifier::spinoff_prover]
pub fn collapse_onto_factor(cells: &[NdBinaryCell], i: usize) -> (r: (Vec<u64>, Vec<u64>))
    requires
        forall|t: int| 0 <= t < cells@.len() ==> i < (#[trigger] cells@[t]).levels@.len(),
        forall|t: int, d: int|
            0 <= t < cells@.len() && 0 <= d < cells@[t].levels@.len() ==> #[trigger] cells@[t].levels@[d]
                < usize::MAX,
    ensures
        r.0@.len() == spec_level_count(cell_levels(cells@), i as int),
        r.1@.len() == r.0@.len(),
        forall|l: int|
            0 <= l < r.0@.len() ==> #[trigger] r.0@[l] == saturate(tally(cells@, i as int, l, false))
                && r.1@[l] == saturate(tally(cells@, i as int, l, true)),
{
    let levels = levels_on(cells, i);
    proof {
        lemma_level_count_bounds(cell_levels(cells@), i as int);
        assert forall|u: int| 0 <= u < cells@.len() implies (#[trigger] cells@[u]).levels@[i as int]
            < levels by {
            assert(cell_levels(cells@)[u] == cells@[u].levels@);
        }
    }
    let mut n: Vec<u64> = vec![0u64; levels];
    let mut s: Vec<u64> = vec![0u64; levels];
    let mut t: usize = 0;
    while t < cells.len()
        invariant
            0 <= t <= cells@.len(),
            n@.len() == levels,
            s@.len() == levels,
            levels == spec_level_count(cell_levels(cells@), i as int),
            forall|u: int| 0 <= u < cells@.len() ==> i < (#[trigger] cells@[u]).levels@.len(),
            forall|u: int|
                0 <= u < cells@.len() ==> (#[trigger] cells@[u]).levels@[i as int] < levels,
            forall|l: int|
                0 <= l < levels ==> #[trigger] n@[l] == saturate(
                    tally(cells@.subrange(0, t as int), i as int, l, false),
                ) && s@[l] == saturate(tally(cells@.subrange(0, t as int), i as int, l, true)),
        decreases cells@.len() - t,
    {
        let c = &cells[t];
        let l = c.levels[i];
        assert(cell_levels(cells@)[t as int] == c.levels@);
        let ghost pre = cells@.subrange(0, t as int);
        let ghost post = cells@.subrange(0, t + 1);
        assert(post.drop_last() =~= pre);
        assert(post.last() == *c);
        proof {
            lemma_tally_nonneg(pre, i as int, l as int, false);
            lemma_tally_nonneg(pre, i as int, l as int, true);
        }
        let nv = n[l].saturating_add(c.n);
        let sv = s[l].saturating_add(c.successes);
        let ghost n0 = n@;
        let ghost s0 = s@;
        n.set(l, nv);
        s.set(l, sv);
        proof {
            assert forall|m: int| 0 <= m < levels implies #[trigger] n@[m] == saturate(
                tally(post, i as int, m, false),
            ) && s@[m] == saturate(tally(post, i as int, m, true)) by {
                lemma_tally_nonneg(pre, i as int, m, false);
                lemma_tally_nonneg(pre, i as int, m, true);
                assert(n0[m] == saturate(tally(pre, i as int, m, false)));
                assert(s0[m] == saturate(tally(pre, i as int, m, true)));
                if m == l {
                    assert(tally(post, i as int, m, false) == tally(pre, i as int, m, false) + c.n);
                    assert(tally(post, i as int, m, true) == tally(pre, i as int, m, true)
                        + c.successes);
                } else {
                    assert(tally(post, i as int, m, false) == tally(pre, i as int, m, false));
                    assert(tally(post, i as int, m, true) == tally(pre, i as int, m, true));
                }
            }
        }
        t = t + 1;
    }
    assert(cells@.subrange(0, cells@.len() as int) =~= cells@);
    (n, s)
}

/// Appending a cell at levels `(x, y)` on `(a, b)` adds its count to the
/// tally at row-major position `x·lb + y`, and nothing elsewhere.
proof fn lemma_tally_pair_append(
    pre: Seq<NdBinaryCell>,
    post: Seq<NdBinaryCell>,
    a: int,
    b: int,
    lb: int,
    k: int,
    successes: bool,
)
    requires
        post.len() == pre.len() + 1,
        post.drop_last() == pre,
        lb > 0,
        0 <= k,
        0 <= post.last().levels@[a],
        0 <= post.last().levels@[b] < lb,
    ensures
        tally_pair(post, a, b, k / lb, k % lb, successes) == tally_pair(
            pre,
            a,
            b,
            k / lb,
            k % lb,
            successes,
        ) + if k == post.last().levels@[a] * lb + post.last().levels@[b] {
            cell_count(post.last(), successes)
        } else {
            0
        },
        tally_pair(pre, a, b, k / lb, k % lb, successes) >= 0,
{
    lemma_tally_pair_nonneg(pre, a, b, k / lb, k % lb, successes);
    let x = post.last().levels@[a] as int;
    let y = post.last().levels@[b] as int;
    vstd::arithmetic::div_mod::lemma_fundamental_div_mod(k, lb);
    if k / lb == x && k % lb == y {
        assert(k == x * lb + y) by (nonlinear_arith)
            requires
                k == lb * (k / lb) + k % lb,
                k / lb == x,
                k % lb == y,
        ;
    }
    if k == x * lb + y {
        vstd::arithmetic::div_mod::lemma_fundamental_div_mod_converse(k, lb, x, y);
    }
}

/// Cell `k` of the dense `(a, b)` grid in row-major order (`lb` levels on
/// `b`): level pair `(k / lb, k % lb)` with the saturated totals of the cells
/// there.
pub open spec fn collapsed_cell(cells: Seq<NdBinaryCell>, a: int, b: int, lb: int, k: int) -> BinaryCell {
    BinaryCell {
        a_level: (k / lb) as usize,
        b_level: (k % lb) as usize,
        n: saturate(tally_pair(cells, a, b, k / lb, k % lb, false)),
        successes: saturate(tally_pair(cells, a, b, k / lb, k % lb, true)),
    }
}

/// The collapse of a grid onto the dense `(a, b)` grid.
pub open spec fn collapsed_pair(cells: Seq<NdBinaryCell>, a: int, b: int) -> Seq<BinaryCell> {
    let la = spec_level_count(cell_levels(cells), a);
    let lb = spec_level_count(cell_levels(cells), b);
    Seq::new((la * lb) as nat, |k: int| collapsed_cell(cells, a, b, lb, k))
}

/// Collapse a k-factor grid onto the dense `(a, b)` grid: one
/// [`BinaryCell`] per level pair, in row-major order (`a` level outer),
/// carrying the trials and successes summed (saturating) over every cell at
/// those levels. Repeated or missing cells fold together; absent pairs get
/// zero counts.
#[verifier::rlimit(40)]
#[verifier::spinoff_prover]
pub fn collapse_onto_pair(cells: &[NdBinaryCell], a: usize, b: usize) -> (r: Vec<BinaryCell>)
    requires
        forall|t: int|
            0 <= t < cells@.len() ==> a < (#[trigger] cells@[t]).levels@.len() && b
                < cells@[t].levels@.len(),
        forall|t: int, d: int|
            0 <= t < cells@.len() && 0 <= d < cells@[t].levels@.len() ==> #[trigger] cells@[t].levels@[d]
                < usize::MAX,
        spec_level_count(cell_levels(cells@), a as int) * spec_level_count(
            cell_levels(cells@),
            b as int,
        ) <= usize::MAX,
    ensures
        ({
            let la = spec_level_count(cell_levels(cells@), a as int);
            let lb = spec_level_count(cell_levels(cells@), b as int);
            &&& r@.len() == la * lb
            &&& forall|k: int|
                0 <= k < r@.len() ==> (#[trigger] r@[k]).a_level == k / lb && r@[k].b_level == k
                    % lb && r@[k].n == saturate(
                    tally_pair(cells@, a as int, b as int, k / lb, k % lb, false),
                ) && r@[k].successes == saturate(
                    tally_pair(cells@, a as int, b as int, k / lb, k % lb, true),
                )
        }),
        r@ == collapsed_pair(cells@, a as int, b as int),
{
    let la = levels_on(cells, a);
    let lb = levels_on(cells, b);
    proof {
        lemma_level_count_bounds(cell_levels(cells@), a as int);
        lemma_level_count_bounds(cell_levels(cells@), b as int);
        assert forall|u: int| 0 <= u < cells@.len() implies (#[trigger] cells@[u]).levels@[a as int]
            < la && cells@[u].levels@[b as int] < lb by {
            assert(cell_levels(cells@)[u] == cells@[u].levels@);
        }
    }
    let size: usize = la * lb;
    let mut n: Vec<u64> = vec![0u64; size];
    let mut s: Vec<u64> = vec![0u64; size];
    let mut t: usize = 0;
    while t < cells.len()
        invariant
            0 <= t <= cells@.len(),
            size == la * lb,
            n@.len() == size,
            s@.len() == size,
            forall|u: int|
                0 <= u < cells@.len() ==> a < (#[trigger] cells@[u]).levels@.len() && b
                    < cells@[u].levels@.len(),
            forall|u: int|
                0 <= u < cells@.len() ==> (#[trigger] cells@[u]).levels@[a as int] < la
                    && cells@[u].levels@[b as int] < lb,
            forall|k: int|
                0 <= k < size ==> #[trigger] n@[k] == saturate(
                    tally_pair(cells@.subrange(0, t as int), a as int, b as int, k / lb as int, k % lb as int, false),
                ) && s@[k] == saturate(
                    tally_pair(cells@.subrange(0, t as int), a as int, b as int, k / lb as int, k % lb as int, true),
                ),
        decreases cells@.len() - t,
    {
        let c = &cells[t];
        let ai = c.levels[a];
        let bi = c.levels[b];
        assert(ai * lb + bi < la * lb) by (nonlinear_arith)
            requires
                ai < la,
                bi < lb,
        ;
        let idx = ai * lb + bi;
        let ghost pre = cells@.subrange(0, t as int);
        let ghost post = cells@.subrange(0, t + 1);
        assert(post.drop_last() =~= pre);
        assert(post.last() == *c);
        proof {
            vstd::arithmetic::div_mod::lemma_fundamental_div_mod_converse(
                idx as int,
                lb as int,
                ai as int,
                bi as int,
            );
            lemma_tally_pair_nonneg(pre, a as int, b as int, ai as int, bi as int, false);
            lemma_tally_pair_nonneg(pre, a as int, b as int, ai as int, bi as int, true);
        }
        let nv = n[idx].saturating_add(c.n);
        let sv = s[idx].saturating_add(c.successes);
        let ghost n0 = n@;
        let ghost s0 = s@;
        n.set(idx, nv);
        s.set(idx, sv);
        proof {
            assert forall|k: int| 0 <= k < size implies #[trigger] n@[k] == saturate(
                tally_pair(post, a as int, b as int, k / lb as int, k % lb as int, false),
            ) && s@[k] == saturate(
                tally_pair(post, a as int, b as int, k / lb as int, k % lb as int, true),
            ) by {
                lemma_tally_pair_append(pre, post, a as int, b as int, lb as int, k, false);
                lemma_tally_pair_append(pre, post, a as int, b as int, lb as int, k, true);
                assert(n0[k] == saturate(
                    tally_pair(pre, a as int, b as int, k / lb as int, k % lb as int, false),
                ));
                assert(s0[k] == saturate(
                    tally_pair(pre, a as int, b as int, k / lb as int, k % lb as int, true),
                ));
                if k == idx {
                    assert(n@[k] == nv);
                    assert(s@[k] == sv);
                } else {
                    assert(n@[k] == n0[k]);
                    assert(s@[k] == s0[k]);
                }
            }
            assert(post == cells@.subrange(0, t + 1));
        }
        t = t + 1;
    }
    assert(cells@.subrange(0, cells@.len() as int) =~= cells@);
    let mut out: Vec<BinaryCell> = Vec::new();
    let mut k: usize = 0;
    while k < size
        invariant
            0 <= k <= size,
            size == la * lb,
            n@.len() == size,
            s@.len() == size,
            out@.len() == k,
            forall|j: int|
                0 <= j < k ==> (#[trigger] out@[j]).a_level == j / lb as int && out@[j].b_level
                    == j % lb as int && out@[j].n == n@[j] && out@[j].successes == s@[j],
        decreases size - k,
    {
        assert(lb > 0) by (nonlinear_arith)
            requires
                k < la * lb,
                lb >= 0,
                la >= 0,
        ;
        proof {
            vstd::arithmetic::div_mod::lemma_fundamental_div_mod(k as int, lb as int);
        }
        out.push(BinaryCell { a_level: k / lb, b_level: k % lb, n: n[k], successes: s[k] });
        k = k + 1;
    }
    assert(out@ =~= collapsed_pair(cells@, a as int, b as int));
    out
}

/// A grid read as the two-factor test reads it: factor 0 is the A level,
/// factor 1 the B level.
pub open spec fn as_two_factor(cells: Seq<NdBinaryCell>) -> Seq<BinaryCell> {
    cells.map_values(
        |c: NdBinaryCell|
            BinaryCell {
                a_level: c.levels@[0],
                b_level: c.levels@[1],
                n: c.n,
                successes: c.successes,
            },
    )
}

proof fn lemma_direct_shape(cells: Seq<NdBinaryCell>, r: int, c: int, successes: bool)
    requires
        forall|t: int| 0 <= t < cells.len() ==> (#[trigger] cells[t]).levels@.len() >= 2,
    ensures
        grid_rows(as_two_factor(cells)) == spec_level_count(cell_levels(cells), 0),
        grid_cols(as_two_factor(cells)) == spec_level_count(cell_levels(cells), 1),
        grid_tally(as_two_factor(cells), r, c, successes) == tally_pair(cells, 0, 1, r, c, successes),
        total_trials(as_two_factor(cells)) == grid_count(cells, false),
    decreases cells.len(),
{
    if cells.len() > 0 {
        let init = cells.drop_last();
        assert forall|t: int| 0 <= t < init.len() implies (#[trigger] init[t]).levels@.len() >= 2 by {
            assert(init[t] == cells[t]);
        }
        lemma_direct_shape(init, r, c, successes);
        assert(as_two_factor(cells).drop_last() =~= as_two_factor(init));
        assert(cell_levels(cells).drop_last() =~= cell_levels(init));
        let last = cells[cells.len() - 1];
        assert(cells.last() == last);
        assert(last.levels@.len() >= 2);
        assert(as_two_factor(cells).last() == BinaryCell {
            a_level: last.levels@[0],
            b_level: last.levels@[1],
            n: last.n,
            successes: last.successes,
        });
        assert(cell_levels(cells).last() == last.levels@);
    }
}

proof fn lemma_tally_pair_le_count(
    cells: Seq<NdBinaryCell>,
    a: int,
    b: int,
    x: int,
    y: int,
    successes: bool,
)
    ensures
        0 <= tally_pair(cells, a, b, x, y, successes) <= grid_count(cells, successes),
    decreases cells.len(),
{
    if cells.len() > 0 {
        lemma_tally_pair_le_count(cells.drop_last(), a, b, x, y, successes);
    }
}

proof fn lemma_tally_pair_outside(
    cells: Seq<NdBinaryCell>,
    a: int,
    b: int,
    x: int,
    y: int,
    successes: bool,
)
    requires
        forall|t: int|
            0 <= t < cells.len() ==> !((#[trigger] cells[t]).levels@[a] == x && cells[t].levels@[b]
                == y),
    ensures
        tally_pair(cells, a, b, x, y, successes) == 0,
    decreases cells.len(),
{
    if cells.len() > 0 {
        let init = cells.drop_last();
        assert forall|t: int| 0 <= t < init.len() implies !((#[trigger] init[t]).levels@[a] == x
            && init[t].levels@[b] == y) by {
            assert(init[t] == cells[t]);
        }
        lemma_tally_pair_outside(init, a, b, x, y, successes);
        assert(cells.last() == cells[cells.len() - 1]);
    }
}

/// The first `k` cells of the dense collapse: their level counts, their
/// tally at any level pair, and their total trials.
proof fn lemma_dense_prefix(
    cells: Seq<NdBinaryCell>,
    dense: Seq<BinaryCell>,
    la: int,
    lb: int,
    k: int,
    r: int,
    c: int,
    successes: bool,
)
    requires
        0 < lb <= usize::MAX,
        0 <= la <= usize::MAX,
        dense.len() == la * lb,
        forall|j: int| 0 <= j < dense.len() ==> #[trigger] dense[j] == collapsed_cell(cells, 0, 1, lb, j),
        0 <= k <= la * lb,
    ensures
        grid_rows(dense.subrange(0, k)) == if k == 0 {
            0
        } else {
            (k - 1) / lb + 1
        },
        grid_cols(dense.subrange(0, k)) == if k == 0 {
            0
        } else if k >= lb {
            lb
        } else {
            k
        },
        grid_tally(dense.subrange(0, k), r, c, successes) == if 0 <= r && 0 <= c < lb && r * lb + c
            < k {
            saturate(tally_pair(cells, 0, 1, r, c, successes)) as int
        } else {
            0
        },
    decreases k,
{
    if k > 0 {
        lemma_dense_prefix(cells, dense, la, lb, k - 1, r, c, successes);
        let j = k - 1;
        let pre = dense.subrange(0, j);
        let post = dense.subrange(0, k);
        assert(post.drop_last() =~= pre);
        assert(post.last() == dense[j]);
        vstd::arithmetic::div_mod::lemma_fundamental_div_mod(j, lb);
        assert(j / lb < la) by (nonlinear_arith)
            requires
                j == lb * (j / lb) + j % lb,
                0 <= j % lb < lb,
                j < la * lb,
                lb > 0,
        ;
        assert(0 <= j / lb) by (nonlinear_arith)
            requires
                0 <= j,
                lb > 0,
        ;
        assert(dense[j].a_level == j / lb);
        assert(dense[j].b_level == j % lb);
        if j > 0 {
            vstd::arithmetic::div_mod::lemma_div_is_ordered(j - 1, j, lb);
        }
        if j < lb {
            vstd::arithmetic::div_mod::lemma_small_mod(j as nat, lb as nat);
        }
        if 0 <= r && 0 <= c < lb {
            if j / lb == r && j % lb == c {
                assert(j == r * lb + c) by (nonlinear_arith)
                    requires
                        j == lb * (j / lb) + j % lb,
                        j / lb == r,
                        j % lb == c,
                ;
            }
            if j == r * lb + c {
                vstd::arithmetic::div_mod::lemma_fundamental_div_mod_converse(j, lb, r, c);
            }
        }
    }
}

/// Sum of the first `k` dense cells' trials, when no dense cell saturates.
proof fn lemma_dense_total(
    cells: Seq<NdBinaryCell>,
    dense: Seq<BinaryCell>,
    la: int,
    lb: int,
    k: int,
)
    requires
        0 < lb <= usize::MAX,
        0 <= la <= usize::MAX,
        dense.len() == la * lb,
        forall|j: int| 0 <= j < dense.len() ==> #[trigger] dense[j] == collapsed_cell(cells, 0, 1, lb, j),
        grid_count(cells, false) <= u64::MAX,
        0 <= k <= la * lb,
    ensures
        total_trials(dense.subrange(0, k)) == pair_total(cells, 0, 1, lb, k as nat, false),
    decreases k,
{
    if k > 0 {
        lemma_dense_total(cells, dense, la, lb, k - 1);
        let j = k - 1;
        assert(dense.subrange(0, k).drop_last() =~= dense.subrange(0, j));
        assert(dense.subrange(0, k).last() == dense[j]);
        lemma_tally_pair_le_count(cells, 0, 1, j / lb, j % lb, false);
    }
}

/// At two factors the collapse onto the pair changes nothing the
/// two-factor test reads: the collapsed grid is empty exactly when the cells
/// are, has the same level counts and the same total trials, and a dense
/// grid tabulates the collapsed cells exactly when it tabulates the cells
/// themselves — so the pairwise term of a two-factor decomposition is
/// planned exactly as the direct two-factor test.
pub proof fn lemma_two_factor_collapse_matches_direct(cells: Seq<NdBinaryCell>)
    requires
        forall|t: int| 0 <= t < cells.len() ==> (#[trigger] cells[t]).levels@.len() >= 2,
        forall|t: int, d: int|
            0 <= t < cells.len() && 0 <= d < cells[t].levels@.len() ==> #[trigger] cells[t].levels@[d]
                < usize::MAX,
        total_trials(as_two_factor(cells)) <= u64::MAX,
    ensures
        ({
            let collapsed = collapsed_pair(cells, 0, 1);
            let direct = as_two_factor(cells);
            &&& (collapsed.len() == 0 <==> direct.len() == 0)
            &&& grid_rows(collapsed) == grid_rows(direct)
            &&& grid_cols(collapsed) == grid_cols(direct)
            &&& total_trials(collapsed) == total_trials(direct)
            &&& forall|g: BinaryGrid| tabulates(g, collapsed) <==> #[trigger] tabulates(g, direct)
        }),
{
    let collapsed = collapsed_pair(cells, 0, 1);
    let direct = as_two_factor(cells);
    let tuples = cell_levels(cells);
    let la = spec_level_count(tuples, 0);
    let lb = spec_level_count(tuples, 1);
    assert forall|t: int, d: int|
        0 <= t < tuples.len() && 0 <= d < tuples[t].len() implies #[trigger] tuples[t][d]
        < usize::MAX by {
        assert(tuples[t] == cells[t].levels@);
    }
    lemma_level_count_bounds(tuples, 0);
    lemma_level_count_bounds(tuples, 1);
    lemma_direct_shape(cells, 0, 0, false);
    if cells.len() == 0 {
        assert(collapsed =~= Seq::<BinaryCell>::empty());
        assert(direct =~= Seq::<BinaryCell>::empty());
        return;
    }
    assert(tuples[0] == cells[0].levels@);
    assert(la >= 1 && lb >= 1);
    assert(la * lb >= lb) by (nonlinear_arith)
        requires
            la >= 1,
            lb >= 1,
    ;
    assert forall|j: int| 0 <= j < collapsed.len() implies #[trigger] collapsed[j]
        == collapsed_cell(cells, 0, 1, lb, j) by {}
    assert(collapsed.subrange(0, la * lb) =~= collapsed);
    lemma_dense_prefix(cells, collapsed, la, lb, la * lb, 0, 0, false);
    assert(la * lb - 1 == (la - 1) * lb + (lb - 1)) by (nonlinear_arith);
    vstd::arithmetic::div_mod::lemma_fundamental_div_mod_converse(la * lb - 1, lb, la - 1, lb - 1);
    assert(grid_rows(collapsed) == la);
    assert(grid_cols(collapsed) == lb);
    assert(grid_rows(direct) == la);
    assert(grid_cols(direct) == lb);
    // Totals agree: no dense cell saturates, and the collapse conserves trials.
    assert(grid_count(cells, false) == total_trials(direct));
    lemma_dense_total(cells, collapsed, la, lb, la * lb);
    assert forall|t: int| 0 <= t < cells.len() implies 0 < (#[trigger] cells[t]).levels@.len()
        && 1 < cells[t].levels@.len() && cells[t].levels@[0] < la && cells[t].levels@[1] < lb by {
        assert(tuples[t] == cells[t].levels@);
    }
    lemma_pair_collapse_conserves_counts(cells, 0, 1, la as nat, lb as nat, false);
    assert(total_trials(collapsed) == total_trials(direct));
    // Every level pair inside the grid holds the same saturated totals.
    assert forall|r: int, c: int, s: bool| 0 <= r < la && 0 <= c < lb implies saturate(
        #[trigger] grid_tally(collapsed, r, c, s),
    ) == saturate(grid_tally(direct, r, c, s)) by {
        lemma_dense_prefix(cells, collapsed, la, lb, la * lb, r, c, s);
        lemma_direct_shape(cells, r, c, s);
        lemma_tally_pair_le_count(cells, 0, 1, r, c, s);
        assert(r * lb + c < la * lb) by (nonlinear_arith)
            requires
                0 <= r < la,
                0 <= c < lb,
        ;
    }
    assert forall|g: BinaryGrid| tabulates(g, collapsed) <==> #[trigger] tabulates(g, direct) by {
        if tabulates(g, collapsed) {
            lemma_tabulates_transfer(g, collapsed, direct);
        }
        if tabulates(g, direct) {
            lemma_tabulates_transfer(g, direct, collapsed);
        }
    }
}

/// A grid that tabulates `x` tabulates any `y` with the same level counts
/// and the same saturated totals at every level pair.
proof fn lemma_tabulates_transfer(g: BinaryGrid, x: Seq<BinaryCell>, y: Seq<BinaryCell>)
    requires
        tabulates(g, x),
        grid_rows(x) == grid_rows(y),
        grid_cols(x) == grid_cols(y),
        forall|r: int, c: int, s: bool|
            0 <= r < grid_rows(x) && 0 <= c < grid_cols(x) ==> saturate(
                #[trigger] grid_tally(x, r, c, s),
            ) == saturate(grid_tally(y, r, c, s)),
    ensures
        tabulates(g, y),
{
    assert forall|r: int, c: int|
        0 <= r < g.rows && 0 <= c < g.cols implies #[trigger] g.n@[r * g.cols + c] == saturate(
        grid_tally(y, r, c, false),
    ) && g.successes@[r * g.cols + c] == saturate(grid_tally(y, r, c, true)) by {
        assert(g.rows == grid_rows(x) && g.cols == grid_cols(x));
        assert(g.n@[r * g.cols + c] == saturate(grid_tally(x, r, c, false)));
        assert(g.successes@[r * g.cols + c] == saturate(grid_tally(x, r, c, true)));
        assert(saturate(grid_tally(x, r, c, false)) == saturate(grid_tally(y, r, c, false)));
        assert(saturate(grid_tally(x, r, c, true)) == saturate(grid_tally(y, r, c, true)));
    }
}

/// `l − 1`, or 0 for `l = 0`.
pub open spec fn minus_one(l: int) -> int {
    if l > 0 {
        l - 1
    } else {
        0
    }
}

/// Flat index of outcome `o` (0 failure, 1 success) at levels `(a, b, c)` in
/// an `O × A × B × C` table with `la × lb × lc` factor levels.
pub open spec fn index4(o: int, a: int, b: int, c: int, la: int, lb: int, lc: int) -> int {
    ((o * la + a) * lb + b) * lc + c
}

/// A cell's successes, clamped to its trials.
pub open spec fn clamped_successes(x: NdBinaryCell) -> int {
    if x.successes <= x.n {
        x.successes as int
    } else {
        x.n as int
    }
}

/// Total successes (`o = 1`) or failures (`o = 0`) of the cells at levels
/// `(a, b, c)` on the first three factors, successes clamped to trials.
pub open spec fn tally3(cells: Seq<NdBinaryCell>, o: int, a: int, b: int, c: int) -> int
    decreases cells.len(),
{
    if cells.len() == 0 {
        0
    } else {
        let x = cells.last();
        tally3(cells.drop_last(), o, a, b, c) + if x.levels@[0] == a && x.levels@[1] == b
            && x.levels@[2] == c {
            if o == 1 {
                clamped_successes(x)
            } else {
                x.n - clamped_successes(x)
            }
        } else {
            0int
        }
    }
}

/// Total trials of the cells at levels `(a, b, c)` on the first three
/// factors.
pub open spec fn trials_at(cells: Seq<NdBinaryCell>, a: int, b: int, c: int) -> int
    decreases cells.len(),
{
    if cells.len() == 0 {
        0
    } else {
        let x = cells.last();
        trials_at(cells.drop_last(), a, b, c) + if x.levels@[0] == a && x.levels@[1] == b
            && x.levels@[2] == c {
            x.n as int
        } else {
            0int
        }
    }
}

/// Clamping keeps the observed table consistent: at every level triple the
/// successes and the failures add up to the trials there, and neither is
/// negative.
pub proof fn lemma_observed_outcomes_add_up(cells: Seq<NdBinaryCell>, a: int, b: int, c: int)
    ensures
        tally3(cells, 1, a, b, c) + tally3(cells, 0, a, b, c) == trials_at(cells, a, b, c),
        tally3(cells, 1, a, b, c) >= 0,
        tally3(cells, 0, a, b, c) >= 0,
    decreases cells.len(),
{
    if cells.len() > 0 {
        lemma_observed_outcomes_add_up(cells.drop_last(), a, b, c);
    }
}

/// Total trials of all cells.
pub open spec fn sum_trials(cells: Seq<NdBinaryCell>) -> int
    decreases cells.len(),
{
    if cells.len() == 0 {
        0
    } else {
        sum_trials(cells.drop_last()) + cells.last().n
    }
}

/// Total clamped successes of all cells.
pub open spec fn sum_clamped_successes(cells: Seq<NdBinaryCell>) -> int
    decreases cells.len(),
{
    if cells.len() == 0 {
        0
    } else {
        sum_clamped_successes(cells.drop_last()) + clamped_successes(cells.last())
    }
}

/// What the three-way (`O × A × B × C`) interaction test of a three-factor
/// binary grid is run on.
#[derive(Debug, Clone, PartialEq, Eq)]
pub enum ThreeWayPlan {
    /// Too little or degenerate data; the term has `df` degrees of freedom.
    Insufficient { df: u32 },
    /// Fit the no-four-way model to the observed success/failure table.
    Fit {
        /// Levels on the first factor.
        la: usize,
        /// Levels on the second factor.
        lb: usize,
        /// Levels on the third factor.
        lc: usize,
        /// `(la − 1)(lb − 1)(lc − 1)`.
        df: u32,
        /// Observed counts at [`index4`]`(o, a, b, c)`.
        observed: Vec<u64>,
    },
}

proof fn lemma_index4_unique(
    o: int,
    a: int,
    b: int,
    c: int,
    o2: int,
    a2: int,
    b2: int,
    c2: int,
    la: int,
    lb: int,
    lc: int,
)
    requires
        0 <= o < 2,
        0 <= o2 < 2,
        0 <= a < la,
        0 <= a2 < la,
        0 <= b < lb,
        0 <= b2 < lb,
        0 <= c < lc,
        0 <= c2 < lc,
        index4(o, a, b, c, la, lb, lc) == index4(o2, a2, b2, c2, la, lb, lc),
    ensures
        o == o2 && a == a2 && b == b2 && c == c2,
{
    let k = index4(o, a, b, c, la, lb, lc);
    let x1 = (o * la + a) * lb + b;
    let x2 = (o2 * la + a2) * lb + b2;
    assert(x1 >= 0 && x2 >= 0) by (nonlinear_arith)
        requires
            0 <= o,
            0 <= o2,
            0 <= a,
            0 <= a2,
            0 <= b,
            0 <= b2,
            la > 0,
            lb > 0,
            x1 == (o * la + a) * lb + b,
            x2 == (o2 * la + a2) * lb + b2,
    ;
    vstd::arithmetic::div_mod::lemma_fundamental_div_mod_converse(k, lc, x1, c);
    vstd::arithmetic::div_mod::lemma_fundamental_div_mod_converse(k, lc, x2, c2);
    let y1 = o * la + a;
    let y2 = o2 * la + a2;
    vstd::arithmetic::div_mod::lemma_fundamental_div_mod_converse(x1, lb, y1, b);
    vstd::arithmetic::div_mod::lemma_fundamental_div_mod_converse(x1, lb, y2, b2);
    vstd::arithmetic::div_mod::lemma_fundamental_div_mod_converse(y1, la, o, a);
    vstd::arithmetic::div_mod::lemma_fundamental_div_mod_converse(y1, la, o2, a2);
}

proof fn lemma_index4_bound(o: int, a: int, b: int, c: int, la: int, lb: int, lc: int)
    requires
        0 <= o < 2,
        0 <= a < la,
        0 <= b < lb,
        0 <= c < lc,
    ensures
        0 <= index4(o, a, b, c, la, lb, lc) < 2 * la * lb * lc,
{
    assert(0 <= o * la + a < 2 * la) by (nonlinear_arith)
        requires
            0 <= o < 2,
            0 <= a < la,
    ;
    let y = o * la + a;
    assert(0 <= y * lb + b < 2 * la * lb) by (nonlinear_arith)
        requires
            0 <= y < 2 * la,
            0 <= b < lb,
    ;
    let x = y * lb + b;
    assert(0 <= x * lc + c < 2 * la * lb * lc) by (nonlinear_arith)
        requires
            0 <= x < 2 * la * lb,
            0 <= c < lc,
    ;
}

proof fn lemma_tally3_nonneg(cells: Seq<NdBinaryCell>, o: int, a: int, b: int, c: int)
    ensures
        tally3(cells, o, a, b, c) >= 0,
    decreases cells.len(),
{
    if cells.len() > 0 {
        lemma_tally3_nonneg(cells.drop_last(), o, a, b, c);
    }
}

proof fn lemma_sums_nonneg(cells: Seq<NdBinaryCell>)
    ensures
        sum_trials(cells) >= 0,
        sum_clamped_successes(cells) >= 0,
    decreases cells.len(),
{
    if cells.len() > 0 {
        lemma_sums_nonneg(cells.drop_last());
    }
}


/// The O×A×B margin at `(o, a, b)` is empty: no observation of outcome `o`
/// at levels `(a, b)`, whatever the level on the third factor.
pub open spec fn oab_margin_empty(cells: Seq<NdBinaryCell>, o: int, a: int, b: int, lc: int) -> bool {
    forall|c: int| 0 <= c < lc ==> #[trigger] tally3(cells, o, a, b, c) == 0
}

/// The O×A×C margin at `(o, a, c)` is empty.
pub open spec fn oac_margin_empty(cells: Seq<NdBinaryCell>, o: int, a: int, c: int, lb: int) -> bool {
    forall|b: int| 0 <= b < lb ==> #[trigger] tally3(cells, o, a, b, c) == 0
}

/// The O×B×C margin at `(o, b, c)` is empty.
pub open spec fn obc_margin_empty(cells: Seq<NdBinaryCell>, o: int, b: int, c: int, la: int) -> bool {
    forall|a: int| 0 <= a < la ==> #[trigger] tally3(cells, o, a, b, c) == 0
}

/// Whether some cell of the three outcome-bearing two-way margins
/// (O×A×B, O×A×C, O×B×C) holds no observation.
pub open spec fn has_empty_margin(cells: Seq<NdBinaryCell>, la: int, lb: int, lc: int) -> bool {
    ||| exists|o: int, a: int, b: int|
        0 <= o < 2 && 0 <= a < la && 0 <= b < lb && #[trigger] oab_margin_empty(cells, o, a, b, lc)
    ||| exists|o: int, a: int, c: int|
        0 <= o < 2 && 0 <= a < la && 0 <= c < lc && #[trigger] oac_margin_empty(cells, o, a, c, lb)
    ||| exists|o: int, b: int, c: int|
        0 <= o < 2 && 0 <= b < lb && 0 <= c < lc && #[trigger] obc_margin_empty(cells, o, b, c, la)
}

/// Flat position `o·s0 + x·s1 + y·s2 + j·stride`.
spec fn line_pos(o: int, x: int, y: int, j: int, s0: int, s1: int, s2: int, stride: int) -> int {
    o * s0 + x * s1 + y * s2 + j * stride
}

/// Whether the `count` entries at `line_pos(o, x, y, j, ..)`, `j < count`,
/// are all zero.
spec fn line_zero(
    obs: Seq<u64>,
    o: int,
    x: int,
    y: int,
    s0: int,
    s1: int,
    s2: int,
    stride: int,
    count: int,
) -> bool {
    forall|j: int| 0 <= j < count ==> #[trigger] obs[line_pos(o, x, y, j, s0, s1, s2, stride)] == 0
}

/// Every position of every line `(o, x, y)` lies inside a table of `len`
/// entries.
spec fn lines_in_bounds(
    len: int,
    nx: int,
    ny: int,
    s0: int,
    s1: int,
    s2: int,
    stride: int,
    count: int,
) -> bool {
    forall|o: int, x: int, y: int, j: int|
        0 <= o < 2 && 0 <= x < nx && 0 <= y < ny && 0 <= j < count ==> 0 <= #[trigger] line_pos(
            o,
            x,
            y,
            j,
            s0,
            s1,
            s2,
            stride,
        ) < len
}

/// Whether the line `(o, x, y)` is all zero.
fn line_is_zero(
    obs: &Vec<u64>,
    o: usize,
    x: usize,
    y: usize,
    nx: usize,
    ny: usize,
    s0: usize,
    s1: usize,
    s2: usize,
    stride: usize,
    count: usize,
) -> (r: bool)
    requires
        o < 2,
        x < nx,
        y < ny,
        lines_in_bounds(
            obs@.len() as int,
            nx as int,
            ny as int,
            s0 as int,
            s1 as int,
            s2 as int,
            stride as int,
            count as int,
        ),
    ensures
        r == line_zero(
            obs@,
            o as int,
            x as int,
            y as int,
            s0 as int,
            s1 as int,
            s2 as int,
            stride as int,
            count as int,
        ),
{
    let total: usize = obs.len();
    let mut j: usize = 0;
    let mut zero = true;
    while j < count && zero
        invariant
            total == obs@.len(),
            o < 2,
            x < nx,
            y < ny,
            0 <= j <= count,
            lines_in_bounds(
                obs@.len() as int,
                nx as int,
                ny as int,
                s0 as int,
                s1 as int,
                s2 as int,
                stride as int,
                count as int,
            ),
            zero ==> forall|j2: int|
                0 <= j2 < j ==> #[trigger] obs@[line_pos(
                    o as int,
                    x as int,
                    y as int,
                    j2,
                    s0 as int,
                    s1 as int,
                    s2 as int,
                    stride as int,
                )] == 0,
            !zero ==> j < count && obs@[line_pos(
                o as int,
                x as int,
                y as int,
                j as int,
                s0 as int,
                s1 as int,
                s2 as int,
                stride as int,
            )] != 0,
        decreases count - j + if zero {
            1int
        } else {
            0int
        },
    {
        let ghost p = line_pos(
            o as int,
            x as int,
            y as int,
            j as int,
            s0 as int,
            s1 as int,
            s2 as int,
            stride as int,
        );
        assert(0 <= p < obs@.len());
        assert(0 <= o * s0 <= o * s0 + x * s1 <= o * s0 + x * s1 + y * s2 <= p && 0 <= j * stride
            <= p && 0 <= x * s1 <= p && 0 <= y * s2 <= p) by (nonlinear_arith)
            requires
                p == o * s0 + x * s1 + y * s2 + j * stride,
                o >= 0,
                x >= 0,
                y >= 0,
                j >= 0,
                s0 >= 0,
                s1 >= 0,
                s2 >= 0,
                stride >= 0,
        ;
        let pos = o * s0 + x * s1 + y * s2 + j * stride;
        if obs[pos] != 0 {
            zero = false;
        } else {
            j = j + 1;
        }
    }
    zero
}

/// Whether some line `(o, x, y)`, `o < 2`, `x < nx`, `y < ny`, is all zero.
fn some_line_zero(
    obs: &Vec<u64>,
    nx: usize,
    ny: usize,
    s0: usize,
    s1: usize,
    s2: usize,
    stride: usize,
    count: usize,
) -> (r: bool)
    requires
        lines_in_bounds(
            obs@.len() as int,
            nx as int,
            ny as int,
            s0 as int,
            s1 as int,
            s2 as int,
            stride as int,
            count as int,
        ),
    ensures
        r <==> exists|o: int, x: int, y: int|
            0 <= o < 2 && 0 <= x < nx && 0 <= y < ny && #[trigger] line_zero(
                obs@,
                o,
                x,
                y,
                s0 as int,
                s1 as int,
                s2 as int,
                stride as int,
                count as int,
            ),
{
    let mut o: usize = 0;
    while o < 2
        invariant
            0 <= o <= 2,
            lines_in_bounds(
                obs@.len() as int,
                nx as int,
                ny as int,
                s0 as int,
                s1 as int,
                s2 as int,
                stride as int,
                count as int,
            ),
            forall|o2: int, x: int, y: int|
                0 <= o2 < o && 0 <= x < nx && 0 <= y < ny ==> !#[trigger] line_zero(
                    obs@,
                    o2,
                    x,
                    y,
                    s0 as int,
                    s1 as int,
                    s2 as int,
                    stride as int,
                    count as int,
                ),
        decreases 2 - o,
    {
        let mut x: usize = 0;
        while x < nx
            invariant
                0 <= o < 2,
                0 <= x <= nx,
                lines_in_bounds(
                    obs@.len() as int,
                    nx as int,
                    ny as int,
                    s0 as int,
                    s1 as int,
                    s2 as int,
                    stride as int,
                    count as int,
                ),
                forall|o2: int, x2: int, y: int|
                    (0 <= o2 < o || (o2 == o && 0 <= x2 < x)) && 0 <= x2 < nx && 0 <= y < ny
                        ==> !#[trigger] line_zero(
                        obs@,
                        o2,
                        x2,
                        y,
                        s0 as int,
                        s1 as int,
                        s2 as int,
                        stride as int,
                        count as int,
                    ),
            decreases nx - x,
        {
            let mut y: usize = 0;
            while y < ny
                invariant
                    0 <= o < 2,
                    0 <= x < nx,
                    0 <= y <= ny,
                    lines_in_bounds(
                        obs@.len() as int,
                        nx as int,
                        ny as int,
                        s0 as int,
                        s1 as int,
                        s2 as int,
                        stride as int,
                        count as int,
                    ),
                    forall|o2: int, x2: int, y2: int|
                        (0 <= o2 < o || (o2 == o && 0 <= x2 < x) || (o2 == o && x2 == x && 0 <= y2
                            < y)) && 0 <= x2 < nx && 0 <= y2 < ny ==> !#[trigger] line_zero(
                            obs@,
                            o2,
                            x2,
                            y2,
                            s0 as int,
                            s1 as int,
                            s2 as int,
                            stride as int,
                            count as int,
                        ),
                decreases ny - y,
            {
                if line_is_zero(obs, o, x, y, nx, ny, s0, s1, s2, stride, count) {
                    return true;
                }
                y = y + 1;
            }
            x = x + 1;
        }
        o = o + 1;
    }
    false
}

/// `index4` as a sum of strides.
proof fn lemma_index4_expand(o: int, a: int, b: int, c: int, la: int, lb: int, lc: int)
    ensures
        index4(o, a, b, c, la, lb, lc) == o * (la * lb * lc) + a * (lb * lc) + b * lc + c,
{
    let y = o * la + a;
    let x = y * lb + b;
    assert(x * lc == y * (lb * lc) + b * lc) by (nonlinear_arith)
        requires
            x == y * lb + b,
    ;
    assert(y * (lb * lc) == o * (la * lb * lc) + a * (lb * lc)) by (nonlinear_arith)
        requires
            y == o * la + a,
    ;
}


/// The three line layouts of a margin address the observed table at
/// `index4`, inside the table.
proof fn lemma_line_index(o: int, a: int, b: int, c: int, la: int, lb: int, lc: int, s0: int, s1: int)
    requires
        0 <= o < 2,
        0 <= a < la,
        0 <= b < lb,
        0 <= c < lc,
        s0 == la * lb * lc,
        s1 == lb * lc,
    ensures
        line_pos(o, a, b, c, s0, s1, lc, 1) == index4(o, a, b, c, la, lb, lc),
        line_pos(o, a, c, b, s0, s1, 1, lc) == index4(o, a, b, c, la, lb, lc),
        line_pos(o, b, c, a, s0, lc, 1, s1) == index4(o, a, b, c, la, lb, lc),
        0 <= index4(o, a, b, c, la, lb, lc) < 2 * la * lb * lc,
{
    lemma_index4_expand(o, a, b, c, la, lb, lc);
    lemma_index4_bound(o, a, b, c, la, lb, lc);
}

/// Whether the observed table `obs` of `cells` has an empty cell in one of
/// its three outcome-bearing two-way margins.
fn any_empty_margin(
    obs: &Vec<u64>,
    la: usize,
    lb: usize,
    lc: usize,
    Ghost(cells): Ghost<Seq<NdBinaryCell>>,
) -> (r: bool)
    requires
        la >= 2,
        lb >= 2,
        lc >= 2,
        obs@.len() == 2 * la * lb * lc,
        2 * la * lb * lc <= usize::MAX,
        forall|o: int, a: int, b: int, c: int|
            0 <= o < 2 && 0 <= a < la && 0 <= b < lb && 0 <= c < lc ==> #[trigger] obs@[index4(
                o,
                a,
                b,
                c,
                la as int,
                lb as int,
                lc as int,
            )] == saturate(tally3(cells, o, a, b, c)),
    ensures
        r == has_empty_margin(cells, la as int, lb as int, lc as int),
{
    assert(la * lb * lc <= 2 * la * lb * lc && lb * lc <= la * lb * lc && la * lb <= la * lb * lc)
        by (nonlinear_arith)
        requires
            la >= 2,
            lb >= 2,
            lc >= 2,
    ;
    let s1: usize = lb * lc;
    let s0: usize = la * lb * lc;
    let ghost (ila, ilb, ilc) = (la as int, lb as int, lc as int);
    proof {
        assert(lines_in_bounds(obs@.len() as int, ila, ilb, s0 as int, s1 as int, lc as int, 1, ilc)) by {
            assert forall|o: int, x: int, y: int, j: int|
                0 <= o < 2 && 0 <= x < la && 0 <= y < lb && 0 <= j < lc implies 0
                <= #[trigger] line_pos(o, x, y, j, s0 as int, s1 as int, lc as int, 1) < obs@.len() by {
                lemma_line_index(o, x, y, j, ila, ilb, ilc, s0 as int, s1 as int);
            }
        }
        assert(lines_in_bounds(obs@.len() as int, ila, ilc, s0 as int, s1 as int, 1, lc as int, ilb)) by {
            assert forall|o: int, x: int, y: int, j: int|
                0 <= o < 2 && 0 <= x < la && 0 <= y < lc && 0 <= j < lb implies 0
                <= #[trigger] line_pos(o, x, y, j, s0 as int, s1 as int, 1, lc as int) < obs@.len() by {
                lemma_line_index(o, x, j, y, ila, ilb, ilc, s0 as int, s1 as int);
            }
        }
        assert(lines_in_bounds(obs@.len() as int, ilb, ilc, s0 as int, lc as int, 1, s1 as int, ila)) by {
            assert forall|o: int, x: int, y: int, j: int|
                0 <= o < 2 && 0 <= x < lb && 0 <= y < lc && 0 <= j < la implies 0
                <= #[trigger] line_pos(o, x, y, j, s0 as int, lc as int, 1, s1 as int) < obs@.len() by {
                lemma_line_index(o, j, x, y, ila, ilb, ilc, s0 as int, s1 as int);
            }
        }
        assert forall|o: int, a: int, b: int| 0 <= o < 2 && 0 <= a < la && 0 <= b < lb implies
            #[trigger] line_zero(obs@, o, a, b, s0 as int, s1 as int, lc as int, 1, ilc)
            == oab_margin_empty(cells, o, a, b, ilc) by {
            if line_zero(obs@, o, a, b, s0 as int, s1 as int, lc as int, 1, ilc) {
                assert forall|c: int| 0 <= c < lc implies #[trigger] tally3(cells, o, a, b, c) == 0 by {
                    lemma_line_index(o, a, b, c, ila, ilb, ilc, s0 as int, s1 as int);
                    lemma_tally3_nonneg(cells, o, a, b, c);
                    assert(obs@[line_pos(o, a, b, c, s0 as int, s1 as int, lc as int, 1)] == 0);
                }
            }
            if oab_margin_empty(cells, o, a, b, ilc) {
                assert forall|c: int| 0 <= c < lc implies #[trigger] obs@[line_pos(o, a, b, c, s0 as int, s1 as int, lc as int, 1)] == 0 by {
                    lemma_line_index(o, a, b, c, ila, ilb, ilc, s0 as int, s1 as int);
                    assert(tally3(cells, o, a, b, c) == 0);
                }
            }
        }
        assert forall|o: int, a: int, c: int| 0 <= o < 2 && 0 <= a < la && 0 <= c < lc implies
            #[trigger] line_zero(obs@, o, a, c, s0 as int, s1 as int, 1, lc as int, ilb)
            == oac_margin_empty(cells, o, a, c, ilb) by {
            if line_zero(obs@, o, a, c, s0 as int, s1 as int, 1, lc as int, ilb) {
                assert forall|b: int| 0 <= b < lb implies #[trigger] tally3(cells, o, a, b, c) == 0 by {
                    lemma_line_index(o, a, b, c, ila, ilb, ilc, s0 as int, s1 as int);
                    lemma_tally3_nonneg(cells, o, a, b, c);
                    assert(obs@[line_pos(o, a, c, b, s0 as int, s1 as int, 1, lc as int)] == 0);
                }
            }
            if oac_margin_empty(cells, o, a, c, ilb) {
                assert forall|b: int| 0 <= b < lb implies #[trigger] obs@[line_pos(o, a, c, b, s0 as int, s1 as int, 1, lc as int)] == 0 by {
                    lemma_line_index(o, a, b, c, ila, ilb, ilc, s0 as int, s1 as int);
                    assert(tally3(cells, o, a, b, c) == 0);
                }
            }
        }
        assert forall|o: int, b: int, c: int| 0 <= o < 2 && 0 <= b < lb && 0 <= c < lc implies
            #[trigger] line_zero(obs@, o, b, c, s0 as int, lc as int, 1, s1 as int, ila)
            == obc_margin_empty(cells, o, b, c, ila) by {
            if line_zero(obs@, o, b, c, s0 as int, lc as int, 1, s1 as int, ila) {
                assert forall|a: int| 0 <= a < la implies #[trigger] tally3(cells, o, a, b, c) == 0 by {
                    lemma_line_index(o, a, b, c, ila, ilb, ilc, s0 as int, s1 as int);
                    lemma_tally3_nonneg(cells, o, a, b, c);
                    assert(obs@[line_pos(o, b, c, a, s0 as int, lc as int, 1, s1 as int)] == 0);
                }
            }
            if obc_margin_empty(cells, o, b, c, ila) {
                assert forall|a: int| 0 <= a < la implies #[trigger] obs@[line_pos(o, b, c, a, s0 as int, lc as int, 1, s1 as int)] == 0 by {
                    lemma_line_index(o, a, b, c, ila, ilb, ilc, s0 as int, s1 as int);
                    assert(tally3(cells, o, a, b, c) == 0);
                }
            }
        }
    }
    let oab = some_line_zero(obs, la, lb, s0, s1, lc, 1, lc);
    let oac = some_line_zero(obs, la, lc, s0, s1, 1, lc, lb);
    let obc = some_line_zero(obs, lb, lc, s0, lc, 1, s1, la);
    proof {
        if oab {
            let (o, a, b) = choose|o: int, a: int, b: int|
                0 <= o < 2 && 0 <= a < la && 0 <= b < lb && #[trigger] line_zero(obs@, o, a, b, s0 as int, s1 as int, lc as int, 1, ilc);
            assert(oab_margin_empty(cells, o, a, b, ilc));
        }
        if oac {
            let (o, a, c) = choose|o: int, a: int, c: int|
                0 <= o < 2 && 0 <= a < la && 0 <= c < lc && #[trigger] line_zero(obs@, o, a, c, s0 as int, s1 as int, 1, lc as int, ilb);
            assert(oac_margin_empty(cells, o, a, c, ilb));
        }
        if obc {
            let (o, b, c) = choose|o: int, b: int, c: int|
                0 <= o < 2 && 0 <= b < lb && 0 <= c < lc && #[trigger] line_zero(obs@, o, b, c, s0 as int, lc as int, 1, s1 as int, ila);
            assert(obc_margin_empty(cells, o, b, c, ila));
        }
        if has_empty_margin(cells, ila, ilb, ilc) {
            if exists|o: int, a: int, b: int|
                0 <= o < 2 && 0 <= a < la && 0 <= b < lb && #[trigger] oab_margin_empty(cells, o, a, b, ilc) {
                let (o, a, b) = choose|o: int, a: int, b: int|
                    0 <= o < 2 && 0 <= a < la && 0 <= b < lb && #[trigger] oab_margin_empty(cells, o, a, b, ilc);
                assert(line_zero(obs@, o, a, b, s0 as int, s1 as int, lc as int, 1, ilc));
            } else if exists|o: int, a: int, c: int|
                0 <= o < 2 && 0 <= a < la && 0 <= c < lc && #[trigger] oac_margin_empty(cells, o, a, c, ilb) {
                let (o, a, c) = choose|o: int, a: int, c: int|
                    0 <= o < 2 && 0 <= a < la && 0 <= c < lc && #[trigger] oac_margin_empty(cells, o, a, c, ilb);
                assert(line_zero(obs@, o, a, c, s0 as int, s1 as int, 1, lc as int, ilb));
            } else {
                let (o, b, c) = choose|o: int, b: int, c: int|
                    0 <= o < 2 && 0 <= b < lb && 0 <= c < lc && #[trigger] obc_margin_empty(cells, o, b, c, ila);
                assert(line_zero(obs@, o, b, c, s0 as int, lc as int, 1, s1 as int, ila));
            }
        }
    }
    oab || oac || obc
}

/// Decide whether the three-way interaction of a three-factor binary grid can
/// be fitted, and tabulate the observed success/failure counts.
///
/// * With fewer than two levels on any of the three factors, fewer than 20
///   trials in total, no outcome variance (no successes, or only
///   successes), or an empty cell in one of the outcome-bearing two-way
///   margins (O×A×B, O×A×C, O×B×C; the fit is then unidentifiable), the
///   term is `Insufficient { df }` with `df = (la − 1)(lb − 1)(lc − 1)`.
/// * Otherwise the plan carries, for every outcome and level triple, the
///   (saturating) count of successes or failures; a cell's successes are
///   clamped to its trials so that failures never go negative.
#[verifier::spinoff_prover]
pub fn plan_three_way(cells: &[NdBinaryCell]) -> (r: ThreeWayPlan)
    requires
        forall|t: int| 0 <= t < cells@.len() ==> (#[trigger] cells@[t]).levels@.len() >= 3,
        forall|t: int, d: int|
            0 <= t < cells@.len() && 0 <= d < cells@[t].levels@.len() ==> #[trigger] cells@[t].levels@[d]
                < usize::MAX,
        ({
            let la = spec_level_count(cell_levels(cells@), 0);
            let lb = spec_level_count(cell_levels(cells@), 1);
            let lc = spec_level_count(cell_levels(cells@), 2);
            &&& minus_one(la) * minus_one(lb) <= usize::MAX
            &&& minus_one(la) * minus_one(lb) * minus_one(lc) <= usize::MAX
            &&& la >= 2 && lb >= 2 && lc >= 2 ==> 2 * la * lb * lc <= usize::MAX
        }),
    ensures
        ({
            let la = spec_level_count(cell_levels(cells@), 0);
            let lb = spec_level_count(cell_levels(cells@), 1);
            let lc = spec_level_count(cell_levels(cells@), 2);
            let df = (minus_one(la) * minus_one(lb) * minus_one(lc)) as u32;
            let total_n = saturate(sum_trials(cells@));
            let total_s = saturate(sum_clamped_successes(cells@));
            if la < 2 || lb < 2 || lc < 2 {
                r == (ThreeWayPlan::Insufficient { df })
            } else if total_n < MIN_TOTAL_TRIALS || total_s == 0 || total_s == total_n
                || has_empty_margin(cells@, la, lb, lc) {
                r == (ThreeWayPlan::Insufficient { df })
            } else {
                &&& r matches ThreeWayPlan::Fit { la: pa, lb: pb, lc: pc, df: d, observed }
                &&& pa == la && pb == lb && pc == lc
                &&& d == df
                &&& observed@.len() == 2 * la * lb * lc
                &&& forall|o: int, a: int, b: int, c: int|
                    0 <= o < 2 && 0 <= a < la && 0 <= b < lb && 0 <= c < lc
                        ==> #[trigger] observed@[index4(o, a, b, c, la, lb, lc)] == saturate(
                        tally3(cells@, o, a, b, c),
                    )
            }
        }),
{
    let la = levels_on(cells, 0);
    let lb = levels_on(cells, 1);
    let lc = levels_on(cells, 2);
    let sa: usize = la.saturating_sub(1);
    let sb: usize = lb.saturating_sub(1);
    let sc: usize = lc.saturating_sub(1);
    assert(sa == minus_one(la as int) && sb == minus_one(lb as int) && sc == minus_one(
        lc as int,
    ));
    let df = (sa * sb * sc) as u32;
    if la < 2 || lb < 2 || lc < 2 {
        return ThreeWayPlan::Insufficient { df };
    }
    proof {
        lemma_level_count_bounds(cell_levels(cells@), 0);
        lemma_level_count_bounds(cell_levels(cells@), 1);
        lemma_level_count_bounds(cell_levels(cells@), 2);
        assert forall|u: int| 0 <= u < cells@.len() implies (#[trigger] cells@[u]).levels@[0] < la
            && cells@[u].levels@[1] < lb && cells@[u].levels@[2] < lc by {
            assert(cell_levels(cells@)[u] == cells@[u].levels@);
        }
    }
    assert(2 * la <= 2 * la * lb && 2 * la * lb <= 2 * la * lb * lc) by (nonlinear_arith)
        requires
            la >= 2,
            lb >= 2,
            lc >= 2,
    ;
    let size: usize = 2 * la * lb * lc;
    let mut obs: Vec<u64> = vec![0u64; size];
    proof {
        assert forall|o: int, x: int, y: int, z: int|
            0 <= o < 2 && 0 <= x < la && 0 <= y < lb && 0 <= z < lc implies #[trigger] obs@[index4(
            o,
            x,
            y,
            z,
            la as int,
            lb as int,
            lc as int,
        )] == saturate(tally3(cells@.subrange(0, 0), o, x, y, z)) by {
            lemma_index4_bound(o, x, y, z, la as int, lb as int, lc as int);
        }
    }
    let mut total_n: u64 = 0;
    let mut total_s: u64 = 0;
    let mut t: usize = 0;
    while t < cells.len()
        invariant
            0 <= t <= cells@.len(),
            la >= 2,
            lb >= 2,
            lc >= 2,
            size == 2 * la * lb * lc,
            2 * la <= 2 * la * lb <= size,
            size <= usize::MAX,
            obs@.len() == size,
            forall|u: int| 0 <= u < cells@.len() ==> (#[trigger] cells@[u]).levels@.len() >= 3,
            forall|u: int|
                0 <= u < cells@.len() ==> (#[trigger] cells@[u]).levels@[0] < la
                    && cells@[u].levels@[1] < lb && cells@[u].levels@[2] < lc,
            total_n == saturate(sum_trials(cells@.subrange(0, t as int))),
            total_s == saturate(sum_clamped_successes(cells@.subrange(0, t as int))),
            forall|o: int, a: int, b: int, c: int|
                0 <= o < 2 && 0 <= a < la && 0 <= b < lb && 0 <= c < lc ==> #[trigger] obs@[index4(
                    o,
                    a,
                    b,
                    c,
                    la as int,
                    lb as int,
                    lc as int,
                )] == saturate(tally3(cells@.subrange(0, t as int), o, a, b, c)),
        decreases cells@.len() - t,
    {
        let cell = &cells[t];
        let a = cell.levels[0];
        let b = cell.levels[1];
        let c = cell.levels[2];
        let successes: u64 = if cell.successes <= cell.n {
            cell.successes
        } else {
            cell.n
        };
        let fail: u64 = cell.n - successes;
        proof {
            lemma_index4_bound(1, a as int, b as int, c as int, la as int, lb as int, lc as int);
            lemma_index4_bound(0, a as int, b as int, c as int, la as int, lb as int, lc as int);
        }
        let y1: usize = la + a;
        assert(y1 * lb + b < 2 * la * lb) by (nonlinear_arith)
            requires
                y1 == la + a,
                a < la,
                b < lb,
        ;
        assert(2 * la * lb <= 2 * la * lb * lc) by (nonlinear_arith)
            requires
                la >= 2,
                lb >= 2,
                lc >= 2,
        ;
        let x1: usize = y1 * lb + b;
        assert(x1 * lc + c < 2 * la * lb * lc) by (nonlinear_arith)
            requires
                x1 < 2 * la * lb,
                c < lc,
        ;
        let i1: usize = x1 * lc + c;
        assert(a * lb + b <= x1) by (nonlinear_arith)
            requires
                x1 == (la + a) * lb + b,
        ;
        let x0: usize = a * lb + b;
        assert(x0 * lc + c <= i1) by (nonlinear_arith)
            requires
                x0 <= x1,
                i1 == x1 * lc + c,
        ;
        let i0: usize = x0 * lc + c;
        assert(i1 == index4(1, a as int, b as int, c as int, la as int, lb as int, lc as int));
        assert(i0 == index4(0, a as int, b as int, c as int, la as int, lb as int, lc as int));
        let ghost pre = cells@.subrange(0, t as int);
        let ghost post = cells@.subrange(0, t + 1);
        assert(post.drop_last() =~= pre);
        assert(post.last() == *cell);
        let ghost obs0 = obs@;
        proof {
            lemma_tally3_nonneg(pre, 1, a as int, b as int, c as int);
            lemma_tally3_nonneg(pre, 0, a as int, b as int, c as int);
            lemma_sums_nonneg(pre);
            if i0 == i1 {
                lemma_index4_unique(0, a as int, b as int, c as int, 1, a as int, b as int, c as int, la as int, lb as int, lc as int);
            }
        }
        let v1 = obs[i1].saturating_add(successes);
        obs.set(i1, v1);
        let v0 = obs[i0].saturating_add(fail);
        obs.set(i0, v0);
        total_n = total_n.saturating_add(cell.n);
        total_s = total_s.saturating_add(successes);
        proof {
            assert(successes == clamped_successes(*cell));
            assert forall|o: int, x: int, y: int, z: int|
                0 <= o < 2 && 0 <= x < la && 0 <= y < lb && 0 <= z < lc implies #[trigger] obs@[index4(
                o,
                x,
                y,
                z,
                la as int,
                lb as int,
                lc as int,
            )] == saturate(tally3(post, o, x, y, z)) by {
                let k = index4(o, x, y, z, la as int, lb as int, lc as int);
                lemma_index4_bound(o, x, y, z, la as int, lb as int, lc as int);
                lemma_tally3_nonneg(pre, o, x, y, z);
                assert(obs0[k] == saturate(tally3(pre, o, x, y, z)));
                if k == i1 {
                    lemma_index4_unique(o, x, y, z, 1, a as int, b as int, c as int, la as int, lb as int, lc as int);
                    assert(tally3(post, 1, x, y, z) == tally3(pre, 1, x, y, z) + successes);
                    assert(obs@[k] == v1);
                } else if k == i0 {
                    lemma_index4_unique(o, x, y, z, 0, a as int, b as int, c as int, la as int, lb as int, lc as int);
                    assert(tally3(post, 0, x, y, z) == tally3(pre, 0, x, y, z) + fail);
                    assert(obs@[k] == v0);
                } else {
                    assert(obs@[k] == obs0[k]);
                    if x == a && y == b && z == c {
                        assert(o == 0 || o == 1);
                        assert(false);
                    }
                    assert(tally3(post, o, x, y, z) == tally3(pre, o, x, y, z));
                }
            }
        }
        t = t + 1;
    }
    assert(cells@.subrange(0, cells@.len() as int) =~= cells@);
    if total_n < MIN_TOTAL_TRIALS {
        return ThreeWayPlan::Insufficient { df };
    }
    if total_s == 0 || total_s == total_n {
        return ThreeWayPlan::Insufficient { df };
    }
    if any_empty_margin(&obs, la, lb, lc, Ghost(cells@)) {
        return ThreeWayPlan::Insufficient { df };
    }
    ThreeWayPlan::Fit { la, lb, lc, df, observed: obs }
}

} // verus!
