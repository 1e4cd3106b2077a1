//! Bookkeeping for cross-experiment interaction analysis.
//!
//! When experiments run concurrently over overlapping traffic, each unit
//! lands in one cell of a k-factor grid (one factor per experiment, one level
//! per variant). The decomposition emits one term per main effect, per
//! pairwise interaction and, for three experiments, the three-way
//! interaction. This module holds the integer side of that analysis: the
//! cell and term vocabulary, the term enumeration, grid dimensions, and the
//! collapse of a grid onto one factor or a pair of factors.

pub mod bayes_common;
pub mod loglinear;

pub use bayes_common::{
    collapse_onto_key, contrast_coeffs, enumerate_terms, factor_count, key_matches, level_dims,
    term_factors, Contrast,
};
pub use loglinear::{
    collapse_onto_factor, collapse_onto_pair, levels_on, plan_three_way, ThreeWayPlan,
};

use vstd::prelude::*;

verus! {

/// One cell of the A-factor × B-factor grid for a binary (conversion) metric.
#[derive(Debug, Clone, Copy, PartialEq, Eq, Structural)]
pub struct BinaryCell {
    /// Zero-based level index on the A factor.
    pub a_level: usize,
    /// Zero-based level index on the B factor.
    pub b_level: usize,
    /// Number of units (trials) observed in this cell.
    pub n: u64,
    /// Number of successes (conversions) observed in this cell.
    pub successes: u64,
}

/// One cell of a k-factor contingency grid for a binary metric.
/// `levels[d]` is the dense 0-based level index on factor `d`.
#[derive(Debug, Clone, PartialEq, Eq)]
pub struct NdBinaryCell {
    /// Dense level index per factor, in tuple order.
    pub levels: Vec<usize>,
    /// Units (trials) in this cell.
    pub n: u64,
    /// Successes in this cell.
    pub successes: u64,
}

/// Which decomposition term a result represents. Factor indices are 0-based
/// positions in the participating-experiment tuple.
#[derive(Debug, Clone, Copy, PartialEq, Eq, Hash, Structural)]
pub enum TermKind {
    /// Single-experiment main effect.
    Main { factor: usize },
    /// Pairwise interaction between two experiments.
    TwoWay { a: usize, b: usize },
    /// Three-way interaction among three experiments.
    ThreeWay { a: usize, b: usize, c: usize },
}

/// Interaction order of a term (1 = main, 2 = pairwise, 3 = three-way).
pub open spec fn spec_order(k: TermKind) -> u8 {
    match k {
        TermKind::Main { .. } => 1,
        TermKind::TwoWay { .. } => 2,
        TermKind::ThreeWay { .. } => 3,
    }
}

/// The factor indices a term participates in, in tuple order.
pub open spec fn spec_term_factors(k: TermKind) -> Seq<usize> {
    match k {
        TermKind::Main { factor } => seq![factor],
        TermKind::TwoWay { a, b } => seq![a, b],
        TermKind::ThreeWay { a, b, c } => seq![a, b, c],
    }
}

impl TermKind {
    /// Interaction order of this term (1 = main, 2 = pairwise, 3 = three-way).
    pub fn order(&self) -> (r: u8)
        ensures
            r == spec_order(*self),
    {
        match self {
            TermKind::Main { .. } => 1,
            TermKind::TwoWay { .. } => 2,
            TermKind::ThreeWay { .. } => 3,
        }
    }
}

/// A term involves exactly as many factors as its interaction order.
pub proof fn lemma_term_factors_match_order(k: TermKind)
    ensures
        spec_term_factors(k).len() == spec_order(k),
{
}

/// `x` clamped to the `u64` range from above (saturating accumulation).
pub open spec fn saturate(x: int) -> u64 {
    if x > u64::MAX {
        u64::MAX
    } else {
        x as u64
    }
}

/// Number of A-factor levels of a two-factor grid: the largest `a_level`
/// present, plus one (0 for an empty grid).
pub open spec fn grid_rows(cells: Seq<BinaryCell>) -> int
    decreases cells.len(),
{
    if cells.len() == 0 {
        0
    } else {
        let prev = grid_rows(cells.drop_last());
        if cells.last().a_level + 1 > prev {
            cells.last().a_level + 1
        } else {
            prev
        }
    }
}

/// Number of B-factor levels of a two-factor grid.
pub open spec fn grid_cols(cells: Seq<BinaryCell>) -> int
    decreases cells.len(),
{
    if cells.len() == 0 {
        0
    } else {
        let prev = grid_cols(cells.drop_last());
        if cells.last().b_level + 1 > prev {
            cells.last().b_level + 1
        } else {
            prev
        }
    }
}

/// Total trials (or successes) of the cells at levels `(r, c)`.
pub open spec fn grid_tally(cells: Seq<BinaryCell>, r: int, c: int, successes: bool) -> int
    decreases cells.len(),
{
    if cells.len() == 0 {
        0
    } else {
        let x = cells.last();
        grid_tally(cells.drop_last(), r, c, successes) + if x.a_level == r && x.b_level == c {
            if successes {
                x.successes as int
            } else {
                x.n as int
            }
        } else {
            0int
        }
    }
}

/// Total trials over every cell of a grid.
pub open spec fn total_trials(cells: Seq<BinaryCell>) -> int
    decreases cells.len(),
{
    if cells.len() == 0 {
        0
    } else {
        total_trials(cells.drop_last()) + cells.last().n
    }
}

/// A dense two-factor grid: `n[r·cols + c]` and `successes[r·cols + c]`
/// hold the (saturating) totals of the cells at levels `(r, c)`.
#[derive(Debug, Clone, PartialEq, Eq)]
pub struct BinaryGrid {
    /// Number of A-factor levels.
    pub rows: usize,
    /// Number of B-factor levels.
    pub cols: usize,
    /// Trials per level pair, row-major.
    pub n: Vec<u64>,
    /// Successes per level pair, row-major.
    pub successes: Vec<u64>,
}

/// Which test a two-factor binary grid calls for.
#[derive(Debug, Clone, PartialEq, Eq)]
pub enum BinaryTestPlan {
    /// Too little data to test; the interaction has `df` degrees of freedom.
    Insufficient { df: u32 },
    /// A 2×2 grid: the Wald interaction contrast on proportions.
    Wald2x2 { grid: BinaryGrid, df: u32 },
    /// A general R×C grid: the Pearson chi-square on the additive fit.
    PearsonRxC { grid: BinaryGrid, df: u32 },
}

/// Minimum total trials below which no interaction is tested.
pub const MIN_TOTAL_TRIALS: u64 = 20;

/// Whether `g` is the dense tabulation of `cells`.
pub open spec fn tabulates(g: BinaryGrid, cells: Seq<BinaryCell>) -> bool {
    &&& g.rows == grid_rows(cells)
    &&& g.cols == grid_cols(cells)
    &&& g.n@.len() == g.rows * g.cols
    &&& g.successes@.len() == g.n@.len()
    &&& forall|r: int, c: int|
        0 <= r < g.rows && 0 <= c < g.cols ==> #[trigger] g.n@[r * g.cols + c] == saturate(
            grid_tally(cells, r, c, false),
        ) && g.successes@[r * g.cols + c] == saturate(grid_tally(cells, r, c, true))
}

proof fn lemma_grid_bounds(cells: Seq<BinaryCell>)
    requires
        forall|t: int|
            0 <= t < cells.len() ==> (#[trigger] cells[t]).a_level < usize::MAX
                && cells[t].b_level < usize::MAX,
    ensures
        0 <= grid_rows(cells) <= usize::MAX,
        0 <= grid_cols(cells) <= usize::MAX,
        forall|t: int|
            0 <= t < cells.len() ==> (#[trigger] cells[t]).a_level < grid_rows(cells)
                && cells[t].b_level < grid_cols(cells),
        cells.len() > 0 ==> grid_rows(cells) >= 1 && grid_cols(cells) >= 1,
    decreases cells.len(),
{
    if cells.len() > 0 {
        lemma_grid_bounds(cells.drop_last());
        assert forall|t: int| 0 <= t < cells.len() implies (#[trigger] cells[t]).a_level
            < grid_rows(cells) && cells[t].b_level < grid_cols(cells) by {
            if t < cells.len() - 1 {
                assert(cells.drop_last()[t] == cells[t]);
            }
        }
    }
}

proof fn lemma_grid_tally_nonneg(cells: Seq<BinaryCell>, r: int, c: int, successes: bool)
    ensures
        grid_tally(cells, r, c, successes) >= 0,
    decreases cells.len(),
{
    if cells.len() > 0 {
        lemma_grid_tally_nonneg(cells.drop_last(), r, c, successes);
    }
}

proof fn lemma_total_trials_prefix(cells: Seq<BinaryCell>, k: int)
    requires
        0 <= k <= cells.len(),
    ensures
        0 <= total_trials(cells.subrange(0, k)) <= total_trials(cells),
    decreases cells.len(),
{
    if k < cells.len() {
        lemma_total_trials_prefix(cells.drop_last(), k);
        assert(cells.drop_last().subrange(0, k) =~= cells.subrange(0, k));
    } else {
        assert(cells.subrange(0, k) =~= cells);
        if cells.len() > 0 {
            lemma_total_trials_prefix(cells.drop_last(), cells.len() - 1);
            assert(cells.drop_last().subrange(0, cells.len() - 1) =~= cells.drop_last());
        }
    }
}

/// The dense grid dimensions of a list of cells.
fn grid_dims(cells: &[BinaryCell]) -> (r: (usize, usize))
    requires
        forall|t: int|
            0 <= t < cells@.len() ==> (#[trigger] cells@[t]).a_level < usize::MAX
                && cells@[t].b_level < usize::MAX,
    ensures
        r.0 == grid_rows(cells@),
        r.1 == grid_cols(cells@),
{
    let mut rows: usize = 0;
    let mut cols: usize = 0;
    let mut t: usize = 0;
    while t < cells.len()
        invariant
            0 <= t <= cells@.len(),
            rows == grid_rows(cells@.subrange(0, t as int)),
            cols == grid_cols(cells@.subrange(0, t as int)),
            forall|u: int|
                0 <= u < cells@.len() ==> (#[trigger] cells@[u]).a_level < usize::MAX
                    && cells@[u].b_level < usize::MAX,
        decreases cells@.len() - t,
    {
        assert(cells@.subrange(0, t + 1).drop_last() =~= cells@.subrange(0, t as int));
        let c = cells[t];
        if c.a_level + 1 > rows {
            rows = c.a_level + 1;
        }
        if c.b_level + 1 > cols {
            cols = c.b_level + 1;
        }
        t = t + 1;
    }
    assert(cells@.subrange(0, cells@.len() as int) =~= cells@);
    (rows, cols)
}

/// Tabulate cells into the dense grid (repeated cells fold together, absent
/// level pairs count zero).
#[verifier::rlimit(30)]
#[verifier::spinoff_prover]
fn tabulate(cells: &[BinaryCell], rows: usize, cols: usize) -> (g: BinaryGrid)
    requires
        rows == grid_rows(cells@),
        cols == grid_cols(cells@),
        rows * cols <= usize::MAX,
        forall|t: int|
            0 <= t < cells@.len() ==> (#[trigger] cells@[t]).a_level < usize::MAX
                && cells@[t].b_level < usize::MAX,
    ensures
        tabulates(g, cells@),
{
    proof {
        lemma_grid_bounds(cells@);
    }
    let size: usize = rows * cols;
    let mut n: Vec<u64> = vec![0u64; size];
    let mut s: Vec<u64> = vec![0u64; size];
    let mut t: usize = 0;
    while t < cells.len()
        invariant
            0 <= t <= cells@.len(),
            size == rows * cols,
            n@.len() == size,
            s@.len() == size,
            forall|u: int|
                0 <= u < cells@.len() ==> (#[trigger] cells@[u]).a_level < rows
                    && cells@[u].b_level < cols,
            forall|k: int|
                0 <= k < size ==> #[trigger] n@[k] == saturate(
                    grid_tally(cells@.subrange(0, t as int), k / cols as int, k % cols as int, false),
                ) && s@[k] == saturate(
                    grid_tally(cells@.subrange(0, t as int), k / cols as int, k % cols as int, true),
                ),
        decreases cells@.len() - t,
    {
        let c = cells[t];
        let ai = c.a_level;
        let bi = c.b_level;
        assert(ai * cols + bi < rows * cols) by (nonlinear_arith)
            requires
                ai < rows,
                bi < cols,
        ;
        let idx = ai * cols + bi;
        let ghost pre = cells@.subrange(0, t as int);
        let ghost post = cells@.subrange(0, t + 1);
        assert(post.drop_last() =~= pre);
        assert(post.last() == c);
        proof {
            vstd::arithmetic::div_mod::lemma_fundamental_div_mod_converse(
                idx as int,
                cols as int,
                ai as int,
                bi as int,
            );
            lemma_grid_tally_nonneg(pre, ai as int, bi as int, false);
            lemma_grid_tally_nonneg(pre, ai as int, bi as int, true);
        }
        let nv = n[idx].saturating_add(c.n);
        let sv = s[idx].saturating_add(c.successes);
        let ghost n0 = n@;
        let ghost s0 = s@;
        n.set(idx, nv);
        s.set(idx, sv);
        proof {
            assert forall|k: int| 0 <= k < size implies #[trigger] n@[k] == saturate(
                grid_tally(post, k / cols as int, k % cols as int, false),
            ) && s@[k] == saturate(grid_tally(post, k / cols as int, k % cols as int, true)) by {
                lemma_grid_tally_nonneg(pre, k / cols as int, k % cols as int, false);
                lemma_grid_tally_nonneg(pre, k / cols as int, k % cols as int, true);
                assert(n0[k] == saturate(
                    grid_tally(pre, k / cols as int, k % cols as int, false),
                ));
                assert(s0[k] == saturate(
                    grid_tally(pre, k / cols as int, k % cols as int, true),
                ));
                if k == idx {
                    assert(k / cols as int == ai && k % cols as int == bi);
                    assert(grid_tally(post, ai as int, bi as int, false) == grid_tally(
                        pre,
                        ai as int,
                        bi as int,
                        false,
                    ) + c.n);
                    assert(grid_tally(post, ai as int, bi as int, true) == grid_tally(
                        pre,
                        ai as int,
                        bi as int,
                        true,
                    ) + c.successes);
                } else {
                    if k / cols as int == ai && k % cols as int == bi {
                        vstd::arithmetic::div_mod::lemma_fundamental_div_mod(k, cols as int);
                        assert(k == cols * ai + bi);
                        assert(k == idx) by (nonlinear_arith)
                            requires
                                k == cols * ai + bi,
                                idx == ai * cols + bi,
                        ;
                    }
                }
            }
        }
        t = t + 1;
    }
    assert(cells@.subrange(0, cells@.len() as int) =~= cells@);
    let ghost nf = n@;
    let ghost sf = s@;
    let g = BinaryGrid { rows, cols, n, successes: s };
    proof {
        assert forall|r: int, c: int| 0 <= r < rows && 0 <= c < cols implies #[trigger] g.n@[r
            * g.cols + c] == saturate(grid_tally(cells@, r, c, false)) && g.successes@[r * g.cols
            + c] == saturate(grid_tally(cells@, r, c, true)) by {
            let k = r * cols + c;
            assert(0 <= k < size) by (nonlinear_arith)
                requires
                    0 <= r < rows,
                    0 <= c < cols,
                    k == r * cols + c,
                    size == rows * cols,
            ;
            vstd::arithmetic::div_mod::lemma_fundamental_div_mod_converse(k, cols as int, r, c);
            assert(nf[k] == saturate(grid_tally(cells@, k / cols as int, k % cols as int, false)));
            assert(sf[k] == saturate(grid_tally(cells@, k / cols as int, k % cols as int, true)));
        }
        assert(tabulates(g, cells@));
    }
    g
}

/// Decide how the two-factor interaction of a binary metric is tested.
///
/// * An empty grid, or one with fewer than two levels on either factor, has
///   no interaction term: `Insufficient { df: 0 }`.
/// * Otherwise the interaction has `df = (rows − 1)(cols − 1)`; with fewer than
///   20 trials in total it is `Insufficient { df }`.
/// * A 2×2 grid takes the Wald contrast, any larger grid the Pearson test,
///   both on the dense tabulation of the cells.
#[verifier::spinoff_prover]
pub fn plan_binary_interaction(cells: &[BinaryCell]) -> (r: BinaryTestPlan)
    requires
        forall|t: int|
            0 <= t < cells@.len() ==> (#[trigger] cells@[t]).a_level < usize::MAX
                && cells@[t].b_level < usize::MAX,
        grid_rows(cells@) * grid_cols(cells@) <= usize::MAX,
        total_trials(cells@) <= u64::MAX,
    ensures
        ({
            let rows = grid_rows(cells@);
            let cols = grid_cols(cells@);
            let df = ((rows - 1) * (cols - 1)) as u32;
            if cells@.len() == 0 || rows < 2 || cols < 2 {
                r == (BinaryTestPlan::Insufficient { df: 0 })
            } else if total_trials(cells@) < MIN_TOTAL_TRIALS {
                r == (BinaryTestPlan::Insufficient { df })
            } else if rows == 2 && cols == 2 {
                r matches BinaryTestPlan::Wald2x2 { grid, df: d } && d == df && tabulates(
                    grid,
                    cells@,
                )
            } else {
                r matches BinaryTestPlan::PearsonRxC { grid, df: d } && d == df && tabulates(
                    grid,
                    cells@,
                )
            }
        }),
{
    if cells.len() == 0 {
        return BinaryTestPlan::Insufficient { df: 0 };
    }
    let (rows, cols) = grid_dims(cells);
    if rows < 2 || cols < 2 {
        return BinaryTestPlan::Insufficient { df: 0 };
    }
    assert((rows - 1) * (cols - 1) <= rows * cols) by (nonlinear_arith)
        requires
            rows >= 2,
            cols >= 2,
    ;
    let df = ((rows - 1) * (cols - 1)) as u32;
    let mut total: u64 = 0;
    let mut t: usize = 0;
    while t < cells.len()
        invariant
            0 <= t <= cells@.len(),
            total == total_trials(cells@.subrange(0, t as int)),
            total_trials(cells@) <= u64::MAX,
        decreases cells@.len() - t,
    {
        proof {
            assert(cells@.subrange(0, t + 1).drop_last() =~= cells@.subrange(0, t as int));
            lemma_total_trials_prefix(cells@, t + 1);
        }
        total = total + cells[t].n;
        t = t + 1;
    }
    assert(cells@.subrange(0, cells@.len() as int) =~= cells@);
    if total < MIN_TOTAL_TRIALS {
        return BinaryTestPlan::Insufficient { df };
    }
    let grid = tabulate(cells, rows, cols);
    if rows == 2 && cols == 2 {
        BinaryTestPlan::Wald2x2 { grid, df }
    } else {
        BinaryTestPlan::PearsonRxC { grid, df }
    }
}


/// The size of one cell of a two-factor grid for a continuous metric: its
/// level on each factor and its number of observations.
#[derive(Debug, Clone, Copy, PartialEq, Eq, Structural)]
pub struct CellSize {
    /// Zero-based level index on the A factor.
    pub a_level: usize,
    /// Zero-based level index on the B factor.
    pub b_level: usize,
    /// Number of observations in this cell.
    pub n: u64,
}

/// The size of one cell of a k-factor grid for a continuous metric.
#[derive(Debug, Clone, PartialEq, Eq)]
pub struct NdCellSize {
    /// Dense level index per factor, in tuple order.
    pub levels: Vec<usize>,
    /// Number of observations in this cell.
    pub n: u64,
}

/// The cells of a continuous grid, read as cells that count trials only.
pub open spec fn sized_cells(cells: Seq<CellSize>) -> Seq<BinaryCell> {
    cells.map_values(
        |c: CellSize| BinaryCell { a_level: c.a_level, b_level: c.b_level, n: c.n, successes: 0 },
    )
}

/// Whether some level pair of the grid holds no observation.
pub open spec fn has_empty_cell(cells: Seq<BinaryCell>) -> bool {
    exists|r: int, c: int|
        0 <= r < grid_rows(cells) && 0 <= c < grid_cols(cells) && #[trigger] grid_tally(
            cells,
            r,
            c,
            false,
        ) == 0
}

/// The dense cell sizes of a two-factor continuous grid, or the reason the
/// grid supports no interaction estimate.
#[derive(Debug, Clone, PartialEq, Eq)]
pub enum SizeGrid {
    /// Fewer than two levels on a factor (`df = 0`), or a level pair with no
    /// observation: the additive model is not identified. The interaction
    /// has `df` degrees of freedom.
    Incomplete { df: u32 },
    /// Every level pair observed: `n[r·cols + c]` observations at levels
    /// `(r, c)`, and `df = (rows − 1)(cols − 1)`.
    Complete { rows: usize, cols: usize, n: Vec<u64>, df: u32 },
}

/// Whether `r` is the size grid of `cells`.
pub open spec fn is_size_grid(r: SizeGrid, cells: Seq<CellSize>) -> bool {
    let g = sized_cells(cells);
    let rows = grid_rows(g);
    let cols = grid_cols(g);
    let df = ((rows - 1) * (cols - 1)) as u32;
    if cells.len() == 0 || rows < 2 || cols < 2 {
        r == (SizeGrid::Incomplete { df: 0 })
    } else if has_empty_cell(g) {
        r == (SizeGrid::Incomplete { df })
    } else {
        &&& r matches SizeGrid::Complete { rows: rr, cols: cc, n, df: d }
        &&& rr == rows && cc == cols && d == df
        &&& n@.len() == rows * cols
        &&& forall|a: int, b: int|
            0 <= a < rows && 0 <= b < cols ==> #[trigger] n@[a * cols + b] == saturate(
                grid_tally(g, a, b, false),
            )
    }
}

/// Read continuous cells as trial-counting cells.
fn to_sized_cells(cells: &[CellSize]) -> (v: Vec<BinaryCell>)
    ensures
        v@ == sized_cells(cells@),
{
    let mut v: Vec<BinaryCell> = Vec::new();
    let mut i: usize = 0;
    while i < cells.len()
        invariant
            0 <= i <= cells@.len(),
            v@.len() == i,
            forall|j: int| 0 <= j < i ==> #[trigger] v@[j] == sized_cells(cells@)[j],
        decreases cells@.len() - i,
    {
        let c = cells[i];
        v.push(BinaryCell { a_level: c.a_level, b_level: c.b_level, n: c.n, successes: 0 });
        i = i + 1;
    }
    assert(v@ =~= sized_cells(cells@));
    v
}

/// Tabulate the sizes of a two-factor continuous grid.
///
/// * An empty grid, or one with fewer than two levels on either factor, has
///   no interaction term: `Incomplete { df: 0 }`.
/// * Otherwise the interaction has `df = (rows − 1)(cols − 1)`; a level pair
///   with no observation makes it `Incomplete { df }`.
/// * Otherwise the grid is `Complete`, with the summed size of the cells at
///   every level pair (repeated cells fold together).
#[verifier::spinoff_prover]
pub fn size_grid(cells: &[CellSize]) -> (r: SizeGrid)
    requires
        forall|t: int|
            0 <= t < cells@.len() ==> (#[trigger] cells@[t]).a_level < usize::MAX
                && cells@[t].b_level < usize::MAX,
        grid_rows(sized_cells(cells@)) * grid_cols(sized_cells(cells@)) <= usize::MAX,
    ensures
        is_size_grid(r, cells@),
{
    let sized = to_sized_cells(cells);
    let ghost g = sized_cells(cells@);
    assert(forall|t: int|
        0 <= t < g.len() ==> (#[trigger] g[t]).a_level < usize::MAX && g[t].b_level
            < usize::MAX) by {
        assert forall|t: int| 0 <= t < g.len() implies (#[trigger] g[t]).a_level < usize::MAX
            && g[t].b_level < usize::MAX by {
            assert(g[t].a_level == cells@[t].a_level);
        }
    }
    if sized.len() == 0 {
        return SizeGrid::Incomplete { df: 0 };
    }
    let (rows, cols) = grid_dims(sized.as_slice());
    if rows < 2 || cols < 2 {
        return SizeGrid::Incomplete { df: 0 };
    }
    assert((rows - 1) * (cols - 1) <= rows * cols) by (nonlinear_arith)
        requires
            rows >= 2,
            cols >= 2,
    ;
    let df = ((rows - 1) * (cols - 1)) as u32;
    let grid = tabulate(sized.as_slice(), rows, cols);
    let size: usize = rows * cols;
    let mut k: usize = 0;
    while k < size
        invariant
            0 <= k <= size,
            size == rows * cols,
            g == sized_cells(cells@),
            g.len() > 0,
            tabulates(grid, g),
            rows == grid_rows(g),
            cols == grid_cols(g),
            rows >= 2,
            cols >= 2,
            df == ((rows - 1) * (cols - 1)) as u32,
            forall|j: int| 0 <= j < k ==> #[trigger] grid.n@[j] != 0,
        decreases size - k,
    {
        if grid.n[k] == 0 {
            proof {
                let a = k as int / cols as int;
                let b = k as int % cols as int;
                vstd::arithmetic::div_mod::lemma_fundamental_div_mod(k as int, cols as int);
                assert(k == cols * a + b);
                assert(0 <= a < rows) by (nonlinear_arith)
                    requires
                        k == cols * a + b,
                        0 <= b < cols,
                        0 <= k < rows * cols,
                        cols > 0,
                ;
                assert(a * cols + b == k) by (nonlinear_arith)
                    requires
                        k == cols * a + b,
                ;
                assert(grid.n@[a * cols + b] == saturate(grid_tally(g, a, b, false)));
                lemma_grid_tally_nonneg(g, a, b, false);
                assert(grid_tally(g, a, b, false) == 0);
                assert(has_empty_cell(g));
            }
            return SizeGrid::Incomplete { df };
        }
        k = k + 1;
    }
    proof {
        assert forall|a: int, b: int| 0 <= a < rows && 0 <= b < cols implies grid.n@[a * cols
            + b] == saturate(#[trigger] grid_tally(g, a, b, false)) && grid_tally(g, a, b, false)
            != 0 by {
            let j = a * cols + b;
            assert(0 <= j < size) by (nonlinear_arith)
                requires
                    0 <= a < rows,
                    0 <= b < cols,
                    j == a * cols + b,
                    size == rows * cols,
            ;
            assert(grid.n@[j] != 0);
            lemma_grid_tally_nonneg(g, a, b, false);
            assert(grid.n@[a * cols + b] == saturate(grid_tally(g, a, b, false)));
        }
        assert(!has_empty_cell(g));
    }
    SizeGrid::Complete { rows, cols, n: grid.n, df }
}

/// Which test a two-factor continuous grid calls for.
#[derive(Debug, Clone, PartialEq, Eq)]
pub enum ContinuousTestPlan {
    /// Too little data to test; the interaction has `df` degrees of freedom.
    Insufficient { df: u32 },
    /// The two-way ANOVA interaction F-test on a complete, replicated grid:
    /// `n[r·cols + c]` observations at levels `(r, c)`, `df` interaction and
    /// `df_error` residual degrees of freedom.
    Anova { rows: usize, cols: usize, n: Vec<u64>, df: u32, df_error: u128 },
}

/// Decide how the two-factor interaction of a continuous metric is tested.
///
/// * An incomplete grid (see [`size_grid`]) is `Insufficient`, with the
///   grid's `df`.
/// * Without more observations than level pairs there is no replication to
///   estimate the error: `Insufficient { df }`.
/// * Otherwise the ANOVA runs on the dense cell sizes, with
///   `total − rows·cols` residual degrees of freedom.
#[verifier::spinoff_prover]
pub fn plan_continuous_interaction(cells: &[CellSize]) -> (r: ContinuousTestPlan)
    requires
        forall|t: int|
            0 <= t < cells@.len() ==> (#[trigger] cells@[t]).a_level < usize::MAX
                && cells@[t].b_level < usize::MAX,
        grid_rows(sized_cells(cells@)) * grid_cols(sized_cells(cells@)) <= usize::MAX,
    ensures
        ({
            let g = sized_cells(cells@);
            let rows = grid_rows(g);
            let cols = grid_cols(g);
            let df = ((rows - 1) * (cols - 1)) as u32;
            if cells@.len() == 0 || rows < 2 || cols < 2 {
                r == (ContinuousTestPlan::Insufficient { df: 0 })
            } else if has_empty_cell(g) || total_trials(g) <= rows * cols {
                r == (ContinuousTestPlan::Insufficient { df })
            } else {
                &&& r matches ContinuousTestPlan::Anova { rows: rr, cols: cc, n, df: d, df_error }
                &&& rr == rows && cc == cols && d == df
                &&& df_error == total_trials(g) - rows * cols
                &&& n@.len() == rows * cols
                &&& forall|a: int, b: int|
                    0 <= a < rows && 0 <= b < cols ==> #[trigger] n@[a * cols + b] == saturate(
                        grid_tally(g, a, b, false),
                    )
            }
        }),
{
    let (rows, cols, n, df) = match size_grid(cells) {
        SizeGrid::Incomplete { df } => {
            return ContinuousTestPlan::Insufficient { df };
        },
        SizeGrid::Complete { rows, cols, n, df } => (rows, cols, n, df),
    };
    let ghost g = sized_cells(cells@);
    let mut total: u128 = 0;
    let mut t: usize = 0;
    while t < cells.len()
        invariant
            0 <= t <= g.len(),
            g.len() == cells@.len(),
            g == sized_cells(cells@),
            total == total_trials(g.subrange(0, t as int)),
            total <= t * u64::MAX,
        decreases g.len() - t,
    {
        proof {
            assert(g.subrange(0, t + 1).drop_last() =~= g.subrange(0, t as int));
            assert(g.subrange(0, t + 1).last() == g[t as int]);
            assert((t + 1) * u64::MAX <= u128::MAX) by (nonlinear_arith)
                requires
                    t < usize::MAX,
                    usize::MAX <= u64::MAX,
            ;
        }
        total = total + cells[t].n as u128;
        t = t + 1;
    }
    assert(g.subrange(0, g.len() as int) =~= g);
    let cell_count = (rows * cols) as u128;
    if total <= cell_count {
        return ContinuousTestPlan::Insufficient { df };
    }
    ContinuousTestPlan::Anova { rows, cols, n, df, df_error: total - cell_count }
}

/// A populated cell that carries factors `a` and `b`, read on those two
/// factors; `None` for a cell with no observation or too few factors.
pub open spec fn pair_cell(c: NdCellSize, a: int, b: int) -> Option<CellSize> {
    if a < c.levels@.len() && b < c.levels@.len() && c.n > 0 {
        Some(CellSize { a_level: c.levels@[a], b_level: c.levels@[b], n: c.n })
    } else {
        None
    }
}

/// The populated cells of a k-factor grid that carry factors `a` and `b`,
/// in order, read on those two factors.
pub open spec fn spec_pair_sizes(cells: Seq<NdCellSize>, a: int, b: int) -> Seq<CellSize> {
    cells.filter_map(|c: NdCellSize| pair_cell(c, a, b))
}

/// The populated cells of a k-factor grid that carry factors `a` and `b`,
/// in order, read on those two factors.
pub fn pair_sizes(cells: &[NdCellSize], a: usize, b: usize) -> (r: Vec<CellSize>)
    ensures
        r@ == spec_pair_sizes(cells@, a as int, b as int),
{
    let ghost f = |c: NdCellSize| pair_cell(c, a as int, b as int);
    let mut v: Vec<CellSize> = Vec::new();
    let mut i: usize = 0;
    while i < cells.len()
        invariant
            0 <= i <= cells@.len(),
            f == (|c: NdCellSize| pair_cell(c, a as int, b as int)),
            v@ == cells@.take(i as int).filter_map(f),
        decreases cells@.len() - i,
    {
        proof {
            cells@.lemma_filter_map_take_succ(f, i as int);
        }
        let c = &cells[i];
        if a < c.levels.len() && b < c.levels.len() && c.n > 0 {
            v.push(CellSize { a_level: c.levels[a], b_level: c.levels[b], n: c.n });
        }
        i = i + 1;
    }
    assert(cells@.take(cells@.len() as int) =~= cells@);
    v
}

/// Tabulate the sizes of a k-factor continuous grid collapsed onto factors
/// `a` and `b`, counting only the populated cells that carry both factors:
/// the [`size_grid`] of [`pair_sizes`].
pub fn pair_size_grid(cells: &[NdCellSize], a: usize, b: usize) -> (r: SizeGrid)
    requires
        forall|t: int, d: int|
            0 <= t < cells@.len() && 0 <= d < cells@[t].levels@.len() ==> #[trigger] cells@[t].levels@[d]
                < usize::MAX,
        grid_rows(sized_cells(spec_pair_sizes(cells@, a as int, b as int))) * grid_cols(
            sized_cells(spec_pair_sizes(cells@, a as int, b as int)),
        ) <= usize::MAX,
    ensures
        is_size_grid(r, spec_pair_sizes(cells@, a as int, b as int)),
{
    let pairs = pair_sizes(cells, a, b);
    proof {
        let f = |c: NdCellSize| pair_cell(c, a as int, b as int);
        assert(pairs@ == cells@.filter_map(f));
        assert forall|t: int| 0 <= t < pairs@.len() implies (#[trigger] pairs@[t]).a_level
            < usize::MAX && pairs@[t].b_level < usize::MAX by {
            let x = pairs@[t];
            assert(cells@.filter_map(f).contains(x));
            cells@.lemma_filter_map_contains(f, x);
            let c = choose|c: NdCellSize| #[trigger] cells@.contains(c) && f(c) == Some(x);
            let u = choose|u: int| 0 <= u < cells@.len() && cells@[u] == c;
            assert(cells@[u].levels@[a as int] < usize::MAX);
            assert(cells@[u].levels@[b as int] < usize::MAX);
        }
    }
    size_grid(pairs.as_slice())
}

} // verus!
