//! Term enumeration and grid dimensions shared by the decomposition of a
//! k-factor grid into main effects and interactions.

use vstd::prelude::*;

use super::{saturate, spec_order, spec_term_factors, NdBinaryCell, TermKind};

verus! {

/// The factor indices a term participates in (in tuple order).
pub fn term_factors(kind: &TermKind) -> (r: Vec<usize>)
    ensures
        r@ == spec_term_factors(*kind),
{
    match *kind {
        TermKind::Main { factor } => vec![factor],
        TermKind::TwoWay { a, b } => vec![a, b],
        TermKind::ThreeWay { a, b, c } => vec![a, b, c],
    }
}

/// The pairwise terms `TwoWay { a, b }` for `b` in `a + 1 .. n`, in order.
pub open spec fn pair_row(a: nat, n: nat) -> Seq<TermKind> {
    Seq::new(
        (n - a - 1) as nat,
        |j: int| TermKind::TwoWay { a: a as usize, b: (a + 1 + j) as usize },
    )
}

/// All pairwise terms with first factor below `a`, in lexicographic order.
pub open spec fn pairs_before(a: nat, n: nat) -> Seq<TermKind>
    decreases a,
{
    if a == 0 {
        Seq::empty()
    } else {
        pairs_before((a - 1) as nat, n) + pair_row((a - 1) as nat, n)
    }
}

/// The terms emitted for an `order`-factor decomposition: every main effect
/// `Main { 0..order }`, every pair `TwoWay { a < b }` in lexicographic order,
/// and — when `order >= 3` — `ThreeWay { 0, 1, 2 }`.
pub open spec fn spec_enumerate_terms(order: nat) -> Seq<TermKind> {
    Seq::new(order, |f: int| TermKind::Main { factor: f as usize }) + pairs_before(order, order)
        + if order >= 3 {
        seq![TermKind::ThreeWay { a: 0, b: 1, c: 2 }]
    } else {
        Seq::empty()
    }
}

/// Enumerate exactly the terms for the requested `order`: `Main{0..order}`,
/// every `TwoWay{a<b}` in `0..order`, and — when `order >= 3` — the
/// `ThreeWay{0,1,2}`.
#[verifier::spinoff_prover]
pub fn enumerate_terms(order: usize) -> (r: Vec<TermKind>)
    ensures
        r@ == spec_enumerate_terms(order as nat),
{
    let mut terms: Vec<TermKind> = Vec::new();
    let mut f: usize = 0;
    while f < order
        invariant
            0 <= f <= order,
            terms@ == Seq::new(f as nat, |i: int| TermKind::Main { factor: i as usize }),
        decreases order - f,
    {
        terms.push(TermKind::Main { factor: f });
        f = f + 1;
        assert(terms@ =~= Seq::new(f as nat, |i: int| TermKind::Main { factor: i as usize }));
    }
    let ghost mains = terms@;
    let mut a: usize = 0;
    while a < order
        invariant
            0 <= a <= order,
            mains == Seq::new(order as nat, |i: int| TermKind::Main { factor: i as usize }),
            terms@ == mains + pairs_before(a as nat, order as nat),
        decreases order - a,
    {
        let ghost row_start = terms@;
        let mut b: usize = a + 1;
        while b < order
            invariant
                a < order,
                a + 1 <= b <= order,
                terms@ == row_start + pair_row(a as nat, order as nat).subrange(0, b - a - 1),
            decreases order - b,
        {
            terms.push(TermKind::TwoWay { a, b });
            b = b + 1;
            assert(terms@ =~= row_start + pair_row(a as nat, order as nat).subrange(
                0,
                b - a - 1,
            ));
        }
        assert(pair_row(a as nat, order as nat).subrange(0, order - a - 1) =~= pair_row(
            a as nat,
            order as nat,
        ));
        a = a + 1;
        assert(terms@ =~= mains + pairs_before(a as nat, order as nat));
    }
    if order >= 3 {
        terms.push(TermKind::ThreeWay { a: 0, b: 1, c: 2 });
    }
    assert(terms@ =~= spec_enumerate_terms(order as nat));
    terms
}

/// The pairwise term for factors `a` and `b`.
pub open spec fn pair_term(a: nat, b: nat) -> TermKind {
    TermKind::TwoWay { a: a as usize, b: b as usize }
}

/// The main-effect term of factor `f`.
pub open spec fn main_term(f: nat) -> TermKind {
    TermKind::Main { factor: f as usize }
}

/// Whether a term's factors are strictly increasing and all below `order`.
pub open spec fn term_well_formed(k: TermKind, order: nat) -> bool {
    match k {
        TermKind::Main { factor } => factor < order,
        TermKind::TwoWay { a, b } => a < b < order,
        TermKind::ThreeWay { a, b, c } => a < b < c < order,
    }
}

proof fn lemma_pairs_before(a: nat, n: nat)
    requires
        a <= n <= usize::MAX,
    ensures
        2 * pairs_before(a, n).len() == a * (2 * n - a - 1),
        forall|i: int|
            0 <= i < pairs_before(a, n).len() ==> (#[trigger] pairs_before(a, n)[i]) is TwoWay
                && term_well_formed(pairs_before(a, n)[i], n) && pairs_before(a, n)[i]->TwoWay_a < a,
    decreases a,
{
    if a > 0 {
        let prev = pairs_before((a - 1) as nat, n);
        let row = pair_row((a - 1) as nat, n);
        lemma_pairs_before((a - 1) as nat, n);
        assert(pairs_before(a, n) == prev + row);
        assert(pairs_before(a, n).len() == prev.len() + row.len());
        assert(2 * (prev.len() + row.len()) == a * (2 * n - a - 1)) by (nonlinear_arith)
            requires
                2 * prev.len() == (a - 1) * (2 * n - (a - 1) - 1),
                row.len() == n - a,
                a >= 1,
                a <= n,
        ;
        assert forall|i: int|
            0 <= i < pairs_before(a, n).len() implies (#[trigger] pairs_before(a, n)[i]) is TwoWay
            && term_well_formed(pairs_before(a, n)[i], n) && pairs_before(a, n)[i]->TwoWay_a < a by {
            if i >= prev.len() {
                assert(pairs_before(a, n)[i] == row[i - prev.len()]);
            } else {
                assert(pairs_before(a, n)[i] == prev[i]);
            }
        }
    } else {
        assert(a * (2 * n - a - 1) == 0) by (nonlinear_arith)
            requires
                a == 0,
        ;
    }

}

/// The decomposition of an `order`-factor grid has `order` main effects,
/// `order·(order−1)/2` pairwise terms and one three-way term when
/// `order >= 3`; every term's factors are strictly increasing and below
/// `order`.
pub proof fn lemma_enumerate_terms_shape(order: nat)
    requires
        order <= usize::MAX,
    ensures
        2 * spec_enumerate_terms(order).len() == 2 * order + order * (order - 1) + if order >= 3 {
            2int
        } else {
            0int
        },
        forall|i: int|
            0 <= i < spec_enumerate_terms(order).len() ==> term_well_formed(
                #[trigger] spec_enumerate_terms(order)[i],
                order,
            ),
        forall|i: int|
            0 <= i < order ==> spec_enumerate_terms(order)[i] == main_term(i as nat),
{
    lemma_pairs_before(order, order);
    let mains = Seq::new(order, |f: int| TermKind::Main { factor: f as usize });
    let pairs = pairs_before(order, order);
    assert(order * (2 * order - order - 1) == order * (order - 1)) by (nonlinear_arith);
    assert forall|i: int|
        0 <= i < spec_enumerate_terms(order).len() implies term_well_formed(
        #[trigger] spec_enumerate_terms(order)[i],
        order,
    ) by {
        if i < order {
        } else if i < order + pairs.len() {
            assert(spec_enumerate_terms(order)[i] == pairs[i - order]);
        }
    }
}

/// Every pair of distinct factors below `order` appears as a pairwise term.
pub proof fn lemma_enumerate_terms_covers_pairs(order: nat, a: nat, b: nat)
    requires
        a < b < order <= usize::MAX,
    ensures
        spec_enumerate_terms(order).contains(pair_term(a, b)),
{
    lemma_pairs_before(order, order);
    lemma_pair_in_prefix(a + 1, order, a, b);
    let pairs = pairs_before(order, order);
    let i = choose|i: int| 0 <= i < pairs.len() && pairs[i] == pair_term(a, b);
    assert(spec_enumerate_terms(order)[order + i] == pairs[i]);
}

proof fn lemma_pair_in_prefix(k: nat, n: nat, a: nat, b: nat)
    requires
        a < k <= n <= usize::MAX,
        a < b < n,
    ensures
        exists|i: int|
            0 <= i < pairs_before(n, n).len() && pairs_before(n, n)[i] == pair_term(a, b),
    decreases n - k,
{
    lemma_pair_in_rows(k, n, a, b);
    lemma_prefix_of_pairs(k, n);
    let w = choose|i: int|
        0 <= i < pairs_before(k, n).len() && pairs_before(k, n)[i] == pair_term(a, b);
    assert(pairs_before(n, n)[w] == pairs_before(k, n)[w]);
}

proof fn lemma_pair_in_rows(k: nat, n: nat, a: nat, b: nat)
    requires
        a < k <= n <= usize::MAX,
        a < b < n,
    ensures
        exists|i: int|
            0 <= i < pairs_before(k, n).len() && pairs_before(k, n)[i] == pair_term(a, b),
    decreases k,
{
    let prev = pairs_before((k - 1) as nat, n);
    let row = pair_row((k - 1) as nat, n);
    if a == k - 1 {
        let j = b - a - 1;
        assert(row[j] == pair_term(a, b));
        assert(pairs_before(k, n)[prev.len() + j] == row[j]);
    } else {
        lemma_pair_in_rows((k - 1) as nat, n, a, b);
        let w = choose|i: int|
            0 <= i < prev.len() && prev[i] == pair_term(a, b);
        assert(pairs_before(k, n)[w] == prev[w]);
    }
}

proof fn lemma_prefix_of_pairs(k: nat, n: nat)
    requires
        k <= n,
    ensures
        pairs_before(k, n).len() <= pairs_before(n, n).len(),
        forall|i: int|
            0 <= i < pairs_before(k, n).len() ==> pairs_before(n, n)[i] == #[trigger] pairs_before(
                k,
                n,
            )[i],
    decreases n - k,
{
    if k < n {
        lemma_prefix_of_pairs(k + 1, n);
        assert forall|i: int| 0 <= i < pairs_before(k, n).len() implies pairs_before(n, n)[i]
            == #[trigger] pairs_before(k, n)[i] by {
            assert(pairs_before(k + 1, n)[i] == pairs_before(k, n)[i]);
        }
    }
}

/// The number of factors of a grid, read from the lengths of its cells'
/// level tuples: `None` for an empty or ragged grid, or one with zero factors.
pub open spec fn spec_factor_count(lens: Seq<usize>) -> Option<usize> {
    if lens.len() == 0 {
        None
    } else if exists|i: int| 0 <= i < lens.len() && #[trigger] lens[i] != lens[0] {
        None
    } else if lens[0] == 0 {
        None
    } else {
        Some(lens[0])
    }
}

/// Number of factors (interaction order of the data) from the cell level
/// tuple lengths. Returns `None` for an empty or ragged grid.
pub fn factor_count(level_lens: &[usize]) -> (r: Option<usize>)
    ensures
        r == spec_factor_count(level_lens@),
{
    let mut k: Option<usize> = None;
    let mut i: usize = 0;
    while i < level_lens.len()
        invariant
            0 <= i <= level_lens@.len(),
            i == 0 ==> k is None,
            i > 0 ==> k == Some(level_lens@[0]),
            forall|j: int| 0 <= j < i ==> #[trigger] level_lens@[j] == level_lens@[0],
        decreases level_lens@.len() - i,
    {
        let len = level_lens[i];
        match k {
            None => {
                k = Some(len);
            },
            Some(prev) => {
                if prev != len {
                    return None;
                }
            },
        }
        i = i + 1;
    }
    match k {
        Some(v) => if v >= 1 {
            Some(v)
        } else {
            None
        },
        None => None,
    }
}

/// The number of levels present on factor `f`: the largest level index on
/// `f` among tuples that carry factor `f`, plus one; 0 when none does.
pub open spec fn spec_level_count(tuples: Seq<Seq<usize>>, f: int) -> int
    decreases tuples.len(),
{
    if tuples.len() == 0 {
        0
    } else {
        let prev = spec_level_count(tuples.drop_last(), f);
        let t = tuples.last();
        if 0 <= f < t.len() && t[f] + 1 > prev {
            t[f] + 1
        } else {
            prev
        }
    }
}

/// The level count of a factor fits a `usize` and exceeds every level index
/// present on that factor.
pub proof fn lemma_level_count_bounds(tuples: Seq<Seq<usize>>, f: int)
    requires
        forall|t: int, d: int|
            0 <= t < tuples.len() && 0 <= d < tuples[t].len() ==> #[trigger] tuples[t][d]
                < usize::MAX,
    ensures
        0 <= spec_level_count(tuples, f) <= usize::MAX,
        forall|t: int|
            0 <= t < tuples.len() && 0 <= f < tuples[t].len() ==> #[trigger] tuples[t][f]
                < spec_level_count(tuples, f),
    decreases tuples.len(),
{
    if tuples.len() > 0 {
        lemma_level_count_bounds(tuples.drop_last(), f);
        assert forall|t: int|
            0 <= t < tuples.len() && 0 <= f < tuples[t].len() implies #[trigger] tuples[t][f]
            < spec_level_count(tuples, f) by {
            if t < tuples.len() - 1 {
                assert(tuples.drop_last()[t] == tuples[t]);
            }
        }
    }
}

/// Maximum level index (+1, i.e. number of levels) present on each of the
/// `k` factors.
#[verifier::spinoff_prover]
pub fn level_dims(level_tuples: &[Vec<usize>], k: usize) -> (dims: Vec<usize>)
    requires
        forall|t: int| 0 <= t < level_tuples@.len() ==> (#[trigger] level_tuples@[t])@.len() <= k,
        forall|t: int, d: int|
            0 <= t < level_tuples@.len() && 0 <= d < level_tuples@[t]@.len() ==> #[trigger] level_tuples@[t]@[d]
                < usize::MAX,
    ensures
        dims@.len() == k,
        forall|d: int|
            0 <= d < k ==> #[trigger] dims@[d] == spec_level_count(
                level_tuples@.map_values(|v: Vec<usize>| v@),
                d,
            ),
{
    let ghost tuples = level_tuples@.map_values(|v: Vec<usize>| v@);
    let mut dims: Vec<usize> = vec![0usize; k];
    let mut t: usize = 0;
    while t < level_tuples.len()
        invariant
            tuples == level_tuples@.map_values(|v: Vec<usize>| v@),
            0 <= t <= level_tuples@.len(),
            dims@.len() == k,
            forall|d: int| 0 <= d < k ==> #[trigger] dims@[d] == spec_level_count(tuples.subrange(0, t as int), d),
            forall|u: int| 0 <= u < level_tuples@.len() ==> (#[trigger] level_tuples@[u])@.len() <= k,
            forall|u: int, d: int|
                0 <= u < level_tuples@.len() && 0 <= d < level_tuples@[u]@.len() ==> #[trigger] level_tuples@[u]@[d]
                    < usize::MAX,
        decreases level_tuples@.len() - t,
    {
        let levels = &level_tuples[t];
        assert(tuples.subrange(0, t + 1).drop_last() =~= tuples.subrange(0, t as int));
        assert(tuples.subrange(0, t + 1).last() == levels@);
        let mut d: usize = 0;
        while d < levels.len()
            invariant
                0 <= d <= levels@.len(),
                levels@.len() <= k,
                dims@.len() == k,
                forall|e: int| 0 <= e < levels@.len() ==> #[trigger] levels@[e] < usize::MAX,
                forall|e: int| 0 <= e < d ==> #[trigger] dims@[e] == spec_level_count(tuples.subrange(0, t + 1), e),
                forall|e: int| d <= e < k ==> #[trigger] dims@[e] == spec_level_count(tuples.subrange(0, t as int), e),
                t < tuples.len(),
                tuples.len() == level_tuples@.len(),
                tuples.subrange(0, t + 1).drop_last() == tuples.subrange(0, t as int),
                tuples.subrange(0, t + 1).last() == levels@,
            decreases levels@.len() - d,
        {
            let lv = levels[d];
            if lv + 1 > dims[d] {
                dims.set(d, lv + 1);
            }
            d = d + 1;
        }
        t = t + 1;
    }
    assert(tuples.subrange(0, level_tuples@.len() as int) =~= tuples);
    dims
}

/// A term's linear contrast over the collapsed grid of its factors: cell
/// `coeffs[i].0` (one level per participating factor, in tuple order) carries
/// the coefficient `coeffs[i].1 / denominator`. Cells are listed in
/// lexicographic key order and every listed coefficient is nonzero.
#[derive(Debug, Clone, PartialEq, Eq)]
pub struct Contrast {
    /// Common denominator of every coefficient (at least 1).
    pub denominator: u64,
    /// `(level key, numerator)` per participating cell.
    pub coeffs: Vec<(Vec<usize>, i128)>,
}

/// Weight of level `l` of an `n`-level factor in the averaged pairwise
/// contrast: `1 − n` at the anchor level 0, `1` elsewhere.
pub open spec fn spread_weight(n: int, l: int) -> int {
    if l == 0 {
        1 - n
    } else {
        1
    }
}

/// Sign of corner `k` (bits `k / 4`, `(k / 2) % 2`, `k % 2`: 1 for the top
/// level, 0 for level 0) of the 2×2×2 cube: `(−1)^(number of coordinates at
/// level 0)`.
pub open spec fn corner_sign(k: int) -> int {
    let zeros = (1 - k / 4) + (1 - (k / 2) % 2) + (1 - k % 2);
    if zeros % 2 == 0 {
        1
    } else {
        -1
    }
}

/// The contrast of `kind` over a grid with `dims[f]` levels on factor `f`,
/// as `(denominator, [(key, numerator)])`, or `None` when a participating
/// factor is absent or has fewer than two levels.
///
/// * `Main { f }` (top level `t = dims[f] − 1`): `[0] ↦ −1`, `[t] ↦ +1`.
/// * `TwoWay { a, b }`: the mean of the elementary 2×2 contrasts
///   `(e[i][j] − e[i][0]) − (e[0][j] − e[0][0])` over `i, j ≥ 1`; every cell
///   `[i, j]` of the `dims[a] × dims[b]` grid, row-major, with numerator
///   `spread_weight(dims[a], i) · spread_weight(dims[b], j)` over the
///   denominator `(dims[a] − 1)(dims[b] − 1)`.
/// * `ThreeWay { a, b, c }`: the eight corners of the cube spanned by level 0
///   and the top level of each factor, in lexicographic order; a corner's sign
///   is `(−1)^(number of coordinates at level 0)`.
pub open spec fn spec_contrast(kind: TermKind, dims: Seq<usize>) -> Option<
    (int, Seq<(Seq<usize>, int)>),
> {
    match kind {
        TermKind::Main { factor } => if factor < dims.len() && dims[factor as int] >= 2 {
            Some(
                (
                    1,
                    seq![(seq![0usize], -1int), (seq![(dims[factor as int] - 1) as usize], 1int)],
                ),
            )
        } else {
            None
        },
        TermKind::TwoWay { a, b } => if a < dims.len() && b < dims.len() && dims[a as int] >= 2
            && dims[b as int] >= 2 {
            let na = dims[a as int] as int;
            let nb = dims[b as int] as int;
            Some(
                (
                    (na - 1) * (nb - 1),
                    Seq::new(
                        (na * nb) as nat,
                        |k: int|
                            (
                                seq![(k / nb) as usize, (k % nb) as usize],
                                spread_weight(na, k / nb) * spread_weight(nb, k % nb),
                            ),
                    ),
                ),
            )
        } else {
            None
        },
        TermKind::ThreeWay { a, b, c } => if a < dims.len() && b < dims.len() && c < dims.len()
            && dims[a as int] >= 2 && dims[b as int] >= 2 && dims[c as int] >= 2 {
            let ta = dims[a as int] - 1;
            let tb = dims[b as int] - 1;
            let tc = dims[c as int] - 1;
            Some(
                (
                    1,
                    Seq::new(
                        8,
                        |k: int|
                            (
                                seq![
                                    ((k / 4) * ta) as usize,
                                    (((k / 2) % 2) * tb) as usize,
                                    ((k % 2) * tc) as usize,
                                ],
                                corner_sign(k),
                            ),
                    ),
                ),
            )
        } else {
            None
        },
    }
}

/// Whether `c` is, entry for entry, the contrast `(den, entries)`.
pub open spec fn contrast_is(c: Contrast, den: int, entries: Seq<(Seq<usize>, int)>) -> bool {
    &&& c.denominator == den
    &&& c.coeffs@.len() == entries.len()
    &&& forall|k: int|
        0 <= k < entries.len() ==> (#[trigger] c.coeffs@[k]).0@ == entries[k].0 && c.coeffs@[k].1
            == entries[k].1
}

/// Build the linear contrast of `kind` over a grid whose factor `f` has
/// `dims[f]` levels (see [`spec_contrast`]); `None` when a participating
/// factor is absent or has fewer than two levels.
#[verifier::spinoff_prover]
pub fn contrast_coeffs(kind: &TermKind, dims: &[usize]) -> (r: Option<Contrast>)
    requires
        (match *kind {
            TermKind::TwoWay { a, b } => a < dims@.len() && b < dims@.len() ==> dims@[a as int]
                * dims@[b as int] <= usize::MAX,
            _ => true,
        }),
    ensures
        (match spec_contrast(*kind, dims@) {
            None => r is None,
            Some((den, entries)) => r matches Some(c) && contrast_is(c, den, entries),
        }),
{
    match *kind {
        TermKind::Main { factor } => {
            if factor >= dims.len() {
                return None;
            }
            let levels = dims[factor];
            if levels < 2 {
                return None;
            }
            let top = levels - 1;
            let coeffs = vec![(vec![0usize], -1i128), (vec![top], 1i128)];
            let c = Contrast { denominator: 1, coeffs };
            proof {
                let entries = spec_contrast(*kind, dims@)->Some_0.1;
                assert(c.coeffs@[0].0@ =~= entries[0].0);
                assert(c.coeffs@[1].0@ =~= entries[1].0);
            }
            Some(c)
        },
        TermKind::TwoWay { a, b } => {
            if a >= dims.len() || b >= dims.len() {
                return None;
            }
            let na = dims[a];
            let nb = dims[b];
            if na < 2 || nb < 2 {
                return None;
            }
            let ghost entries = spec_contrast(*kind, dims@)->Some_0.1;
            assert((na - 1) * (nb - 1) <= na * nb) by (nonlinear_arith)
                requires
                    na >= 2,
                    nb >= 2,
            ;
            let pairs: usize = (na - 1) * (nb - 1);
            let mut coeffs: Vec<(Vec<usize>, i128)> = Vec::new();
            let mut i: usize = 0;
            while i < na
                invariant
                    2 <= na,
                    2 <= nb,
                    na * nb <= usize::MAX,
                    pairs == (na - 1) * (nb - 1),
                    entries.len() == na * nb,
                    forall|k: int|
                        0 <= k < na * nb ==> #[trigger] entries[k] == (
                            seq![(k / nb as int) as usize, (k % nb as int) as usize],
                            spread_weight(na as int, k / nb as int) * spread_weight(
                                nb as int,
                                k % nb as int,
                            ),
                        ),
                    0 <= i <= na,
                    coeffs@.len() == i * nb,
                    forall|k: int|
                        0 <= k < i * nb ==> (#[trigger] coeffs@[k]).0@ == entries[k].0
                            && coeffs@[k].1 == entries[k].1,
                decreases na - i,
            {
                let wi: i128 = if i == 0 {
                    1 - (na as i128)
                } else {
                    1
                };
                let mut j: usize = 0;
                while j < nb
                    invariant
                        2 <= na,
                        2 <= nb,
                        na * nb <= usize::MAX,
                        pairs == (na - 1) * (nb - 1),
                        entries.len() == na * nb,
                        forall|k: int|
                            0 <= k < na * nb ==> #[trigger] entries[k] == (
                                seq![(k / nb as int) as usize, (k % nb as int) as usize],
                                spread_weight(na as int, k / nb as int) * spread_weight(
                                    nb as int,
                                    k % nb as int,
                                ),
                            ),
                        0 <= i < na,
                        wi == spread_weight(na as int, i as int),
                        0 <= j <= nb,
                        coeffs@.len() == i * nb + j,
                        forall|k: int|
                            0 <= k < i * nb + j ==> (#[trigger] coeffs@[k]).0@ == entries[k].0
                                && coeffs@[k].1 == entries[k].1,
                    decreases nb - j,
                {
                    let wj: i128 = if j == 0 {
                        1 - (nb as i128)
                    } else {
                        1
                    };
                    assert(-(pairs as int) <= wi * wj <= pairs) by (nonlinear_arith)
                        requires
                            1 - na <= wi <= 1,
                            wi == 1 || wi == 1 - na,
                            wj == 1 || wj == 1 - nb,
                            pairs == (na - 1) * (nb - 1),
                            na >= 2,
                            nb >= 2,
                    ;
                    let w = wi * wj;
                    let ghost k = i * nb + j;
                    assert(k < na * nb) by (nonlinear_arith)
                        requires
                            k == i * nb + j,
                            i < na,
                            j < nb,
                    ;
                    proof {
                        vstd::arithmetic::div_mod::lemma_fundamental_div_mod_converse(
                            k as int,
                            nb as int,
                            i as int,
                            j as int,
                        );
                    }
                    let ghost before = coeffs@;
                    coeffs.push((vec![i, j], w));
                    proof {
                        assert(coeffs@[k as int].0@ =~= entries[k as int].0);
                        assert forall|m: int| 0 <= m < i * nb + j + 1 implies (#[trigger] coeffs@[m]).0@
                            == entries[m].0 && coeffs@[m].1 == entries[m].1 by {
                            if m < k {
                                assert(coeffs@[m] == before[m]);
                            }
                        }
                    }
                    j = j + 1;
                }
                assert((i + 1) * nb == i * nb + nb) by (nonlinear_arith);
                i = i + 1;
            }
            Some(Contrast { denominator: pairs as u64, coeffs })
        },
        TermKind::ThreeWay { a, b, c } => {
            if a >= dims.len() || b >= dims.len() || c >= dims.len() {
                return None;
            }
            let na = dims[a];
            let nb = dims[b];
            let nc = dims[c];
            if na < 2 || nb < 2 || nc < 2 {
                return None;
            }
            let ghost entries = spec_contrast(*kind, dims@)->Some_0.1;
            let mut coeffs: Vec<(Vec<usize>, i128)> = Vec::new();
            let mut k: usize = 0;
            while k < 8
                invariant
                    2 <= na,
                    2 <= nb,
                    2 <= nc,
                    entries.len() == 8,
                    forall|m: int|
                        0 <= m < 8 ==> #[trigger] entries[m] == (
                            seq![
                                ((m / 4) * (na - 1)) as usize,
                                (((m / 2) % 2) * (nb - 1)) as usize,
                                ((m % 2) * (nc - 1)) as usize,
                            ],
                            corner_sign(m),
                        ),
                    0 <= k <= 8,
                    coeffs@.len() == k,
                    forall|m: int|
                        0 <= m < k ==> (#[trigger] coeffs@[m]).0@ == entries[m].0 && coeffs@[m].1
                            == entries[m].1,
                decreases 8 - k,
            {
                let ia = k / 4;
                let ib = (k / 2) % 2;
                let ic = k % 2;
                let la: usize = if ia == 1 {
                    na - 1
                } else {
                    0
                };
                let lb: usize = if ib == 1 {
                    nb - 1
                } else {
                    0
                };
                let lc: usize = if ic == 1 {
                    nc - 1
                } else {
                    0
                };
                let zeros: usize = (1 - ia) + (1 - ib) + (1 - ic);
                let sign: i128 = if zeros % 2 == 0 {
                    1
                } else {
                    -1
                };
                let ghost before = coeffs@;
                coeffs.push((vec![la, lb, lc], sign));
                proof {
                    assert(coeffs@[k as int].0@ =~= entries[k as int].0);
                    assert forall|m: int| 0 <= m < k + 1 implies (#[trigger] coeffs@[m]).0@
                        == entries[m].0 && coeffs@[m].1 == entries[m].1 by {
                        if m < k {
                            assert(coeffs@[m] == before[m]);
                        }
                    }
                }
                k = k + 1;
            }
            Some(Contrast { denominator: 1, coeffs })
        },
    }
}

/// Sum of the numerators of a contrast's entries.
pub open spec fn numerator_sum(entries: Seq<(Seq<usize>, int)>) -> int
    decreases entries.len(),
{
    if entries.len() == 0 {
        0
    } else {
        numerator_sum(entries.drop_last()) + entries.last().1
    }
}

proof fn lemma_numerator_sum_step(s: Seq<(Seq<usize>, int)>, k: int)
    requires
        0 <= k < s.len(),
    ensures
        numerator_sum(s.subrange(0, k + 1)) == numerator_sum(s.subrange(0, k)) + s[k].1,
{
    assert(s.subrange(0, k + 1).drop_last() =~= s.subrange(0, k));
}

/// Running sum of one row of the averaged pairwise contrast: the weights of
/// levels `0 .. j` of an `n`-level factor add up to `0` for `j = 0` and to
/// `j − n` for `1 <= j <= n`.
spec fn row_prefix(n: int, j: int) -> int {
    if j == 0 {
        0
    } else {
        j - n
    }
}

proof fn lemma_two_way_prefix(na: int, nb: int, entries: Seq<(Seq<usize>, int)>, k: int)
    requires
        na >= 2,
        nb >= 2,
        entries.len() == na * nb,
        forall|m: int|
            0 <= m < na * nb ==> (#[trigger] entries[m]).1 == spread_weight(na, m / nb)
                * spread_weight(nb, m % nb),
        0 <= k <= na * nb,
    ensures
        numerator_sum(entries.subrange(0, k)) == spread_weight(na, k / nb) * row_prefix(
            nb,
            k % nb,
        ),
    decreases k,
{
    if k == 0 {
        assert(entries.subrange(0, 0) =~= Seq::<(Seq<usize>, int)>::empty());
    } else {
        lemma_two_way_prefix(na, nb, entries, k - 1);
        lemma_numerator_sum_step(entries, k - 1);
        let i = (k - 1) / nb;
        let j = (k - 1) % nb;
        vstd::arithmetic::div_mod::lemma_fundamental_div_mod(k - 1, nb);
        let wi = spread_weight(na, i);
        let wj = spread_weight(nb, j);
        assert(entries[k - 1].1 == wi * wj);
        if j + 1 < nb {
            assert(k == i * nb + (j + 1)) by (nonlinear_arith)
                requires
                    k - 1 == nb * i + j,
            ;
            vstd::arithmetic::div_mod::lemma_fundamental_div_mod_converse(k, nb, i, j + 1);
            assert(row_prefix(nb, j) + wj == row_prefix(nb, j + 1));
            assert(wi * row_prefix(nb, j) + wi * wj == wi * row_prefix(nb, j + 1)) by (nonlinear_arith)
                requires
                    row_prefix(nb, j) + wj == row_prefix(nb, j + 1),
            ;
        } else {
            assert(k == (i + 1) * nb + 0) by (nonlinear_arith)
                requires
                    k - 1 == nb * i + j,
                    j == nb - 1,
            ;
            vstd::arithmetic::div_mod::lemma_fundamental_div_mod_converse(k, nb, i + 1, 0);
            assert(row_prefix(nb, j) + wj == 0);
            assert(wi * row_prefix(nb, j) + wi * wj == 0) by (nonlinear_arith)
                requires
                    row_prefix(nb, j) + wj == 0,
            ;
        }
    }
}

/// Every contrast is balanced: its coefficients sum to zero, so a grid whose
/// cells all share one expectation has a contrast of zero.
pub proof fn lemma_contrast_is_balanced(kind: TermKind, dims: Seq<usize>)
    requires
        spec_contrast(kind, dims) is Some,
    ensures
        numerator_sum(spec_contrast(kind, dims)->Some_0.1) == 0,
        spec_contrast(kind, dims)->Some_0.0 >= 1,
{
    let entries = spec_contrast(kind, dims)->Some_0.1;
    match kind {
        TermKind::Main { factor } => {
            lemma_numerator_sum_step(entries, 0);
            lemma_numerator_sum_step(entries, 1);
            assert(entries.subrange(0, 0) =~= Seq::<(Seq<usize>, int)>::empty());
            assert(entries.subrange(0, 2) =~= entries);
        },
        TermKind::TwoWay { a, b } => {
            let na = dims[a as int] as int;
            let nb = dims[b as int] as int;
            assert(na * nb >= 0) by (nonlinear_arith)
                requires
                    na >= 2,
                    nb >= 2,
            ;
            assert((na - 1) * (nb - 1) >= 1) by (nonlinear_arith)
                requires
                    na >= 2,
                    nb >= 2,
            ;
            lemma_two_way_prefix(na, nb, entries, na * nb);
            vstd::arithmetic::div_mod::lemma_fundamental_div_mod_converse(na * nb, nb, na, 0);
            assert(entries.subrange(0, na * nb) =~= entries);
        },
        TermKind::ThreeWay { .. } => {
            assert(entries.subrange(0, 0) =~= Seq::<(Seq<usize>, int)>::empty());
            assert(entries.len() == 8);
            assert(0int / 4 == 0 && (0int / 2) % 2 == 0 && 0int % 2 == 0) by (nonlinear_arith);
            assert(entries[0].1 == -1);
            assert(1int / 4 == 0 && (1int / 2) % 2 == 0 && 1int % 2 == 1) by (nonlinear_arith);
            assert(entries[1].1 == 1);
            assert(2int / 4 == 0 && (2int / 2) % 2 == 1 && 2int % 2 == 0) by (nonlinear_arith);
            assert(entries[2].1 == 1);
            assert(3int / 4 == 0 && (3int / 2) % 2 == 1 && 3int % 2 == 1) by (nonlinear_arith);
            assert(entries[3].1 == -1);
            assert(4int / 4 == 1 && (4int / 2) % 2 == 0 && 4int % 2 == 0) by (nonlinear_arith);
            assert(entries[4].1 == 1);
            assert(5int / 4 == 1 && (5int / 2) % 2 == 0 && 5int % 2 == 1) by (nonlinear_arith);
            assert(entries[5].1 == -1);
            assert(6int / 4 == 1 && (6int / 2) % 2 == 1 && 6int % 2 == 0) by (nonlinear_arith);
            assert(entries[6].1 == -1);
            assert(7int / 4 == 1 && (7int / 2) % 2 == 1 && 7int % 2 == 1) by (nonlinear_arith);
            assert(entries[7].1 == 1);
            lemma_numerator_sum_step(entries, 0);
            lemma_numerator_sum_step(entries, 1);
            assert(numerator_sum(entries.subrange(0, 2)) == 0);
            lemma_numerator_sum_step(entries, 2);
            lemma_numerator_sum_step(entries, 3);
            assert(numerator_sum(entries.subrange(0, 4)) == 0);
            lemma_numerator_sum_step(entries, 4);
            lemma_numerator_sum_step(entries, 5);
            assert(numerator_sum(entries.subrange(0, 6)) == 0);
            lemma_numerator_sum_step(entries, 6);
            lemma_numerator_sum_step(entries, 7);
            assert(entries.subrange(0, 8) =~= entries);
        },
    }
}

/// Whether a cell with level tuple `levels` carries factor `factors[i]` at
/// level `key[i]`.
pub open spec fn matches_at(levels: Seq<usize>, factors: Seq<usize>, key: Seq<usize>, i: int) -> bool {
    factors[i] < levels.len() && levels[factors[i] as int] == key[i]
}

/// Whether a cell with level tuple `levels` lies at `key` on `factors`: for
/// every position `i` of both `factors` and `key`, the cell carries factor
/// `factors[i]` and sits at level `key[i]` on it.
pub open spec fn matches_key(levels: Seq<usize>, factors: Seq<usize>, key: Seq<usize>) -> bool {
    forall|i: int| 0 <= i < factors.len() && i < key.len() ==> #[trigger] matches_at(levels, factors, key, i)
}

/// Whether the cell with level tuple `levels` lies at `key` on `factors`
/// (see [`matches_key`]).
pub fn key_matches(levels: &[usize], factors: &[usize], key: &[usize]) -> (r: bool)
    ensures
        r == matches_key(levels@, factors@, key@),
{
    let mut i: usize = 0;
    while i < factors.len() && i < key.len()
        invariant
            0 <= i <= factors@.len(),
            i <= key@.len(),
            forall|j: int| 0 <= j < i ==> #[trigger] matches_at(levels@, factors@, key@, j),
        decreases factors@.len() - i,
    {
        let f = factors[i];
        if f >= levels.len() || levels[f] != key[i] {
            assert(!matches_at(levels@, factors@, key@, i as int));
            return false;
        }
        assert(matches_at(levels@, factors@, key@, i as int));
        i = i + 1;
    }
    true
}

/// Total trials (or successes) of the cells at `key` on `factors`.
pub open spec fn key_tally(
    cells: Seq<NdBinaryCell>,
    factors: Seq<usize>,
    key: Seq<usize>,
    successes: bool,
) -> int
    decreases cells.len(),
{
    if cells.len() == 0 {
        0
    } else {
        let c = cells.last();
        key_tally(cells.drop_last(), factors, key, successes) + if matches_key(
            c.levels@,
            factors,
            key,
        ) {
            if successes {
                c.successes as int
            } else {
                c.n as int
            }
        } else {
            0int
        }
    }
}

proof fn lemma_key_tally_nonneg(
    cells: Seq<NdBinaryCell>,
    factors: Seq<usize>,
    key: Seq<usize>,
    successes: bool,
)
    ensures
        key_tally(cells, factors, key, successes) >= 0,
    decreases cells.len(),
{
    if cells.len() > 0 {
        lemma_key_tally_nonneg(cells.drop_last(), factors, key, successes);
    }
}

/// Collapse a k-factor binary grid onto one cell of the sub-grid of
/// `factors`: the trials and successes, summed (saturating), of every cell
/// at `key` on `factors`. Cells lacking one of the factors do not count.
#[verifier::spinoff_prover]
pub fn collapse_onto_key(cells: &[NdBinaryCell], factors: &[usize], key: &[usize]) -> (r: (
    u64,
    u64,
))
    ensures
        r.0 == saturate(key_tally(cells@, factors@, key@, false)),
        r.1 == saturate(key_tally(cells@, factors@, key@, true)),
{
    let mut n: u64 = 0;
    let mut s: u64 = 0;
    let mut t: usize = 0;
    while t < cells.len()
        invariant
            0 <= t <= cells@.len(),
            n == saturate(key_tally(cells@.subrange(0, t as int), factors@, key@, false)),
            s == saturate(key_tally(cells@.subrange(0, t as int), factors@, key@, true)),
        decreases cells@.len() - t,
    {
        let ghost pre = cells@.subrange(0, t as int);
        let ghost post = cells@.subrange(0, t + 1);
        assert(post.drop_last() =~= pre);
        assert(post.last() == cells@[t as int]);
        proof {
            lemma_key_tally_nonneg(pre, factors@, key@, false);
            lemma_key_tally_nonneg(pre, factors@, key@, true);
        }
        let c = &cells[t];
        if key_matches(&c.levels, factors, key) {
            n = n.saturating_add(c.n);
            s = s.saturating_add(c.successes);
        }
        t = t + 1;
    }
    assert(cells@.subrange(0, cells@.len() as int) =~= cells@);
    (n, s)
}


/// A two-way contrast applied to a grid whose expectation at levels
/// `(i, j)` is `e(i, j)`: the sum of numerator × expectation over the
/// contrast's cells (divide by the denominator for the estimate).
pub open spec fn two_way_value(entries: Seq<(Seq<usize>, int)>, e: spec_fn(int, int) -> int) -> int
    decreases entries.len(),
{
    if entries.len() == 0 {
        0
    } else {
        two_way_value(entries.drop_last(), e) + entries.last().1 * e(
            entries.last().0[0] as int,
            entries.last().0[1] as int,
        )
    }
}

/// Sum of the elementary 2×2 interaction contrasts of row `i` against the
/// anchor row 0: `Σ_{1 ≤ j < m} ((e(i, j) − e(i, 0)) − (e(0, j) − e(0, 0)))`.
pub open spec fn elementary_row(e: spec_fn(int, int) -> int, i: int, m: int) -> int
    decreases m,
{
    if m <= 1 {
        0
    } else {
        elementary_row(e, i, m - 1) + ((e(i, m - 1) - e(i, 0)) - (e(0, m - 1) - e(0, 0)))
    }
}

/// Sum of every elementary 2×2 interaction contrast of an `n × m` grid:
/// `Σ_{1 ≤ i < n} Σ_{1 ≤ j < m} ((e(i, j) − e(i, 0)) − (e(0, j) − e(0, 0)))`.
pub open spec fn elementary_sum(e: spec_fn(int, int) -> int, n: int, m: int) -> int
    decreases n,
{
    if n <= 1 {
        0
    } else {
        elementary_sum(e, n - 1, m) + elementary_row(e, n - 1, m)
    }
}

/// `Σ_{j < m} spread_weight(nb, j) · e(i, j)`.
spec fn weighted_row(e: spec_fn(int, int) -> int, nb: int, i: int, m: int) -> int
    decreases m,
{
    if m <= 0 {
        0
    } else {
        weighted_row(e, nb, i, m - 1) + spread_weight(nb, m - 1) * e(i, m - 1)
    }
}

/// `Σ_{i < m} spread_weight(na, i) · weighted_row(e, nb, i, nb)`.
spec fn weighted_rows(e: spec_fn(int, int) -> int, na: int, nb: int, m: int) -> int
    decreases m,
{
    if m <= 0 {
        0
    } else {
        weighted_rows(e, na, nb, m - 1) + spread_weight(na, m - 1) * weighted_row(e, nb, m - 1, nb)
    }
}

/// `Σ_{1 ≤ j < m} (e(i, j) − e(i, 0))`.
spec fn row_differences(e: spec_fn(int, int) -> int, i: int, m: int) -> int
    decreases m,
{
    if m <= 1 {
        0
    } else {
        row_differences(e, i, m - 1) + (e(i, m - 1) - e(i, 0))
    }
}

/// `Σ_{1 ≤ i < n} row_differences(e, i, m)`.
spec fn differences_sum(e: spec_fn(int, int) -> int, n: int, m: int) -> int
    decreases n,
{
    if n <= 1 {
        0
    } else {
        differences_sum(e, n - 1, m) + row_differences(e, n - 1, m)
    }
}

proof fn lemma_weighted_row(e: spec_fn(int, int) -> int, nb: int, i: int, m: int)
    requires
        1 <= m,
    ensures
        weighted_row(e, nb, i, m) == (1 - nb) * e(i, 0) + (m - 1) * e(i, 0) + row_differences(
            e,
            i,
            m,
        ),
    decreases m,
{
    if m > 1 {
        lemma_weighted_row(e, nb, i, m - 1);
        assert((m - 1) * e(i, 0) == (m - 2) * e(i, 0) + e(i, 0)) by (nonlinear_arith);
    } else {
        assert(weighted_row(e, nb, i, 0) == 0);
    }
}

proof fn lemma_weighted_rows(e: spec_fn(int, int) -> int, na: int, nb: int, m: int)
    requires
        1 <= m,
        1 <= nb,
    ensures
        weighted_rows(e, na, nb, m) == (1 - na) * row_differences(e, 0, nb) + differences_sum(
            e,
            m,
            nb,
        ),
    decreases m,
{
    lemma_weighted_row(e, nb, m - 1, nb);
    assert((1 - nb) * e(m - 1, 0) + (nb - 1) * e(m - 1, 0) == 0) by (nonlinear_arith);
    if m > 1 {
        lemma_weighted_rows(e, na, nb, m - 1);
    } else {
        assert(weighted_rows(e, na, nb, 0) == 0);
    }
}

proof fn lemma_elementary_row(e: spec_fn(int, int) -> int, i: int, m: int)
    ensures
        elementary_row(e, i, m) == row_differences(e, i, m) - row_differences(e, 0, m),
    decreases m,
{
    if m > 1 {
        lemma_elementary_row(e, i, m - 1);
    }
}

proof fn lemma_elementary_sum(e: spec_fn(int, int) -> int, n: int, m: int)
    requires
        1 <= n,
    ensures
        elementary_sum(e, n, m) == differences_sum(e, n, m) - (n - 1) * row_differences(e, 0, m),
    decreases n,
{
    if n > 1 {
        lemma_elementary_sum(e, n - 1, m);
        lemma_elementary_row(e, n - 1, m);
        assert((n - 1) * row_differences(e, 0, m) == (n - 2) * row_differences(e, 0, m)
            + row_differences(e, 0, m)) by (nonlinear_arith);
    } else {
        assert((n - 1) * row_differences(e, 0, m) == 0) by (nonlinear_arith)
            requires
                n == 1,
        ;
    }
}

/// The running value of a two-way contrast over its first `k` cells.
proof fn lemma_two_way_value_prefix(
    na: int,
    nb: int,
    entries: Seq<(Seq<usize>, int)>,
    e: spec_fn(int, int) -> int,
    k: int,
)
    requires
        2 <= na <= usize::MAX,
        2 <= nb <= usize::MAX,
        entries.len() == na * nb,
        forall|m: int|
            0 <= m < na * nb ==> (#[trigger] entries[m]) == (
                seq![(m / nb) as usize, (m % nb) as usize],
                spread_weight(na, m / nb) * spread_weight(nb, m % nb),
            ),
        0 <= k <= na * nb,
    ensures
        two_way_value(entries.subrange(0, k), e) == weighted_rows(e, na, nb, k / nb) + spread_weight(
            na,
            k / nb,
        ) * weighted_row(e, nb, k / nb, k % nb),
    decreases k,
{
    if k == 0 {
        assert(entries.subrange(0, 0) =~= Seq::<(Seq<usize>, int)>::empty());
        assert(0int / nb == 0 && 0int % nb == 0) by (nonlinear_arith)
            requires
                nb >= 2,
        ;
        assert(weighted_rows(e, na, nb, 0) == 0);
        assert(weighted_row(e, nb, 0, 0) == 0);
    } else {
        lemma_two_way_value_prefix(na, nb, entries, e, k - 1);
        assert(entries.subrange(0, k).drop_last() =~= entries.subrange(0, k - 1));
        let i = (k - 1) / nb;
        let j = (k - 1) % nb;
        vstd::arithmetic::div_mod::lemma_fundamental_div_mod(k - 1, nb);
        assert(0 <= i < na) by (nonlinear_arith)
            requires
                k - 1 == nb * i + j,
                0 <= j < nb,
                0 <= k - 1 < na * nb,
        ;
        let wi = spread_weight(na, i);
        let wj = spread_weight(nb, j);
        let x = entries[k - 1];
        assert(entries.subrange(0, k).last() == x);
        assert(x.0[0] as int == i && x.0[1] as int == j);
        assert(x.1 == wi * wj);
        let r = weighted_row(e, nb, i, j);
        assert(wi * r + (wi * wj) * e(i, j) == wi * (r + wj * e(i, j))) by (nonlinear_arith);
        if j + 1 < nb {
            assert(k == i * nb + (j + 1)) by (nonlinear_arith)
                requires
                    k - 1 == nb * i + j,
            ;
            vstd::arithmetic::div_mod::lemma_fundamental_div_mod_converse(k, nb, i, j + 1);
            assert(weighted_row(e, nb, i, j + 1) == r + wj * e(i, j));
        } else {
            assert(k == (i + 1) * nb + 0) by (nonlinear_arith)
                requires
                    k - 1 == nb * i + j,
                    j == nb - 1,
            ;
            vstd::arithmetic::div_mod::lemma_fundamental_div_mod_converse(k, nb, i + 1, 0);
            assert(weighted_row(e, nb, i, nb) == r + wj * e(i, j));
            assert(weighted_rows(e, na, nb, i + 1) == weighted_rows(e, na, nb, i) + wi
                * weighted_row(e, nb, i, nb));
            assert(weighted_row(e, nb, i + 1, 0) == 0);
        }
    }
}

/// A two-way contrast is the mean of the elementary 2×2 interaction
/// contrasts: on any grid `e`, its numerators weigh the cells so that the
/// weighted sum is the sum of every `(e(i, j) − e(i, 0)) − (e(0, j) − e(0, 0))`
/// with `i, j ≥ 1`, and its denominator is the number of those elementary
/// contrasts, `(dims[a] − 1)(dims[b] − 1)`.
pub proof fn lemma_two_way_contrast_averages_elementary(
    a: usize,
    b: usize,
    dims: Seq<usize>,
    e: spec_fn(int, int) -> int,
)
    requires
        spec_contrast(TermKind::TwoWay { a, b }, dims) is Some,
    ensures
        ({
            let (den, entries) = spec_contrast(TermKind::TwoWay { a, b }, dims)->Some_0;
            let na = dims[a as int] as int;
            let nb = dims[b as int] as int;
            &&& den == (na - 1) * (nb - 1)
            &&& two_way_value(entries, e) == elementary_sum(e, na, nb)
        }),
{
    let (den, entries) = spec_contrast(TermKind::TwoWay { a, b }, dims)->Some_0;
    let na = dims[a as int] as int;
    let nb = dims[b as int] as int;
    assert(na * nb >= 0) by (nonlinear_arith)
        requires
            na >= 2,
            nb >= 2,
    ;
    lemma_two_way_value_prefix(na, nb, entries, e, na * nb);
    vstd::arithmetic::div_mod::lemma_fundamental_div_mod_converse(na * nb, nb, na, 0);
    assert(entries.subrange(0, na * nb) =~= entries);
    assert(weighted_row(e, nb, na, 0) == 0);
    lemma_weighted_rows(e, na, nb, na);
    lemma_elementary_sum(e, na, nb);
    assert((1 - na) * row_differences(e, 0, nb) == -((na - 1) * row_differences(e, 0, nb)))
        by (nonlinear_arith);
}

/// A grid with one unit interaction planted in every elementary 2×2: `1`
/// where both levels are off the anchor level 0, `0` elsewhere.
pub open spec fn planted_interaction(i: int, j: int) -> int {
    if i >= 1 && j >= 1 {
        1
    } else {
        0
    }
}

/// The planted-interaction grid as a function of the two levels.
pub open spec fn planted_grid() -> spec_fn(int, int) -> int {
    |x: int, y: int| planted_interaction(x, y)
}

proof fn lemma_planted_row(i: int, m: int)
    requires
        i >= 1,
        m >= 1,
    ensures
        elementary_row(planted_grid(), i, m) == m - 1,
    decreases m,
{
    if m > 1 {
        lemma_planted_row(i, m - 1);
    }
}

proof fn lemma_planted_sum(n: int, m: int)
    requires
        n >= 1,
        m >= 1,
    ensures
        elementary_sum(planted_grid(), n, m) == (n - 1) * (m - 1),
    decreases n,
{
    if n > 1 {
        lemma_planted_sum(n - 1, m);
        lemma_planted_row(n - 1, m);
        assert((n - 1) * (m - 1) == (n - 2) * (m - 1) + (m - 1)) by (nonlinear_arith);
    } else {
        assert((n - 1) * (m - 1) == 0) by (nonlinear_arith)
            requires
                n == 1,
        ;
    }
}

/// The two-way contrast recovers a planted interaction exactly: on a grid
/// with a unit interaction in every elementary 2×2, the contrast's weighted
/// sum equals its denominator, so the interaction estimate is `1`.
pub proof fn lemma_two_way_contrast_recovers_planted_interaction(
    a: usize,
    b: usize,
    dims: Seq<usize>,
)
    requires
        spec_contrast(TermKind::TwoWay { a, b }, dims) is Some,
    ensures
        ({
            let (den, entries) = spec_contrast(TermKind::TwoWay { a, b }, dims)->Some_0;
            two_way_value(entries, planted_grid()) == den
        }),
{
    lemma_two_way_contrast_averages_elementary(a, b, dims, planted_grid());
    lemma_planted_sum(dims[a as int] as int, dims[b as int] as int);
}


/// A main-effect contrast applied to expectations `e(l)` per level.
pub open spec fn main_value(entries: Seq<(Seq<usize>, int)>, e: spec_fn(int) -> int) -> int
    decreases entries.len(),
{
    if entries.len() == 0 {
        0
    } else {
        main_value(entries.drop_last(), e) + entries.last().1 * e(entries.last().0[0] as int)
    }
}

/// A main-effect contrast is the difference between the factor's top level
/// and its anchor level 0, undivided: on any expectations `e`, its value is
/// `e(top) − e(0)` over a denominator of 1.
pub proof fn lemma_main_contrast_is_top_minus_anchor(factor: usize, dims: Seq<usize>, e: spec_fn(int) -> int)
    requires
        spec_contrast(TermKind::Main { factor }, dims) is Some,
    ensures
        ({
            let (den, entries) = spec_contrast(TermKind::Main { factor }, dims)->Some_0;
            &&& den == 1
            &&& main_value(entries, e) == e(dims[factor as int] - 1) - e(0)
        }),
{
    let (den, entries) = spec_contrast(TermKind::Main { factor }, dims)->Some_0;
    let t = dims[factor as int] - 1;
    assert(entries.drop_last().drop_last() =~= Seq::<(Seq<usize>, int)>::empty());
    assert(entries.drop_last().last() == entries[0]);
    assert(main_value(entries.drop_last().drop_last(), e) == 0);
    assert(entries[0].0[0] as int == 0);
    assert(main_value(entries.drop_last(), e) == -1 * e(0));
    assert(entries.last().0[0] as int == t);
    assert(main_value(entries, e) == -1 * e(0) + 1 * e(t));
}

/// A three-way contrast applied to expectations `e(i, j, k)` per cell.
pub open spec fn three_way_value(
    entries: Seq<(Seq<usize>, int)>,
    e: spec_fn(int, int, int) -> int,
) -> int
    decreases entries.len(),
{
    if entries.len() == 0 {
        0
    } else {
        three_way_value(entries.drop_last(), e) + entries.last().1 * e(
            entries.last().0[0] as int,
            entries.last().0[1] as int,
            entries.last().0[2] as int,
        )
    }
}

proof fn lemma_three_way_step(entries: Seq<(Seq<usize>, int)>, e: spec_fn(int, int, int) -> int, k: int)
    requires
        0 <= k < entries.len(),
    ensures
        three_way_value(entries.subrange(0, k + 1), e) == three_way_value(entries.subrange(0, k), e)
            + entries[k].1 * e(entries[k].0[0] as int, entries[k].0[1] as int, entries[k].0[2] as int),
{
    assert(entries.subrange(0, k + 1).drop_last() =~= entries.subrange(0, k));
    assert(entries.subrange(0, k + 1).last() == entries[k]);
}

/// A three-way contrast is the 2×2×2 interaction of the anchor and top
/// levels: how much the `(a, b)` interaction at `c`'s top level differs from
/// the one at its anchor level, over a denominator of 1.
pub proof fn lemma_three_way_contrast_is_cube_interaction(
    a: usize,
    b: usize,
    c: usize,
    dims: Seq<usize>,
    e: spec_fn(int, int, int) -> int,
)
    requires
        spec_contrast(TermKind::ThreeWay { a, b, c }, dims) is Some,
    ensures
        ({
            let (den, entries) = spec_contrast(TermKind::ThreeWay { a, b, c }, dims)->Some_0;
            let ta = dims[a as int] - 1;
            let tb = dims[b as int] - 1;
            let tc = dims[c as int] - 1;
            &&& den == 1
            &&& three_way_value(entries, e) == ((e(ta, tb, tc) - e(ta, tb, 0)) - (e(ta, 0, tc) - e(
                ta,
                0,
                0,
            ))) - ((e(0, tb, tc) - e(0, tb, 0)) - (e(0, 0, tc) - e(0, 0, 0)))
        }),
{
    let (den, entries) = spec_contrast(TermKind::ThreeWay { a, b, c }, dims)->Some_0;
    assert(0int / 4 == 0 && (0int / 2) % 2 == 0 && 0int % 2 == 0) by (nonlinear_arith);
    assert(1int / 4 == 0 && (1int / 2) % 2 == 0 && 1int % 2 == 1) by (nonlinear_arith);
    assert(2int / 4 == 0 && (2int / 2) % 2 == 1 && 2int % 2 == 0) by (nonlinear_arith);
    assert(3int / 4 == 0 && (3int / 2) % 2 == 1 && 3int % 2 == 1) by (nonlinear_arith);
    assert(4int / 4 == 1 && (4int / 2) % 2 == 0 && 4int % 2 == 0) by (nonlinear_arith);
    assert(5int / 4 == 1 && (5int / 2) % 2 == 0 && 5int % 2 == 1) by (nonlinear_arith);
    assert(6int / 4 == 1 && (6int / 2) % 2 == 1 && 6int % 2 == 0) by (nonlinear_arith);
    assert(7int / 4 == 1 && (7int / 2) % 2 == 1 && 7int % 2 == 1) by (nonlinear_arith);
    let ta = dims[a as int] - 1;
    let tb = dims[b as int] - 1;
    let tc = dims[c as int] - 1;
    assert(entries[0].0[0] as int == 0 && entries[0].0[1] as int == 0 && entries[0].0[2] as int
        == 0 && entries[0].1 == -1);
    assert(entries[1].0[0] as int == 0 && entries[1].0[1] as int == 0 && entries[1].0[2] as int
        == tc && entries[1].1 == 1);
    assert(entries[2].0[0] as int == 0 && entries[2].0[1] as int == tb && entries[2].0[2] as int
        == 0 && entries[2].1 == 1);
    assert(entries[3].0[0] as int == 0 && entries[3].0[1] as int == tb && entries[3].0[2] as int
        == tc && entries[3].1 == -1);
    assert(entries[4].0[0] as int == ta && entries[4].0[1] as int == 0 && entries[4].0[2] as int
        == 0 && entries[4].1 == 1);
    assert(entries[5].0[0] as int == ta && entries[5].0[1] as int == 0 && entries[5].0[2] as int
        == tc && entries[5].1 == -1);
    assert(entries[6].0[0] as int == ta && entries[6].0[1] as int == tb && entries[6].0[2] as int
        == 0 && entries[6].1 == -1);
    assert(entries[7].0[0] as int == ta && entries[7].0[1] as int == tb && entries[7].0[2] as int
        == tc && entries[7].1 == 1);
    assert(entries.subrange(0, 0) =~= Seq::<(Seq<usize>, int)>::empty());
    lemma_three_way_step(entries, e, 0);
    lemma_three_way_step(entries, e, 1);
    lemma_three_way_step(entries, e, 2);
    lemma_three_way_step(entries, e, 3);
    lemma_three_way_step(entries, e, 4);
    lemma_three_way_step(entries, e, 5);
    lemma_three_way_step(entries, e, 6);
    lemma_three_way_step(entries, e, 7);
    assert(entries.subrange(0, 8) =~= entries);
}

} // verus!
