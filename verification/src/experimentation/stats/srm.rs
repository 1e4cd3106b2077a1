//! Sample-ratio-mismatch screening: which variants' assignment counts can be
//! put to a chi-square goodness-of-fit test, and which verdicts need none.

use vstd::prelude::*;

verus! {

/// Health classification for a sample-ratio-mismatch test.
#[derive(Debug, Clone, Copy, PartialEq, Eq, Hash, Structural)]
pub enum SrmHealth {
    /// No detectable mismatch (`p ≥ 0.05`).
    Green,
    /// Mild mismatch (`0.001 ≤ p < 0.05`).
    Yellow,
    /// Severe mismatch (`p < 0.001`).
    Red,
}

/// One variant's assignment count, and whether the configured allocation
/// expects it to receive nothing.
#[derive(Debug, Clone, Copy, PartialEq, Eq, Structural)]
pub struct SrmCount {
    /// Number of contexts actually assigned to the variant.
    pub observed: u64,
    /// Whether the expected count under the configured allocation is zero.
    pub expected_is_zero: bool,
}

/// What an SRM test of a set of variants comes to before any statistic is
/// computed.
#[derive(Debug, Clone, Copy, PartialEq, Eq, Structural)]
pub enum SrmScreen {
    /// A variant is configured to receive nothing while the test saw
    /// assignments: a certain mismatch (`Red`, infinite statistic, `p = 0`).
    ZeroAllocationMismatch,
    /// Fewer than two variants, or no assignments at all: nothing to test
    /// (`Green`, statistic 0, `p = 1`).
    NothingToTest,
    /// Run the Pearson chi-square with `df` degrees of freedom.
    ChiSquare { df: usize },
}

/// Whether some variant is configured to receive nothing.
pub open spec fn any_zero_allocation(counts: Seq<SrmCount>) -> bool {
    exists|i: int| 0 <= i < counts.len() && (#[trigger] counts[i]).expected_is_zero
}

/// Whether the test saw any assignment at all.
pub open spec fn any_observed(counts: Seq<SrmCount>) -> bool {
    exists|i: int| 0 <= i < counts.len() && (#[trigger] counts[i]).observed > 0
}

/// The screening verdict for `counts`.
pub open spec fn spec_screen(counts: Seq<SrmCount>) -> SrmScreen {
    if any_zero_allocation(counts) && any_observed(counts) {
        SrmScreen::ZeroAllocationMismatch
    } else if counts.len() < 2 || !any_observed(counts) {
        SrmScreen::NothingToTest
    } else {
        SrmScreen::ChiSquare { df: (counts.len() - 1) as usize }
    }
}

/// Screen the variants of an SRM test.
///
/// * A variant expected to receive nothing makes the test a certain mismatch
///   as soon as any assignment happened (to it or to any other variant).
/// * Otherwise, with fewer than two variants or no assignments there is
///   nothing to test.
/// * Otherwise the chi-square runs on `variants − 1` degrees of freedom.
pub fn screen_srm(counts: &[SrmCount]) -> (r: SrmScreen)
    ensures
        r == spec_screen(counts@),
{
    let mut zero_seen = false;
    let mut observed_any = false;
    let mut i: usize = 0;
    while i < counts.len()
        invariant
            0 <= i <= counts@.len(),
            zero_seen == any_zero_allocation(counts@.subrange(0, i as int)),
            observed_any == any_observed(counts@.subrange(0, i as int)),
        decreases counts@.len() - i,
    {
        let c = counts[i];
        let ghost pre = counts@.subrange(0, i as int);
        let ghost post = counts@.subrange(0, i + 1);
        assert(forall|j: int| 0 <= j < i ==> post[j] == #[trigger] pre[j]);
        assert(post[i as int] == c);
        if c.expected_is_zero {
            zero_seen = true;
        }
        if c.observed > 0 {
            observed_any = true;
        }
        proof {
            if any_zero_allocation(post) {
                let j = choose|j: int| 0 <= j < post.len() && (#[trigger] post[j]).expected_is_zero;
                if j < i {
                    assert(pre[j] == post[j]);
                }
            }
            if any_observed(post) {
                let j = choose|j: int| 0 <= j < post.len() && (#[trigger] post[j]).observed > 0;
                if j < i {
                    assert(pre[j] == post[j]);
                }
            }
            if any_zero_allocation(pre) {
                let j = choose|j: int| 0 <= j < pre.len() && (#[trigger] pre[j]).expected_is_zero;
                assert(post[j] == pre[j]);
            }
            if any_observed(pre) {
                let j = choose|j: int| 0 <= j < pre.len() && (#[trigger] pre[j]).observed > 0;
                assert(post[j] == pre[j]);
            }
        }
        i = i + 1;
    }
    assert(counts@.subrange(0, counts@.len() as int) =~= counts@);
    if zero_seen && observed_any {
        SrmScreen::ZeroAllocationMismatch
    } else if counts.len() < 2 || !observed_any {
        SrmScreen::NothingToTest
    } else {
        SrmScreen::ChiSquare { df: counts.len() - 1 }
    }
}


/// What the screen decides, in terms of the counts themselves: a certain
/// mismatch exactly when some variant (at any position) is configured to
/// receive nothing while some variant saw an assignment; otherwise nothing
/// to test exactly when there are fewer than two variants or no assignment
/// at all; otherwise a chi-square on one degree of freedom fewer than there
/// are variants.
pub proof fn lemma_screen_meaning(counts: Seq<SrmCount>)
    requires
        counts.len() <= usize::MAX,
    ensures
        ({
            let zero_somewhere = exists|i: int|
                0 <= i < counts.len() && (#[trigger] counts[i]).expected_is_zero;
            let seen_somewhere = exists|j: int| 0 <= j < counts.len() && (#[trigger] counts[j]).observed > 0;
            &&& (spec_screen(counts) == SrmScreen::ZeroAllocationMismatch <==> zero_somewhere
                && seen_somewhere)
            &&& (spec_screen(counts) == SrmScreen::NothingToTest <==> !(zero_somewhere
                && seen_somewhere) && (counts.len() < 2 || forall|j: int|
                0 <= j < counts.len() ==> (#[trigger] counts[j]).observed == 0))
            &&& forall|df: usize|
                spec_screen(counts) == (SrmScreen::ChiSquare { df }) ==> df + 1 == counts.len()
                    && counts.len() >= 2 && seen_somewhere && !zero_somewhere
        }),
{
}

/// The screen does not depend on the order in which the variants are
/// listed: two listings of the same counts get the same verdict.
pub proof fn lemma_screen_order_independent(x: Seq<SrmCount>, y: Seq<SrmCount>)
    requires
        x.to_multiset() =~= y.to_multiset(),
    ensures
        spec_screen(x) == spec_screen(y),
{
    broadcast use vstd::seq_lib::group_to_multiset_ensures;

    assert(x.len() == y.len()) by {
        assert(x.to_multiset().len() == y.to_multiset().len());
    }
    assert forall|e: SrmCount| x.contains(e) <==> y.contains(e) by {
        assert(x.to_multiset().count(e) == y.to_multiset().count(e));
    }
    if any_zero_allocation(x) {
        let i = choose|i: int| 0 <= i < x.len() && (#[trigger] x[i]).expected_is_zero;
        assert(x.contains(x[i]));
        assert(y.contains(x[i]));
    }
    if any_zero_allocation(y) {
        let i = choose|i: int| 0 <= i < y.len() && (#[trigger] y[i]).expected_is_zero;
        assert(y.contains(y[i]));
        assert(x.contains(y[i]));
    }
    if any_observed(x) {
        let i = choose|i: int| 0 <= i < x.len() && (#[trigger] x[i]).observed > 0;
        assert(x.contains(x[i]));
        assert(y.contains(x[i]));
    }
    if any_observed(y) {
        let i = choose|i: int| 0 <= i < y.len() && (#[trigger] y[i]).observed > 0;
        assert(y.contains(y[i]));
        assert(x.contains(y[i]));
    }
}

} // verus!
