//! Recommendation logic: the per-variant decision and the overall winner.

use vstd::prelude::*;

use super::{AnalysisType, Recommendation};

verus! {

/// Number of entries of `recs` whose recommendation is `VariantWins`.
pub open spec fn count_variant_wins(recs: Seq<(String, Recommendation)>) -> nat
    decreases recs.len(),
{
    if recs.len() == 0 {
        0
    } else {
        count_variant_wins(recs.drop_last()) + if recs.last().1 is VariantWins {
            1nat
        } else {
            0nat
        }
    }
}

/// Whether some entry of `recs` recommends `ControlWins`.
pub open spec fn has_control_wins(recs: Seq<(String, Recommendation)>) -> bool {
    exists|i: int| 0 <= i < recs.len() && (#[trigger] recs[i]).1 is ControlWins
}

/// Whether some entry of `recs` recommends `NeedsMoreData`.
pub open spec fn has_needs_more_data(recs: Seq<(String, Recommendation)>) -> bool {
    exists|i: int| 0 <= i < recs.len() && (#[trigger] recs[i]).1 is NeedsMoreData
}

proof fn lemma_count_le_len(recs: Seq<(String, Recommendation)>)
    ensures
        count_variant_wins(recs) <= recs.len(),
    decreases recs.len(),
{
    if recs.len() > 0 {
        lemma_count_le_len(recs.drop_last());
    }
}

/// With exactly one winning entry, every other entry is not a win.
proof fn lemma_unique_win(recs: Seq<(String, Recommendation)>, i: int, j: int)
    requires
        count_variant_wins(recs) == 1,
        0 <= i < recs.len(),
        0 <= j < recs.len(),
        recs[i].1 is VariantWins,
        recs[j].1 is VariantWins,
    ensures
        i == j,
    decreases recs.len(),
{
    let last = recs.len() - 1;
    let init = recs.drop_last();
    if i == last && j == last {
    } else if i == last {
        lemma_one_win_present(init, j);
    } else if j == last {
        lemma_one_win_present(init, i);
    } else {
        if recs.last().1 is VariantWins {
            lemma_one_win_present(init, i);
        } else {
            lemma_unique_win(init, i, j);
        }
    }
}

/// A prefix containing a win counts at least one.
proof fn lemma_one_win_present(recs: Seq<(String, Recommendation)>, i: int)
    requires
        0 <= i < recs.len(),
        recs[i].1 is VariantWins,
    ensures
        count_variant_wins(recs) >= 1,
    decreases recs.len(),
{
    if i < recs.len() - 1 {
        lemma_one_win_present(recs.drop_last(), i);
    }
}

/// Whether an entry recommends its variant (1) or not (0).
spec fn win_weight(e: (String, Recommendation)) -> nat {
    if e.1 is VariantWins {
        1
    } else {
        0
    }
}

/// Removing one entry removes its win, if it is one, from the count.
proof fn lemma_count_remove(s: Seq<(String, Recommendation)>, j: int)
    requires
        0 <= j < s.len(),
    ensures
        count_variant_wins(s) == count_variant_wins(s.remove(j)) + win_weight(s[j]),
    decreases s.len(),
{
    if j == s.len() - 1 {
        assert(s.remove(j) =~= s.drop_last());
    } else {
        lemma_count_remove(s.drop_last(), j);
        assert(s.remove(j).drop_last() =~= s.drop_last().remove(j));
        assert(s.remove(j).last() == s.last());
    }
}

/// Listings with the same entries count the same number of wins.
proof fn lemma_count_permutation(x: Seq<(String, Recommendation)>, y: Seq<(String, Recommendation)>)
    requires
        x.to_multiset() =~= y.to_multiset(),
    ensures
        count_variant_wins(x) == count_variant_wins(y),
    decreases x.len(),
{
    broadcast use vstd::seq_lib::group_to_multiset_ensures;

    if x.len() == 0 {
        assert(y.to_multiset().len() == 0);
        assert(y.len() == 0);
    } else {
        let e = x.last();
        let init = x.drop_last();
        assert(init.push(e) =~= x);
        assert(x.to_multiset() =~= init.to_multiset().insert(e));
        assert(x.to_multiset().count(e) > 0);
        assert(y.contains(e));
        let j = choose|j: int| 0 <= j < y.len() && y[j] == e;
        assert(y.remove(j).to_multiset() =~= y.to_multiset().remove(e));
        assert(init.to_multiset().insert(e).remove(e) =~= init.to_multiset());
        lemma_count_permutation(init, y.remove(j));
        lemma_count_remove(y, j);
    }
}

/// The overall winner does not depend on the order in which the variants'
/// recommendations are listed: two listings of the same entries have the
/// same number of wins, the same presence of `ControlWins` and of
/// `NeedsMoreData`, and, with a single win, the same winning entry, so
/// [`pick_winner`] returns the same recommendation for both.
pub proof fn lemma_pick_winner_order_independent(
    x: Seq<(String, Recommendation)>,
    y: Seq<(String, Recommendation)>,
)
    requires
        x.to_multiset() =~= y.to_multiset(),
    ensures
        count_variant_wins(x) == count_variant_wins(y),
        has_control_wins(x) == has_control_wins(y),
        has_needs_more_data(x) == has_needs_more_data(y),
        count_variant_wins(x) == 1 ==> forall|i: int, j: int|
            0 <= i < x.len() && 0 <= j < y.len() && (#[trigger] x[i]).1 is VariantWins && (
            #[trigger] y[j]).1 is VariantWins ==> x[i] == y[j],
{
    broadcast use vstd::seq_lib::group_to_multiset_ensures;

    lemma_count_permutation(x, y);
    if has_control_wins(x) {
        let i = choose|i: int| 0 <= i < x.len() && (#[trigger] x[i]).1 is ControlWins;
        assert(x.contains(x[i]));
        assert(x.to_multiset().count(x[i]) > 0);
        assert(y.contains(x[i]));
    }
    if has_control_wins(y) {
        let i = choose|i: int| 0 <= i < y.len() && (#[trigger] y[i]).1 is ControlWins;
        assert(y.contains(y[i]));
        assert(y.to_multiset().count(y[i]) > 0);
        assert(x.contains(y[i]));
    }
    if has_needs_more_data(x) {
        let i = choose|i: int| 0 <= i < x.len() && (#[trigger] x[i]).1 is NeedsMoreData;
        assert(x.contains(x[i]));
        assert(x.to_multiset().count(x[i]) > 0);
        assert(y.contains(x[i]));
    }
    if has_needs_more_data(y) {
        let i = choose|i: int| 0 <= i < y.len() && (#[trigger] y[i]).1 is NeedsMoreData;
        assert(y.contains(y[i]));
        assert(y.to_multiset().count(y[i]) > 0);
        assert(x.contains(y[i]));
    }
    if count_variant_wins(x) == 1 {
        assert forall|i: int, j: int|
            0 <= i < x.len() && 0 <= j < y.len() && (#[trigger] x[i]).1 is VariantWins && (
            #[trigger] y[j]).1 is VariantWins implies x[i] == y[j] by {
            assert(x.contains(x[i]));
            assert(x.to_multiset().count(x[i]) > 0);
            assert(y.contains(x[i]));
            let k = choose|k: int| 0 <= k < y.len() && y[k] == x[i];
            lemma_unique_win(y, k, j);
        }
    }
}

/// Given recommendations for all variants, pick the overall winner.
///
/// 1. Exactly one `VariantWins` → `VariantWins` naming that entry's key.
/// 2. Otherwise, `ControlWins` present → `ControlWins`.
/// 3. Otherwise, any `NeedsMoreData` present → `NeedsMoreData`.
/// 4. Otherwise → `Inconclusive` (also for an empty slice).
#[verifier::spinoff_prover]
pub fn pick_winner(recommendations: &[(String, Recommendation)]) -> (r: Recommendation)
    ensures
        r is VariantWins <==> count_variant_wins(recommendations@) == 1,
        count_variant_wins(recommendations@) == 1 ==> (r matches Recommendation::VariantWins(w)
            && forall|i: int|
            0 <= i < recommendations@.len() && (#[trigger] recommendations@[i]).1 is VariantWins
                ==> w@ == recommendations@[i].0@),
        r is ControlWins <==> (count_variant_wins(recommendations@) != 1 && has_control_wins(
            recommendations@,
        )),
        r is NeedsMoreData <==> (count_variant_wins(recommendations@) != 1 && !has_control_wins(
            recommendations@,
        ) && has_needs_more_data(recommendations@)),
        r is Inconclusive <==> (count_variant_wins(recommendations@) != 1 && !has_control_wins(
            recommendations@,
        ) && !has_needs_more_data(recommendations@)),
{
    let ghost recs = recommendations@;
    let mut wins: usize = 0;
    let mut win_idx: usize = 0;
    let mut control = false;
    let mut more_data = false;
    let mut i: usize = 0;
    while i < recommendations.len()
        invariant
            recs == recommendations@,
            0 <= i <= recs.len(),
            wins == count_variant_wins(recs.subrange(0, i as int)),
            wins > 0 ==> win_idx < i && recs[win_idx as int].1 is VariantWins,
            control <==> exists|j: int| 0 <= j < i && (#[trigger] recs[j]).1 is ControlWins,
            more_data <==> exists|j: int| 0 <= j < i && (#[trigger] recs[j]).1 is NeedsMoreData,
        decreases recs.len() - i,
    {
        proof {
            lemma_count_le_len(recs.subrange(0, i as int));
            assert(recs.subrange(0, i + 1).drop_last() =~= recs.subrange(0, i as int));
        }
        match &recommendations[i].1 {
            Recommendation::VariantWins(_) => {
                wins = wins + 1;
                win_idx = i;
            },
            Recommendation::ControlWins => {
                control = true;
            },
            Recommendation::NeedsMoreData => {
                more_data = true;
            },
            Recommendation::Inconclusive => {},
        }
        i = i + 1;
    }
    assert(recs.subrange(0, recs.len() as int) =~= recs);
    if wins == 1 {
        let r = Recommendation::VariantWins(recommendations[win_idx].0.clone());
        proof {
            assert forall|j: int|
                0 <= j < recs.len() && (#[trigger] recs[j]).1 is VariantWins implies j
                == win_idx as int by {
                lemma_unique_win(recs, j, win_idx as int);
            }
        }
        return r;
    }
    if control {
        return Recommendation::ControlWins;
    }
    if more_data {
        return Recommendation::NeedsMoreData;
    }
    Recommendation::Inconclusive
}

/// The facts a frequentist result contributes to a recommendation: whether
/// it is significant, and whether the lower bound of its `variant − control`
/// confidence interval is above zero.
#[derive(Debug, Clone, Copy, PartialEq, Eq, Structural)]
pub struct FrequentistEvidence {
    /// The result is statistically significant at the configured level.
    pub significant: bool,
    /// The confidence interval's lower bound is strictly positive.
    pub lower_bound_positive: bool,
}

/// The facts a Bayesian result contributes to a recommendation: whether the
/// probability that the variant is best exceeds 0.95, and whether its
/// complement does.
#[derive(Debug, Clone, Copy, PartialEq, Eq, Structural)]
pub struct BayesianEvidence {
    /// `prob_best > 0.95`.
    pub prob_best_above_threshold: bool,
    /// `1 − prob_best > 0.95`.
    pub prob_rest_above_threshold: bool,
}

/// Whether the observed sample falls short of the configured minimum.
pub open spec fn below_minimum(sample_size: i64, min_sample_size: Option<i64>) -> bool {
    match min_sample_size {
        Some(min) => sample_size < min,
        None => false,
    }
}

/// Which recommendation applies (1 = variant wins, 2 = control wins,
/// 3 = inconclusive, 4 = needs more data).
pub open spec fn spec_recommend_rank(
    analysis_type: AnalysisType,
    sample_size: i64,
    min_sample_size: Option<i64>,
    frequentist: Option<FrequentistEvidence>,
    bayesian: Option<BayesianEvidence>,
) -> u8 {
    if below_minimum(sample_size, min_sample_size) {
        4
    } else {
        match analysis_type {
            AnalysisType::Frequentist => match frequentist {
                Some(f) => if f.significant {
                    if f.lower_bound_positive {
                        1
                    } else {
                        2
                    }
                } else {
                    3
                },
                None => 3,
            },
            AnalysisType::Bayesian => match bayesian {
                Some(b) => if b.prob_best_above_threshold {
                    1
                } else if b.prob_rest_above_threshold {
                    2
                } else {
                    3
                },
                None => 3,
            },
        }
    }
}

/// Determine the recommendation for a single variant-vs-control comparison.
///
/// 1. `NeedsMoreData` when a minimum sample size is set and not reached
///    (checked before any statistical rule; reaching it exactly suffices).
/// 2. Frequentist: a significant result wins for the variant when the
///    interval's lower bound is positive, for control otherwise; a missing or
///    non-significant result is inconclusive.
/// 3. Bayesian: the variant wins when `prob_best > 0.95`, control wins when
///    `1 − prob_best > 0.95`, otherwise (or with no result) inconclusive.
pub fn recommend_from_evidence(
    variant_key: &String,
    analysis_type: AnalysisType,
    sample_size: i64,
    min_sample_size: Option<i64>,
    frequentist: Option<FrequentistEvidence>,
    bayesian: Option<BayesianEvidence>,
) -> (r: Recommendation)
    ensures
        super::spec_decisiveness_rank(r) == spec_recommend_rank(
            analysis_type,
            sample_size,
            min_sample_size,
            frequentist,
            bayesian,
        ),
        r matches Recommendation::VariantWins(w) ==> w@ == variant_key@,
{
    if let Some(min) = min_sample_size {
        if sample_size < min {
            return Recommendation::NeedsMoreData;
        }
    }
    match analysis_type {
        AnalysisType::Frequentist => {
            if let Some(f) = frequentist {
                if f.significant {
                    if f.lower_bound_positive {
                        return Recommendation::VariantWins(variant_key.clone());
                    }
                    return Recommendation::ControlWins;
                }
            }
            Recommendation::Inconclusive
        },
        AnalysisType::Bayesian => {
            if let Some(b) = bayesian {
                if b.prob_best_above_threshold {
                    return Recommendation::VariantWins(variant_key.clone());
                }
                if b.prob_rest_above_threshold {
                    return Recommendation::ControlWins;
                }
            }
            Recommendation::Inconclusive
        },
    }
}

/// A sample below the configured minimum always yields `NeedsMoreData`,
/// whatever the statistical evidence; a sample at or above it never does.
pub proof fn lemma_minimum_guard_precedes_evidence(
    analysis_type: AnalysisType,
    sample_size: i64,
    min_sample_size: Option<i64>,
    frequentist: Option<FrequentistEvidence>,
    bayesian: Option<BayesianEvidence>,
)
    ensures
        (spec_recommend_rank(analysis_type, sample_size, min_sample_size, frequentist, bayesian)
            == 4) <==> below_minimum(sample_size, min_sample_size),
{
}


/// What the recommendation rests on, in terms of the evidence: once the
/// minimum sample is reached, the variant wins exactly when the chosen
/// analysis backs it (a significant frequentist result with a positive lower
/// bound, or a Bayesian probability-best above the threshold), control wins
/// exactly when the chosen analysis backs control instead (significant with
/// a lower bound that is not positive, or the complement above the threshold
/// while probability-best is not), and otherwise the result is inconclusive;
/// the evidence of the analysis that was not chosen plays no part.
pub proof fn lemma_recommendation_follows_evidence(
    analysis_type: AnalysisType,
    sample_size: i64,
    min_sample_size: Option<i64>,
    frequentist: Option<FrequentistEvidence>,
    bayesian: Option<BayesianEvidence>,
    other_frequentist: Option<FrequentistEvidence>,
    other_bayesian: Option<BayesianEvidence>,
)
    ensures
        ({
            let r = spec_recommend_rank(analysis_type, sample_size, min_sample_size, frequentist, bayesian);
            let reached = !below_minimum(sample_size, min_sample_size);
            let backs_variant = match analysis_type {
                AnalysisType::Frequentist => frequentist matches Some(f) && f.significant
                    && f.lower_bound_positive,
                AnalysisType::Bayesian => bayesian matches Some(b) && b.prob_best_above_threshold,
            };
            let backs_control = match analysis_type {
                AnalysisType::Frequentist => frequentist matches Some(f) && f.significant
                    && !f.lower_bound_positive,
                AnalysisType::Bayesian => bayesian matches Some(b) && !b.prob_best_above_threshold
                    && b.prob_rest_above_threshold,
            };
            &&& (r == 1 <==> reached && backs_variant)
            &&& (r == 2 <==> reached && backs_control)
            &&& (r == 3 <==> reached && !backs_variant && !backs_control)
            &&& (r == 4 <==> !reached)
            &&& (analysis_type == AnalysisType::Frequentist ==> r == spec_recommend_rank(
                analysis_type,
                sample_size,
                min_sample_size,
                frequentist,
                other_bayesian,
            ))
            &&& (analysis_type == AnalysisType::Bayesian ==> r == spec_recommend_rank(
                analysis_type,
                sample_size,
                min_sample_size,
                other_frequentist,
                bayesian,
            ))
        }),
{
}

} // verus!
