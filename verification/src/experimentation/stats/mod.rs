//! Statistical-analysis domain types and the recommendation vocabulary.

pub mod bayesian;
pub mod bootstrap;
pub mod interaction;
pub mod recommendation;
pub mod srm;

use vstd::prelude::*;
use core::cmp::Ordering;

verus! {

/// The statistical methodology used to analyse experiment results.
#[derive(Debug, Clone, Copy, PartialEq, Eq, Hash, Structural)]
pub enum AnalysisType {
    /// Classical frequentist hypothesis testing.
    Frequentist,
    /// Bayesian inference.
    Bayesian,
}

/// The kind of metric being analysed.
#[derive(Debug, Clone, Copy, PartialEq, Eq, Hash, Structural)]
pub enum MetricType {
    /// A simple event count metric.
    Count,
    /// A continuous numeric metric.
    Numeric,
    /// A percentile metric.
    Percentile,
    /// A funnel (multi-step conversion) metric.
    Funnel,
}

/// The recommended action based on the statistical analysis results.
#[derive(Debug, Clone, PartialEq, Eq)]
pub enum Recommendation {
    /// A specific variant has won and should be promoted.
    VariantWins(String),
    /// The control group has won; keep the default.
    ControlWins,
    /// The result is inconclusive.
    Inconclusive,
    /// More data is needed before a conclusion can be drawn.
    NeedsMoreData,
}

/// Decisiveness rank: 1 = variant wins, 2 = control wins, 3 = inconclusive,
/// 4 = needs more data (lower is more decisive).
pub open spec fn spec_decisiveness_rank(r: Recommendation) -> u8 {
    match r {
        Recommendation::VariantWins(_) => 1,
        Recommendation::ControlWins => 2,
        Recommendation::Inconclusive => 3,
        Recommendation::NeedsMoreData => 4,
    }
}

/// Whether a recommendation names a clear winner.
pub open spec fn spec_is_actionable(r: Recommendation) -> bool {
    r is VariantWins || r is ControlWins
}

/// The textual form of a recommendation.
pub open spec fn spec_display(r: Recommendation) -> Seq<char> {
    match r {
        Recommendation::VariantWins(v) => "variant_wins:"@ + v@,
        Recommendation::ControlWins => "control_wins"@,
        Recommendation::Inconclusive => "inconclusive"@,
        Recommendation::NeedsMoreData => "needs_more_data"@,
    }
}

impl Recommendation {
    /// Returns `true` if this recommendation is actionable (a winner is clear).
    pub fn is_actionable(&self) -> (r: bool)
        ensures
            r == spec_is_actionable(*self),
    {
        match self {
            Recommendation::VariantWins(_) | Recommendation::ControlWins => true,
            _ => false,
        }
    }

    /// Numeric priority for ordering recommendations from most to least
    /// decisive (lower is more decisive).
    pub fn decisiveness_rank(&self) -> (r: u8)
        ensures
            r == spec_decisiveness_rank(*self),
            1 <= r <= 4,
    {
        match self {
            Recommendation::VariantWins(_) => 1,
            Recommendation::ControlWins => 2,
            Recommendation::Inconclusive => 3,
            Recommendation::NeedsMoreData => 4,
        }
    }

    /// The textual form: `variant_wins:<key>`, `control_wins`,
    /// `inconclusive` or `needs_more_data`.
    pub fn to_string(&self) -> (r: String)
        ensures
            r@ == spec_display(*self),
    {
        match self {
            Recommendation::VariantWins(v) => {
                let mut s = String::from_str("variant_wins:");
                s.append(v.as_str());
                s
            },
            Recommendation::ControlWins => String::from_str("control_wins"),
            Recommendation::Inconclusive => String::from_str("inconclusive"),
            Recommendation::NeedsMoreData => String::from_str("needs_more_data"),
        }
    }
}

/// Compare two recommendations by decisiveness.
pub open spec fn compare_decisiveness(a: Recommendation, b: Recommendation) -> Option<Ordering> {
    if spec_decisiveness_rank(a) < spec_decisiveness_rank(b) {
        Some(Ordering::Less)
    } else if spec_decisiveness_rank(a) == spec_decisiveness_rank(b) {
        Some(Ordering::Equal)
    } else {
        Some(Ordering::Greater)
    }
}

impl PartialOrd for Recommendation {
    fn partial_cmp(&self, other: &Self) -> (r: Option<Ordering>) {
        let a = self.decisiveness_rank();
        let b = other.decisiveness_rank();
        if a < b {
            Some(Ordering::Less)
        } else if a == b {
            Some(Ordering::Equal)
        } else {
            Some(Ordering::Greater)
        }
    }
}

impl vstd::std_specs::cmp::PartialOrdSpecImpl for Recommendation {
    open spec fn obeys_partial_cmp_spec() -> bool {
        true
    }

    open spec fn partial_cmp_spec(&self, other: &Self) -> Option<Ordering> {
        compare_decisiveness(*self, *other)
    }
}

/// Decisiveness is a total preorder: comparisons are antisymmetric, ties are
/// symmetric, and "more decisive than" is transitive.
pub proof fn lemma_decisiveness_total_preorder(a: Recommendation, b: Recommendation, c: Recommendation)
    ensures
        compare_decisiveness(a, b) == Some(Ordering::Less) <==> compare_decisiveness(b, a) == Some(
            Ordering::Greater,
        ),
        compare_decisiveness(a, b) == Some(Ordering::Equal) <==> compare_decisiveness(b, a)
            == Some(Ordering::Equal),
        compare_decisiveness(a, b) == Some(Ordering::Less) && compare_decisiveness(b, c) == Some(
            Ordering::Less,
        ) ==> compare_decisiveness(a, c) == Some(Ordering::Less),
        compare_decisiveness(a, a) == Some(Ordering::Equal),
{
}

/// A variant win is strictly more decisive than any other kind of
/// recommendation; needing more data is strictly less decisive than any
/// other kind; control wins beats inconclusive.
pub proof fn lemma_decisiveness_extremes(v: String, r: Recommendation)
    ensures
        !(r is VariantWins) ==> compare_decisiveness(Recommendation::VariantWins(v), r) == Some(
            Ordering::Less,
        ),
        !(r is NeedsMoreData) ==> compare_decisiveness(Recommendation::NeedsMoreData, r) == Some(
            Ordering::Greater,
        ),
        compare_decisiveness(Recommendation::ControlWins, Recommendation::Inconclusive) == Some(
            Ordering::Less,
        ),
{
}

/// The actionable recommendations are exactly the two most decisive kinds.
pub proof fn lemma_actionable_iff_most_decisive(r: Recommendation)
    ensures
        spec_is_actionable(r) <==> spec_decisiveness_rank(r) <= 2,
{
}

} // verus!
