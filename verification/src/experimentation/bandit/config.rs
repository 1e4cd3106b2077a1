//! Shape validation of bandit and campaign configurations: which check a
//! configuration fails first, once each of its floating-point fields has been
//! tested against its range.

use vstd::prelude::*;

verus! {

/// Largest exploration floor, in basis points, that a bandit may guarantee
/// each arm.
pub const MAX_MIN_EXPLORATION_BP: u32 = 5000;

/// The configured algorithm's own parameter, as it was found.
#[derive(Debug, Clone, Copy, PartialEq, Eq, Structural)]
pub enum AlgorithmParam {
    /// Thompson sampling or a contextual bandit: nothing to check.
    Unparameterised,
    /// Epsilon-greedy, with whether `epsilon` is finite and within `[0, 1]`.
    Epsilon { in_unit_interval: bool },
    /// Upper confidence bound, with whether `c` is finite and positive.
    Ucb { positive: bool },
}

/// The reward objective's shape, each of its floating-point values tested
/// for finiteness, in the order the objective lists them.
#[derive(Debug, Clone)]
pub enum ObjectiveShape {
    /// A single scalar objective metric: nothing to check.
    Scalar,
    /// A weighted sum: one entry per weight, `true` where it is finite.
    Scalarized { weight_is_finite: Vec<bool> },
    /// A primary metric under guardrails: one entry per guardrail bound,
    /// `true` where it is finite.
    Constrained { bound_is_finite: Vec<bool> },
}

/// The first check that a configuration fails.
#[derive(Debug, Clone, Copy, PartialEq, Eq, Structural)]
pub enum ConfigFault {
    /// The exploration floor exceeds [`MAX_MIN_EXPLORATION_BP`].
    MinExplorationTooHigh(u32),
    /// The convergence probability threshold is not strictly inside `(0, 1)`.
    ConvergenceThresholdOutOfRange,
    /// Epsilon-greedy's `epsilon` is not a finite value in `[0, 1]`.
    EpsilonOutOfRange,
    /// The upper-confidence-bound coefficient is not finite and positive.
    UcbCoefficientOutOfRange,
    /// A scalarized objective lists no weights.
    EmptyScalarizedWeights,
    /// The weight at this position is the first one that is not finite.
    NonFiniteWeight(usize),
    /// The guardrail bound at this position is the first one that is not finite.
    NonFiniteBound(usize),
    /// A campaign allows no iteration at all.
    ZeroMaxIterations,
    /// The campaign's drift threshold is not strictly inside `(0, 1)`.
    DriftThresholdOutOfRange,
}

/// Whether every entry of `s` holds.
pub open spec fn all_hold(s: Seq<bool>) -> bool {
    forall|j: int| 0 <= j < s.len() ==> #[trigger] s[j]
}

/// Whether `i` is the position of the first entry of `s` that fails.
pub open spec fn is_first_failure(s: Seq<bool>, i: int) -> bool {
    &&& 0 <= i < s.len()
    &&& !s[i]
    &&& forall|j: int| 0 <= j < i ==> #[trigger] s[j]
}

/// The position of the first entry of `s` that fails (meaningful when one
/// does).
pub open spec fn first_failure(s: Seq<bool>) -> int {
    choose|i: int| is_first_failure(s, i)
}

/// Only one position is the first failure.
proof fn lemma_first_failure_unique(s: Seq<bool>, i: int, k: int)
    requires
        is_first_failure(s, i),
        is_first_failure(s, k),
    ensures
        i == k,
{
    if i < k {
        assert(s[i]);
    } else if k < i {
        assert(s[k]);
    }
}

/// A failing position, once found, is the one `first_failure` names.
proof fn lemma_found_first_failure(s: Seq<bool>, i: int)
    requires
        is_first_failure(s, i),
    ensures
        first_failure(s) == i,
        !all_hold(s),
{
    assert(exists|k: int| is_first_failure(s, k));
    lemma_first_failure_unique(s, i, first_failure(s));
}

/// The position of the first entry of `flags` that is `false`, or `None`
/// when all are `true`.
pub fn first_failing(flags: &[bool]) -> (r: Option<usize>)
    ensures
        match r {
            Some(i) => is_first_failure(flags@, i as int),
            None => all_hold(flags@),
        },
{
    let mut i: usize = 0;
    while i < flags.len()
        invariant
            0 <= i <= flags@.len(),
            forall|j: int| 0 <= j < i ==> #[trigger] flags@[j],
        decreases flags@.len() - i,
    {
        if !flags[i] {
            return Some(i);
        }
        i = i + 1;
    }
    None
}

/// What the reward objective's shape fails first, if anything.
pub open spec fn spec_objective_fault(objective: ObjectiveShape) -> Option<ConfigFault> {
    match objective {
        ObjectiveShape::Scalar => None,
        ObjectiveShape::Scalarized { weight_is_finite } => {
            if weight_is_finite@.len() == 0 {
                Some(ConfigFault::EmptyScalarizedWeights)
            } else if all_hold(weight_is_finite@) {
                None
            } else {
                Some(ConfigFault::NonFiniteWeight(first_failure(weight_is_finite@) as usize))
            }
        },
        ObjectiveShape::Constrained { bound_is_finite } => {
            if all_hold(bound_is_finite@) {
                None
            } else {
                Some(ConfigFault::NonFiniteBound(first_failure(bound_is_finite@) as usize))
            }
        },
    }
}

/// What a bandit configuration fails first, if anything: the exploration
/// floor, then the convergence threshold, then the algorithm's parameter,
/// then the reward objective.
pub open spec fn spec_bandit_config_fault(
    min_exploration_bp: u32,
    convergence_threshold_in_open_unit_interval: bool,
    algorithm: AlgorithmParam,
    objective: ObjectiveShape,
) -> Option<ConfigFault> {
    if min_exploration_bp > MAX_MIN_EXPLORATION_BP {
        Some(ConfigFault::MinExplorationTooHigh(min_exploration_bp))
    } else if !convergence_threshold_in_open_unit_interval {
        Some(ConfigFault::ConvergenceThresholdOutOfRange)
    } else {
        match algorithm {
            AlgorithmParam::Epsilon { in_unit_interval: false } => Some(
                ConfigFault::EpsilonOutOfRange,
            ),
            AlgorithmParam::Ucb { positive: false } => Some(ConfigFault::UcbCoefficientOutOfRange),
            _ => spec_objective_fault(objective),
        }
    }
}

/// The first check that the reward objective fails, if any.
pub fn objective_fault(objective: &ObjectiveShape) -> (r: Option<ConfigFault>)
    ensures
        r == spec_objective_fault(*objective),
{
    match objective {
        ObjectiveShape::Scalar => None,
        ObjectiveShape::Scalarized { weight_is_finite } => {
            if weight_is_finite.len() == 0 {
                return Some(ConfigFault::EmptyScalarizedWeights);
            }
            match first_failing(weight_is_finite.as_slice()) {
                Some(i) => {
                    proof {
                        lemma_found_first_failure(weight_is_finite@, i as int);
                    }
                    Some(ConfigFault::NonFiniteWeight(i))
                },
                None => None,
            }
        },
        ObjectiveShape::Constrained { bound_is_finite } => {
            match first_failing(bound_is_finite.as_slice()) {
                Some(i) => {
                    proof {
                        lemma_found_first_failure(bound_is_finite@, i as int);
                    }
                    Some(ConfigFault::NonFiniteBound(i))
                },
                None => None,
            }
        },
    }
}

/// The first check that a bandit configuration fails, or `None` when it is
/// valid.
///
/// The checks run in order: the exploration floor must not exceed
/// [`MAX_MIN_EXPLORATION_BP`]; the convergence threshold must lie strictly
/// inside `(0, 1)`; epsilon-greedy's `epsilon` must be a finite value in
/// `[0, 1]` and the UCB coefficient finite and positive; a scalarized
/// objective must list at least one weight and every weight must be finite;
/// every guardrail bound must be finite.
pub fn bandit_config_fault(
    min_exploration_bp: u32,
    convergence_threshold_in_open_unit_interval: bool,
    algorithm: AlgorithmParam,
    objective: &ObjectiveShape,
) -> (r: Option<ConfigFault>)
    ensures
        r == spec_bandit_config_fault(
            min_exploration_bp,
            convergence_threshold_in_open_unit_interval,
            algorithm,
            *objective,
        ),
{
    if min_exploration_bp > MAX_MIN_EXPLORATION_BP {
        return Some(ConfigFault::MinExplorationTooHigh(min_exploration_bp));
    }
    if !convergence_threshold_in_open_unit_interval {
        return Some(ConfigFault::ConvergenceThresholdOutOfRange);
    }
    match algorithm {
        AlgorithmParam::Epsilon { in_unit_interval } => {
            if !in_unit_interval {
                return Some(ConfigFault::EpsilonOutOfRange);
            }
        },
        AlgorithmParam::Ucb { positive } => {
            if !positive {
                return Some(ConfigFault::UcbCoefficientOutOfRange);
            }
        },
        AlgorithmParam::Unparameterised => {},
    }
    objective_fault(objective)
}

/// What a campaign configuration fails first, if anything.
pub open spec fn spec_campaign_config_fault(
    max_iterations: u32,
    drift_threshold_in_open_unit_interval: bool,
) -> Option<ConfigFault> {
    if max_iterations == 0 {
        Some(ConfigFault::ZeroMaxIterations)
    } else if !drift_threshold_in_open_unit_interval {
        Some(ConfigFault::DriftThresholdOutOfRange)
    } else {
        None
    }
}

/// The first check that a campaign configuration fails, or `None` when it
/// is valid: the campaign must allow at least one iteration, and its drift
/// threshold must lie strictly inside `(0, 1)`.
pub fn campaign_config_fault(max_iterations: u32, drift_threshold_in_open_unit_interval: bool) -> (r:
    Option<ConfigFault>)
    ensures
        r == spec_campaign_config_fault(max_iterations, drift_threshold_in_open_unit_interval),
{
    if max_iterations == 0 {
        Some(ConfigFault::ZeroMaxIterations)
    } else if !drift_threshold_in_open_unit_interval {
        Some(ConfigFault::DriftThresholdOutOfRange)
    } else {
        None
    }
}


/// What the reward objective's check reports, in terms of its entries: a
/// scalar objective never fails; a scalarized one fails with
/// `EmptyScalarizedWeights` exactly when it lists no weight, and otherwise
/// with `NonFiniteWeight(i)` exactly when `i` is the first non-finite weight;
/// a constrained one fails with `NonFiniteBound(i)` exactly when `i` is the
/// first non-finite bound. With every entry finite (and, for weights, at
/// least one) it passes.
pub proof fn lemma_objective_fault_meaning(objective: ObjectiveShape)
    ensures
        match objective {
            ObjectiveShape::Scalar => spec_objective_fault(objective) is None,
            ObjectiveShape::Scalarized { weight_is_finite } => {
                let w = weight_is_finite@;
                &&& (spec_objective_fault(objective) == Some(ConfigFault::EmptyScalarizedWeights)
                    <==> w.len() == 0)
                &&& (spec_objective_fault(objective) is None <==> (w.len() > 0 && forall|j: int|
                    0 <= j < w.len() ==> #[trigger] w[j]))
                &&& forall|i: usize|
                    spec_objective_fault(objective) == Some(ConfigFault::NonFiniteWeight(i)) <==> (
                    i < w.len() && !w[i as int] && forall|j: int| 0 <= j < i ==> #[trigger] w[j])
                &&& (spec_objective_fault(objective) is None || spec_objective_fault(
                    objective,
                ) == Some(ConfigFault::EmptyScalarizedWeights) || spec_objective_fault(
                    objective,
                ) is Some && spec_objective_fault(objective)->Some_0 is NonFiniteWeight)
            },
            ObjectiveShape::Constrained { bound_is_finite } => {
                let v = bound_is_finite@;
                &&& (spec_objective_fault(objective) is None <==> forall|j: int|
                    0 <= j < v.len() ==> #[trigger] v[j])
                &&& forall|i: usize|
                    spec_objective_fault(objective) == Some(ConfigFault::NonFiniteBound(i)) <==> (i
                        < v.len() && !v[i as int] && forall|j: int| 0 <= j < i ==> #[trigger] v[j])
                &&& (spec_objective_fault(objective) is None || spec_objective_fault(
                    objective,
                ) is Some && spec_objective_fault(objective)->Some_0 is NonFiniteBound)
            },
        },
{
    match objective {
        ObjectiveShape::Scalar => {},
        ObjectiveShape::Scalarized { weight_is_finite } => {
            let w = weight_is_finite@;
            if w.len() > 0 && !all_hold(w) {
                let i = choose|i: int| 0 <= i < w.len() && !w[i];
                lemma_first_failure_exists(w, i);
                let f = first_failure(w);
                assert(weight_is_finite.len() == w.len());
                assert(f as usize as int == f);
                assert forall|k: usize|
                    spec_objective_fault(objective) == Some(ConfigFault::NonFiniteWeight(k)) <==> (k
                        < w.len() && !w[k as int] && forall|j: int| 0 <= j < k ==> #[trigger] w[j])
                    by {
                    if k < w.len() && !w[k as int] && forall|j: int| 0 <= j < k ==> #[trigger] w[j] {
                        lemma_first_failure_unique(w, f, k as int);
                    }
                }
            }
        },
        ObjectiveShape::Constrained { bound_is_finite } => {
            let v = bound_is_finite@;
            if !all_hold(v) {
                let i = choose|i: int| 0 <= i < v.len() && !v[i];
                lemma_first_failure_exists(v, i);
                let f = first_failure(v);
                assert(bound_is_finite.len() == v.len());
                assert(f as usize as int == f);
                assert forall|k: usize|
                    spec_objective_fault(objective) == Some(ConfigFault::NonFiniteBound(k)) <==> (k
                        < v.len() && !v[k as int] && forall|j: int| 0 <= j < k ==> #[trigger] v[j])
                    by {
                    if k < v.len() && !v[k as int] && forall|j: int| 0 <= j < k ==> #[trigger] v[j] {
                        lemma_first_failure_unique(v, f, k as int);
                    }
                }
            }
        },
    }
}

/// A failing entry makes a first failing entry exist, and `first_failure`
/// names it.
proof fn lemma_first_failure_exists(s: Seq<bool>, i: int)
    requires
        0 <= i < s.len(),
        !s[i],
    ensures
        is_first_failure(s, first_failure(s)),
    decreases i,
{
    if forall|j: int| 0 <= j < i ==> #[trigger] s[j] {
        assert(is_first_failure(s, i));
    } else {
        let k = choose|k: int| 0 <= k < i && !s[k];
        lemma_first_failure_exists(s, k);
    }
}

/// What a bandit configuration's check reports, in terms of its inputs:
/// it passes exactly when the floor is at most 5000 bp, the convergence
/// threshold lies inside `(0, 1)`, the algorithm's parameter is in range
/// and the objective passes; and each algorithm fault is reported exactly
/// when its own parameter is out of range and every earlier check passed.
pub proof fn lemma_bandit_config_fault_meaning(
    min_exploration_bp: u32,
    convergence_threshold_in_open_unit_interval: bool,
    algorithm: AlgorithmParam,
    objective: ObjectiveShape,
)
    ensures
        ({
            let r = spec_bandit_config_fault(
                min_exploration_bp,
                convergence_threshold_in_open_unit_interval,
                algorithm,
                objective,
            );
            let earlier_ok = min_exploration_bp <= 5000
                && convergence_threshold_in_open_unit_interval;
            let param_ok = match algorithm {
                AlgorithmParam::Unparameterised => true,
                AlgorithmParam::Epsilon { in_unit_interval } => in_unit_interval,
                AlgorithmParam::Ucb { positive } => positive,
            };
            &&& (r is None <==> earlier_ok && param_ok && spec_objective_fault(objective) is None)
            &&& (r == Some(ConfigFault::MinExplorationTooHigh(min_exploration_bp))
                <==> min_exploration_bp > 5000)
            &&& (r == Some(ConfigFault::ConvergenceThresholdOutOfRange) <==> min_exploration_bp
                <= 5000 && !convergence_threshold_in_open_unit_interval)
            &&& (r == Some(ConfigFault::EpsilonOutOfRange) <==> earlier_ok && algorithm == (
            AlgorithmParam::Epsilon { in_unit_interval: false }))
            &&& (r == Some(ConfigFault::UcbCoefficientOutOfRange) <==> earlier_ok && algorithm == (
            AlgorithmParam::Ucb { positive: false }))
            &&& (earlier_ok && param_ok ==> r == spec_objective_fault(objective))
        }),
{
    lemma_objective_fault_meaning(objective);
}

/// What a campaign configuration's check reports, in terms of its inputs:
/// `ZeroMaxIterations` exactly when no iteration is allowed,
/// `DriftThresholdOutOfRange` exactly when some are and the drift threshold
/// is outside `(0, 1)`, and nothing otherwise.
pub proof fn lemma_campaign_config_fault_meaning(
    max_iterations: u32,
    drift_threshold_in_open_unit_interval: bool,
)
    ensures
        ({
            let r = spec_campaign_config_fault(max_iterations, drift_threshold_in_open_unit_interval);
            &&& (r == Some(ConfigFault::ZeroMaxIterations) <==> max_iterations == 0)
            &&& (r == Some(ConfigFault::DriftThresholdOutOfRange) <==> max_iterations > 0
                && !drift_threshold_in_open_unit_interval)
            &&& (r is None <==> max_iterations > 0 && drift_threshold_in_open_unit_interval)
        }),
{
}

} // verus!
