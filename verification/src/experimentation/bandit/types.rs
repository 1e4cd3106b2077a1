//! Bandit configuration vocabulary: allocation mode, propagation path,
//! lifecycle policy, guardrail direction, campaign policies.

use vstd::prelude::*;

verus! {

/// Whether an experiment uses a fixed split or adaptive (bandit) allocation.
#[derive(Debug, Clone, Copy, PartialEq, Eq, Hash, Structural)]
pub enum ExperimentMode {
    /// A classic fixed-split experiment (the default).
    Fixed,
    /// An adaptive multi-armed-bandit experiment.
    Bandit,
}

impl Default for ExperimentMode {
    fn default() -> (r: Self)
        ensures
            r == ExperimentMode::Fixed,
    {
        ExperimentMode::Fixed
    }
}

/// Minimal contextual-bandit configuration: the names of the context
/// features the per-context reward model is conditioned on.
#[derive(Debug, Clone, PartialEq, Eq)]
pub struct ContextualConfig {
    /// Names of the context features (may be empty).
    pub features: Vec<String>,
}

impl Default for ContextualConfig {
    fn default() -> (r: Self)
        ensures
            r.features@.len() == 0,
    {
        ContextualConfig { features: Vec::new() }
    }
}

/// How recomputed bandit weights reach evaluation.
#[derive(Debug, Clone, Copy, PartialEq, Eq, Hash, Structural)]
pub enum PropagationMode {
    /// Each tick rewrites the bound rule's allocation (the default).
    Static,
    /// Reward-model parameters ride on the flag snapshot and the variant is
    /// sampled per context at evaluation time.
    Realtime,
}

impl Default for PropagationMode {
    fn default() -> (r: Self)
        ensures
            r == PropagationMode::Static,
    {
        PropagationMode::Static
    }
}

/// The operator-selected autonomous lifecycle policy.
#[derive(Debug, Clone, Copy, PartialEq, Eq, Hash, Structural)]
pub enum LifecyclePolicy {
    /// Raise a "ready to commit" badge, take no automated action (default).
    Advisory,
    /// Lock allocation to the winner (flag still held).
    AutoCommit,
    /// Commit to the winner, stop the experiment and promote the winner into
    /// the standing rule.
    AutoRollout,
}

impl Default for LifecyclePolicy {
    fn default() -> (r: Self)
        ensures
            r == LifecyclePolicy::Advisory,
    {
        LifecyclePolicy::Advisory
    }
}

/// Direction a guardrail bound is enforced in.
#[derive(Debug, Clone, Copy, PartialEq, Eq, Hash, Structural)]
pub enum ConstraintDirection {
    /// The metric must stay at or above the bound.
    AtLeast,
    /// The metric must stay at or below the bound.
    AtMost,
}

/// How a campaign carries variants forward when it spawns an iteration.
#[derive(Debug, Clone, Copy, PartialEq, Eq, Hash, Structural)]
pub enum VariantDiscoveryPolicy {
    /// Carry the winner forward plus any newly registered variants (default).
    WinnerPlusNew,
    /// Carry only the winner forward.
    WinnerOnly,
}

impl Default for VariantDiscoveryPolicy {
    fn default() -> (r: Self)
        ensures
            r == VariantDiscoveryPolicy::WinnerPlusNew,
    {
        VariantDiscoveryPolicy::WinnerPlusNew
    }
}

/// A hard ceiling on the resources a campaign may consume across iterations.
#[derive(Debug, Clone, Copy, PartialEq, Eq, Structural)]
pub struct BudgetCap {
    /// Maximum cumulative enrolled units across all campaign iterations;
    /// `None` leaves the dimension uncapped.
    pub max_total_units: Option<i64>,
}

/// The optimisation direction of a reward metric.
#[derive(Debug, Clone, Copy, PartialEq, Eq, Hash, Structural)]
pub enum GoalDirection {
    /// Higher metric value is better.
    Increase,
    /// Lower metric value is better.
    Decrease,
}

} // verus!
