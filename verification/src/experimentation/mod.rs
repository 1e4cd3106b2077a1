//! Experiment lifecycle.
//!
//! An experiment moves through [`ExperimentStatus`] values; each transition
//! **into** [`ExperimentStatus::Running`] starts a new iteration.

pub mod bandit;
pub mod stats;

use vstd::prelude::*;

use crate::id::{EnvironmentId, ExclusionGroupId};

verus! {

/// The lifecycle status of an experiment.
#[derive(Debug, Clone, Copy, PartialEq, Eq, Hash, Structural)]
pub enum ExperimentStatus {
    /// Created but not yet started.
    Draft,
    /// Actively running and enrolling traffic.
    Running,
    /// Temporarily paused.
    Paused,
    /// Stopped; may be restarted.
    Stopped,
}

/// Errors that can occur during experiment operations.
#[derive(Debug, Clone, Copy, PartialEq, Eq, Structural)]
pub enum ExperimentError {
    /// The requested status transition is not valid.
    InvalidTransition { from: ExperimentStatus, to: ExperimentStatus },
    /// Mutation is not allowed while the experiment is running.
    MutationWhileRunning,
}

/// The statuses reachable in one step from `s`, in the documented order.
pub open spec fn spec_allowed_transitions(s: ExperimentStatus) -> Seq<ExperimentStatus> {
    match s {
        ExperimentStatus::Draft => seq![ExperimentStatus::Running],
        ExperimentStatus::Running => seq![ExperimentStatus::Paused, ExperimentStatus::Stopped],
        ExperimentStatus::Paused => seq![ExperimentStatus::Running, ExperimentStatus::Stopped],
        ExperimentStatus::Stopped => seq![ExperimentStatus::Running],
    }
}

/// Whether moving from `from` to `to` is a valid lifecycle step.
pub open spec fn spec_can_transition(from: ExperimentStatus, to: ExperimentStatus) -> bool {
    spec_allowed_transitions(from).contains(to)
}

/// Whether the step from `from` to `to` starts a new iteration.
pub open spec fn spec_creates_iteration(from: ExperimentStatus, to: ExperimentStatus) -> bool {
    to == ExperimentStatus::Running && (from == ExperimentStatus::Draft
        || from == ExperimentStatus::Paused || from == ExperimentStatus::Stopped)
}

impl ExperimentStatus {
    /// Returns the set of valid next statuses from this status.
    ///
    /// Valid transitions: draft → running; running → paused; running → stopped;
    /// paused → running; paused → stopped; stopped → running (restart).
    pub fn allowed_transitions(&self) -> (r: &'static [ExperimentStatus])
        ensures
            r@ == spec_allowed_transitions(*self),
    {
        match self {
            ExperimentStatus::Draft => &[ExperimentStatus::Running],
            ExperimentStatus::Running => &[ExperimentStatus::Paused, ExperimentStatus::Stopped],
            ExperimentStatus::Paused => &[ExperimentStatus::Running, ExperimentStatus::Stopped],
            ExperimentStatus::Stopped => &[ExperimentStatus::Running],
        }
    }

    /// Returns `true` if transitioning to `to` from this status is valid.
    pub fn can_transition_to(&self, to: ExperimentStatus) -> (r: bool)
        ensures
            r == spec_can_transition(*self, to),
    {
        let allowed = self.allowed_transitions();
        let mut i: usize = 0;
        while i < allowed.len()
            invariant
                allowed@ == spec_allowed_transitions(*self),
                0 <= i <= allowed@.len(),
                forall|j: int| 0 <= j < i ==> allowed@[j] != to,
            decreases allowed@.len() - i,
        {
            if allowed[i] == to {
                return true;
            }
            i = i + 1;
        }
        false
    }
}

/// Returns `true` when the transition causes a new iteration to be created.
///
/// A new iteration is created on every transition **into** `running`.
pub fn creates_iteration(from: ExperimentStatus, to: ExperimentStatus) -> (r: bool)
    ensures
        r == spec_creates_iteration(from, to),
{
    to == ExperimentStatus::Running && match from {
        ExperimentStatus::Draft | ExperimentStatus::Paused | ExperimentStatus::Stopped => true,
        ExperimentStatus::Running => false,
    }
}

/// Validates that a mutation is allowed given the current experiment status.
///
/// Returns `Err(ExperimentError::MutationWhileRunning)` exactly when the
/// experiment is running.
pub fn validate_mutation(status: ExperimentStatus) -> (r: Result<(), ExperimentError>)
    ensures
        status == ExperimentStatus::Running ==> r == Err::<(), ExperimentError>(
            ExperimentError::MutationWhileRunning,
        ),
        status != ExperimentStatus::Running ==> r == Ok::<(), ExperimentError>(()),
{
    if status == ExperimentStatus::Running {
        Err(ExperimentError::MutationWhileRunning)
    } else {
        Ok(())
    }
}

/// Validates a status transition, returning `Ok(())` if it is valid and
/// `InvalidTransition { from, to }` otherwise.
pub fn validate_transition(from: ExperimentStatus, to: ExperimentStatus) -> (r: Result<
    (),
    ExperimentError,
>)
    ensures
        spec_can_transition(from, to) ==> r == Ok::<(), ExperimentError>(()),
        !spec_can_transition(from, to) ==> r == Err::<(), ExperimentError>(
            ExperimentError::InvalidTransition { from, to },
        ),
{
    if from.can_transition_to(to) {
        Ok(())
    } else {
        Err(ExperimentError::InvalidTransition { from, to })
    }
}

/// The valid lifecycle steps are exactly: draft → running, running → paused,
/// running → stopped, paused → running, paused → stopped and stopped → running.
pub proof fn lemma_transition_table(from: ExperimentStatus, to: ExperimentStatus)
    ensures
        spec_can_transition(from, to) <==> (
            (from == ExperimentStatus::Draft && to == ExperimentStatus::Running)
            || (from == ExperimentStatus::Running && to == ExperimentStatus::Paused)
            || (from == ExperimentStatus::Running && to == ExperimentStatus::Stopped)
            || (from == ExperimentStatus::Paused && to == ExperimentStatus::Running)
            || (from == ExperimentStatus::Paused && to == ExperimentStatus::Stopped)
            || (from == ExperimentStatus::Stopped && to == ExperimentStatus::Running)),
{
    match from {
        ExperimentStatus::Draft => {
            assert(spec_allowed_transitions(from)[0] == ExperimentStatus::Running);
        },
        ExperimentStatus::Running => {
            assert(spec_allowed_transitions(from)[0] == ExperimentStatus::Paused);
            assert(spec_allowed_transitions(from)[1] == ExperimentStatus::Stopped);
        },
        ExperimentStatus::Paused => {
            assert(spec_allowed_transitions(from)[0] == ExperimentStatus::Running);
            assert(spec_allowed_transitions(from)[1] == ExperimentStatus::Stopped);
        },
        ExperimentStatus::Stopped => {
            assert(spec_allowed_transitions(from)[0] == ExperimentStatus::Running);
        },
    }
}

/// A new iteration is created exactly by the valid transitions into
/// `running`: every iteration-creating step is a valid step, and every valid
/// step into `running` creates an iteration.
pub proof fn lemma_iteration_iff_valid_entry_into_running(
    from: ExperimentStatus,
    to: ExperimentStatus,
)
    ensures
        spec_creates_iteration(from, to) <==> (spec_can_transition(from, to) && to
            == ExperimentStatus::Running),
{
    lemma_transition_table(from, to);
}

/// No status can step to itself, and nothing ever steps back into `draft`.
pub proof fn lemma_no_self_loops_and_draft_is_initial(from: ExperimentStatus, to: ExperimentStatus)
    ensures
        !spec_can_transition(from, from),
        !spec_can_transition(from, ExperimentStatus::Draft),
{
    lemma_transition_table(from, from);
    lemma_transition_table(from, ExperimentStatus::Draft);
}

/// From every status some valid step exists, so no status is a dead end
/// (a stopped experiment can always be restarted).
pub proof fn lemma_every_status_has_a_successor(s: ExperimentStatus)
    ensures
        spec_allowed_transitions(s).len() > 0,
        spec_can_transition(s, spec_allowed_transitions(s)[0]),
{
}

/// A mutually-exclusive experiment group within an environment.
///
/// Members of the same group are placed into disjoint basis-point bucket
/// ranges (carved out of `[0, 10000)`) using a shared salt.
#[derive(Debug, Clone, PartialEq)]
pub struct ExclusionGroup {
    /// Unique identifier.
    pub id: ExclusionGroupId,
    /// The environment this group belongs to.
    pub environment_id: EnvironmentId,
    /// Human-readable name.
    pub name: String,
    /// Optional description.
    pub description: Option<String>,
    /// Salt shared by all members, used to derive each context's group bucket.
    pub salt: String,
    /// The group's diversion unit context type, e.g. `"user"`.
    pub unit_context_type: String,
    /// Total basis points currently allocated to members.
    pub allocated_bp: u32,
    /// Free basis points remaining (`10000 - allocated_bp`).
    pub free_bp: u32,
    /// Optimistic-concurrency version counter.
    pub version: i64,
}

/// Default minimum per-variant sample size for sequential testing when not
/// explicitly configured.
pub fn default_sequential_min_sample_size() -> (r: i64)
    ensures
        r == 100,
{
    100
}

} // verus!
