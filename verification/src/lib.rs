//! Verified core of the Stitchd feature-flag and experimentation domain:
//! flag keys, rollout hashing, the experiment lifecycle, recommendation
//! logic, interaction-term bookkeeping, deterministic random streams and
//! basis-point apportionment for bandit allocations.

pub mod experimentation;
pub mod flag;
pub mod hashing;
pub mod id;
