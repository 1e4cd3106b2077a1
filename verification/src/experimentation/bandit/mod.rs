//! Bandit (adaptive allocation) domain.

pub mod allocation;
pub mod config;
pub mod contextual;
pub mod reward;
pub mod types;
