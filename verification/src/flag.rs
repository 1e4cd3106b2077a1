//! Flag configuration records.

use vstd::prelude::*;

use crate::id::FlagId;

verus! {

/// Configures which context parameters are used for hashing a flag.
#[derive(Debug, Clone, PartialEq, Eq)]
pub struct FlagHashingConfig {
    /// The flag this config belongs to.
    pub flag_id: FlagId,
    /// The parameter key to hash.
    pub parameter_key: String,
    /// The context type (e.g. `user`, `session`).
    pub parameter_type: String,
    /// The order in which parameters are combined for hashing.
    pub order: i32,
}

} // verus!
