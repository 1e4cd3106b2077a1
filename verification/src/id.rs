//! Identifiers and validated keys.
//!
//! Entity identifiers are UUIDs; the library holds each as its 128-bit value.

use vstd::prelude::*;
use vstd::string::StrSliceExecFns;

verus! {

/// Errors raised when constructing a [`FlagKey`].
#[derive(Debug, Clone, Copy, PartialEq, Eq, Structural)]
pub enum FlagKeyError {
    /// The key was empty.
    Empty,
    /// The key is longer than 255 characters.
    TooLong,
}

/// Maximum length of a flag key, in characters.
pub const FLAG_KEY_MAX_LEN: usize = 255;

/// A validated flag key: non-empty and at most 255 characters long.
#[derive(Debug, Clone, PartialEq, Eq, Hash)]
pub struct FlagKey(String);

impl View for FlagKey {
    type V = Seq<char>;

    closed spec fn view(&self) -> Seq<char> {
        self.0@
    }
}

/// Whether `s` is acceptable as a flag key.
pub open spec fn spec_valid_flag_key(s: Seq<char>) -> bool {
    0 < s.len() <= FLAG_KEY_MAX_LEN
}

impl FlagKey {
    /// Validate and wrap `s` as a flag key.
    ///
    /// Fails with `Empty` for the empty string and with `TooLong` when `s`
    /// holds more than 255 characters.
    pub fn new(s: String) -> (r: Result<FlagKey, FlagKeyError>)
        ensures
            s@.len() == 0 ==> r == Err::<FlagKey, FlagKeyError>(FlagKeyError::Empty),
            s@.len() > FLAG_KEY_MAX_LEN ==> r == Err::<
                FlagKey,
                FlagKeyError,
            >(FlagKeyError::TooLong),
            spec_valid_flag_key(s@) ==> (r matches Ok(k) && k@ == s@),
    {
        let chars = s.as_str().unicode_len();
        if chars == 0 {
            return Err(FlagKeyError::Empty);
        }
        if chars > FLAG_KEY_MAX_LEN {
            return Err(FlagKeyError::TooLong);
        }
        Ok(FlagKey(s))
    }

    /// The key as a string slice.
    pub fn as_str(&self) -> (r: &str)
        ensures
            r@ == self@,
    {
        self.0.as_str()
    }
}

/// Identifier of a flag.
#[derive(Debug, Clone, Copy, PartialEq, Eq, Hash, Structural)]
pub struct FlagId(pub u128);

/// Identifier of an environment.
#[derive(Debug, Clone, Copy, PartialEq, Eq, Hash, Structural)]
pub struct EnvironmentId(pub u128);

/// Identifier of an exclusion group.
#[derive(Debug, Clone, Copy, PartialEq, Eq, Hash, Structural)]
pub struct ExclusionGroupId(pub u128);

} // verus!
