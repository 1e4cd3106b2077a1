//! Contextual-bandit feature model: which context features the reward model
//! conditions on and how each is laid out in the design vector.

use vstd::prelude::*;

verus! {

/// How a single context feature is turned into numeric slots of the design
/// vector.
#[derive(Debug, Clone, PartialEq, Eq)]
pub enum FeatureEncoding {
    /// The parameter passes through as a single numeric slot.
    Numeric,
    /// One slot per declared category, in declaration order.
    OneHot {
        /// The categories to encode, one slot each.
        categories: Vec<String>,
    },
}

/// Number of design-vector slots of an encoding.
pub open spec fn spec_width(e: FeatureEncoding) -> nat {
    match e {
        FeatureEncoding::Numeric => 1,
        FeatureEncoding::OneHot { categories } => categories@.len(),
    }
}

impl FeatureEncoding {
    /// The number of design-vector slots this encoding contributes: one for
    /// a numeric feature, one per category for a one-hot feature.
    pub fn width(&self) -> (r: usize)
        ensures
            r == spec_width(*self),
    {
        match self {
            FeatureEncoding::Numeric => 1,
            FeatureEncoding::OneHot { categories } => categories.len(),
        }
    }
}

/// One context feature the reward model conditions on.
#[derive(Debug, Clone, PartialEq, Eq)]
pub struct FeatureSpec {
    /// The context type whose parameter is read (e.g. `"user"`).
    pub context_type: String,
    /// The parameter name within that context (e.g. `"plan"`).
    pub parameter: String,
    /// How the parameter value is encoded.
    pub encoding: FeatureEncoding,
}

/// Resolves the raw string value of a `(context_type, parameter)` pair for
/// the feature encoder; implemented by the caller over its context store.
pub trait FeatureResolver {
    /// Resolve the raw string value of `(context_type, parameter)`, if present.
    fn resolve(&self, context_type: &str, parameter: &str) -> Option<&str>;
}

/// Total number of slots of a list of features.
pub open spec fn total_width(features: Seq<FeatureSpec>) -> int
    decreases features.len(),
{
    if features.len() == 0 {
        0
    } else {
        total_width(features.drop_last()) + spec_width(features.last().encoding)
    }
}

/// The design-vector dimension of a model over `features`: one intercept
/// slot plus the width of every feature.
pub fn design_dim(features: &[FeatureSpec]) -> (r: usize)
    requires
        1 + total_width(features@) <= usize::MAX,
    ensures
        r == 1 + total_width(features@),
{
    let mut total: usize = 1;
    let mut i: usize = 0;
    while i < features.len()
        invariant
            0 <= i <= features@.len(),
            total == 1 + total_width(features@.subrange(0, i as int)),
            1 + total_width(features@) <= usize::MAX,
        decreases features@.len() - i,
    {
        proof {
            assert(features@.subrange(0, i + 1).drop_last() =~= features@.subrange(0, i as int));
            lemma_prefix_width_le(features@, i + 1);
        }
        total = total + features[i].encoding.width();
        i = i + 1;
    }
    assert(features@.subrange(0, features@.len() as int) =~= features@);
    total
}

proof fn lemma_prefix_width_le(features: Seq<FeatureSpec>, k: int)
    requires
        0 <= k <= features.len(),
    ensures
        0 <= total_width(features.subrange(0, k)) <= total_width(features),
    decreases features.len(),
{
    if k < features.len() {
        lemma_prefix_width_le(features.drop_last(), k);
        assert(features.drop_last().subrange(0, k) =~= features.subrange(0, k));
    } else {
        assert(features.subrange(0, k) =~= features);
        if features.len() > 0 {
            lemma_prefix_width_le(features.drop_last(), features.len() - 1);
            assert(features.drop_last().subrange(0, features.len() - 1) =~= features.drop_last());
        }
    }
}

} // verus!
