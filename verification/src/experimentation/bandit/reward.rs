//! Which metrics a multi-objective reward reads, and in which role: the
//! lookup of a metric by id (first match, falling back to the first metric
//! where the objective names a single metric) and the list of per-objective
//! summaries an objective calls for.

use vstd::prelude::*;

verus! {

/// The role a metric plays inside a reward objective.
#[derive(Debug, Clone, Copy, PartialEq, Eq, Structural)]
pub enum ObjectiveRole {
    /// The single scalar objective metric.
    Scalar,
    /// A scalarised-mode weighted metric; the weight is carried scaled by
    /// 1000 and rounded.
    Weighted(i64),
    /// The constrained-mode primary objective.
    Primary,
    /// A constrained-mode guardrail metric.
    Guardrail,
}

/// The metric ids a reward objective refers to.
#[derive(Debug, Clone, PartialEq, Eq)]
pub enum ObjectiveIds {
    /// A single scalar objective metric.
    Scalar { metric_id: u128 },
    /// Weighted metrics: `(metric id, weight × 1000 rounded)`, in order.
    Scalarized { weights: Vec<(u128, i64)> },
    /// A primary metric under guardrail constraints on other metrics.
    Constrained { primary_metric_id: u128, constraint_ids: Vec<u128> },
}

/// One per-objective summary to build: the metric (an index into the
/// metrics), its role, and for a guardrail the index of its constraint.
#[derive(Debug, Clone, Copy, PartialEq, Eq, Structural)]
pub struct ObjectiveSlot {
    /// Index of the metric the summary reads.
    pub metric: usize,
    /// The role the metric plays.
    pub role: ObjectiveRole,
    /// For a guardrail, the index of its constraint.
    pub constraint: Option<usize>,
}

/// The first position of `id` in `ids`, if any.
pub open spec fn first_index(ids: Seq<u128>, id: u128) -> Option<int>
    decreases ids.len(),
{
    if ids.len() == 0 {
        None
    } else if ids[0] == id {
        Some(0)
    } else {
        match first_index(ids.drop_first(), id) {
            Some(i) => Some(i + 1),
            None => None,
        }
    }
}

/// `first_index` is the least position holding `id`, and `None` exactly
/// when no position does.
pub proof fn lemma_first_index(ids: Seq<u128>, id: u128)
    ensures
        match first_index(ids, id) {
            Some(i) => 0 <= i < ids.len() && ids[i] == id && forall|j: int|
                0 <= j < i ==> ids[j] != id,
            None => forall|j: int| 0 <= j < ids.len() ==> ids[j] != id,
        },
    decreases ids.len(),
{
    if ids.len() > 0 && ids[0] != id {
        lemma_first_index(ids.drop_first(), id);
        let rest = ids.drop_first();
        match first_index(rest, id) {
            Some(i) => {
                assert(ids[i + 1] == rest[i]);
                assert forall|j: int| 0 <= j < i + 1 implies ids[j] != id by {
                    if j > 0 {
                        assert(ids[j] == rest[j - 1]);
                    }
                }
            },
            None => {
                assert forall|j: int| 0 <= j < ids.len() implies ids[j] != id by {
                    if j > 0 {
                        assert(ids[j] == rest[j - 1]);
                    }
                }
            },
        }
    }
}

/// Position of the first metric whose id is `id`, if any.
pub fn find_metric(ids: &[u128], id: u128) -> (r: Option<usize>)
    ensures
        match first_index(ids@, id) {
            Some(i) => r == Some(i as usize),
            None => r is None,
        },
{
    proof {
        lemma_first_index(ids@, id);
    }
    let mut i: usize = 0;
    while i < ids.len()
        invariant
            0 <= i <= ids@.len(),
            forall|j: int| 0 <= j < i ==> ids@[j] != id,
            match first_index(ids@, id) {
                Some(k) => 0 <= k < ids@.len() && ids@[k] == id && forall|j: int|
                    0 <= j < k ==> ids@[j] != id,
                None => forall|j: int| 0 <= j < ids@.len() ==> ids@[j] != id,
            },
        decreases ids@.len() - i,
    {
        if ids[i] == id {
            return Some(i);
        }
        i = i + 1;
    }
    None
}

/// The metric an objective naming `id` reads: the first with that id, or
/// else the first metric.
pub open spec fn find_or_first(ids: Seq<u128>, id: u128) -> int {
    match first_index(ids, id) {
        Some(i) => i,
        None => 0,
    }
}

/// One `Weighted` summary per weight whose metric is present, in weight
/// order.
pub open spec fn weighted_slots(weights: Seq<(u128, i64)>, ids: Seq<u128>) -> Seq<ObjectiveSlot>
    decreases weights.len(),
{
    if weights.len() == 0 {
        Seq::empty()
    } else {
        let prev = weighted_slots(weights.drop_last(), ids);
        match first_index(ids, weights.last().0) {
            Some(i) => prev.push(
                ObjectiveSlot {
                    metric: i as usize,
                    role: ObjectiveRole::Weighted(weights.last().1),
                    constraint: None,
                },
            ),
            None => prev,
        }
    }
}

/// One `Guardrail` summary per constraint whose metric is present, in
/// constraint order.
pub open spec fn guardrail_slots(constraint_ids: Seq<u128>, ids: Seq<u128>) -> Seq<ObjectiveSlot>
    decreases constraint_ids.len(),
{
    if constraint_ids.len() == 0 {
        Seq::empty()
    } else {
        let prev = guardrail_slots(constraint_ids.drop_last(), ids);
        match first_index(ids, constraint_ids.last()) {
            Some(i) => prev.push(
                ObjectiveSlot {
                    metric: i as usize,
                    role: ObjectiveRole::Guardrail,
                    constraint: Some((constraint_ids.len() - 1) as usize),
                },
            ),
            None => prev,
        }
    }
}

/// The summaries an objective calls for over metrics with ids `ids`: none
/// without metrics; the scalar metric (or the first); every present
/// weighted metric; or the primary metric (or the first) followed by every
/// present guardrail.
pub open spec fn spec_objective_slots(objective: ObjectiveIds, ids: Seq<u128>) -> Seq<
    ObjectiveSlot,
> {
    if ids.len() == 0 {
        Seq::empty()
    } else {
        match objective {
            ObjectiveIds::Scalar { metric_id } => seq![
                ObjectiveSlot {
                    metric: find_or_first(ids, metric_id) as usize,
                    role: ObjectiveRole::Scalar,
                    constraint: None,
                },
            ],
            ObjectiveIds::Scalarized { weights } => weighted_slots(weights@, ids),
            ObjectiveIds::Constrained { primary_metric_id, constraint_ids } => seq![
                ObjectiveSlot {
                    metric: find_or_first(ids, primary_metric_id) as usize,
                    role: ObjectiveRole::Primary,
                    constraint: None,
                },
            ] + guardrail_slots(constraint_ids@, ids),
        }
    }
}

/// Position of the metric an objective naming `id` reads: the first metric
/// with that id, or else the first metric.
pub fn find_metric_or_first(ids: &[u128], id: u128) -> (r: usize)
    ensures
        r == find_or_first(ids@, id),
{
    proof {
        lemma_first_index(ids@, id);
    }
    let n = ids.len();
    assert(n == ids@.len());
    match find_metric(ids, id) {
        Some(i) => i,
        None => 0,
    }
}

/// The per-objective summaries `objective` calls for over metrics with ids
/// `metric_ids`, in order (see [`spec_objective_slots`]).
#[verifier::spinoff_prover]
pub fn objective_slots(objective: &ObjectiveIds, metric_ids: &[u128]) -> (r: Vec<ObjectiveSlot>)
    ensures
        r@ == spec_objective_slots(*objective, metric_ids@),
{
    let mut out: Vec<ObjectiveSlot> = Vec::new();
    if metric_ids.len() == 0 {
        return out;
    }
    match objective {
        ObjectiveIds::Scalar { metric_id } => {
            let m = find_metric_or_first(metric_ids, *metric_id);
            out.push(ObjectiveSlot { metric: m, role: ObjectiveRole::Scalar, constraint: None });
            assert(out@ =~= spec_objective_slots(*objective, metric_ids@));
        },
        ObjectiveIds::Scalarized { weights } => {
            let mut k: usize = 0;
            while k < weights.len()
                invariant
                    0 <= k <= weights@.len(),
                    out@ == weighted_slots(weights@.subrange(0, k as int), metric_ids@),
                decreases weights@.len() - k,
            {
                let (id, w) = weights[k];
                assert(weights@.subrange(0, k + 1).drop_last() =~= weights@.subrange(0, k as int));
                assert(weights@.subrange(0, k + 1).last() == (id, w));
                match find_metric(metric_ids, id) {
                    Some(i) => {
                        out.push(
                            ObjectiveSlot {
                                metric: i,
                                role: ObjectiveRole::Weighted(w),
                                constraint: None,
                            },
                        );
                    },
                    None => {},
                }
                k = k + 1;
            }
            assert(weights@.subrange(0, weights@.len() as int) =~= weights@);
        },
        ObjectiveIds::Constrained { primary_metric_id, constraint_ids } => {
            let m = find_metric_or_first(metric_ids, *primary_metric_id);
            out.push(ObjectiveSlot { metric: m, role: ObjectiveRole::Primary, constraint: None });
            let ghost head = out@;
            let mut k: usize = 0;
            while k < constraint_ids.len()
                invariant
                    0 <= k <= constraint_ids@.len(),
                    out@ == head + guardrail_slots(constraint_ids@.subrange(0, k as int), metric_ids@),
                decreases constraint_ids@.len() - k,
            {
                let id = constraint_ids[k];
                assert(constraint_ids@.subrange(0, k + 1).drop_last() =~= constraint_ids@.subrange(
                    0,
                    k as int,
                ));
                match find_metric(metric_ids, id) {
                    Some(i) => {
                        out.push(
                            ObjectiveSlot {
                                metric: i,
                                role: ObjectiveRole::Guardrail,
                                constraint: Some(k),
                            },
                        );
                    },
                    None => {},
                }
                k = k + 1;
                assert(out@ =~= head + guardrail_slots(
                    constraint_ids@.subrange(0, k as int),
                    metric_ids@,
                ));
            }
            assert(constraint_ids@.subrange(0, constraint_ids@.len() as int) =~= constraint_ids@);
            assert(out@ =~= spec_objective_slots(*objective, metric_ids@));
        },
    }
    out
}


/// Whether `m` is the first position of `id` among `ids`.
pub open spec fn is_first_position(ids: Seq<u128>, id: u128, m: int) -> bool {
    0 <= m < ids.len() && ids[m] == id && forall|j: int| 0 <= j < m ==> ids[j] != id
}

/// Whether the metric an objective naming `id` reads is `m`: the first
/// metric with that id, or the first metric when none has it.
pub open spec fn reads_named_metric(ids: Seq<u128>, id: u128, m: int) -> bool {
    if exists|j: int| 0 <= j < ids.len() && ids[j] == id {
        is_first_position(ids, id, m)
    } else {
        m == 0
    }
}

proof fn lemma_find_or_first_reads(ids: Seq<u128>, id: u128)
    requires
        ids.len() > 0,
    ensures
        reads_named_metric(ids, id, find_or_first(ids, id)),
{
    lemma_first_index(ids, id);
    match first_index(ids, id) {
        Some(i) => {
            assert(ids[i] == id);
        },
        None => {},
    }
}

/// Every guardrail summary reads the first metric with its constraint's id,
/// constraints come in increasing order, and every constraint whose metric
/// is present gets a summary.
proof fn lemma_guardrail_slots(cids: Seq<u128>, ids: Seq<u128>)
    requires
        cids.len() <= usize::MAX,
        ids.len() <= usize::MAX,
    ensures
        ({
            let g = guardrail_slots(cids, ids);
            &&& forall|k: int|
                0 <= k < g.len() ==> (#[trigger] g[k]).role == ObjectiveRole::Guardrail
                    && g[k].constraint is Some && g[k].constraint->Some_0 < cids.len()
                    && is_first_position(ids, cids[g[k].constraint->Some_0 as int], g[k].metric as int)
            &&& forall|k1: int, k2: int|
                0 <= k1 < k2 < g.len() ==> (#[trigger] g[k1]).constraint->Some_0 < (
                #[trigger] g[k2]).constraint->Some_0
            &&& forall|c: int, j: int|
                0 <= c < cids.len() && 0 <= j < ids.len() && #[trigger] ids[j] == #[trigger] cids[c]
                    ==> exists|k: int| 0 <= k < g.len() && (#[trigger] g[k]).constraint == Some(c as usize)
        }),
    decreases cids.len(),
{
    if cids.len() > 0 {
        let init = cids.drop_last();
        let last = cids.len() - 1;
        lemma_guardrail_slots(init, ids);
        lemma_first_index(ids, cids.last());
        let prev = guardrail_slots(init, ids);
        let g = guardrail_slots(cids, ids);
        assert(cids[last] == cids.last());
        match first_index(ids, cids.last()) {
            Some(i) => {
                assert(g == prev.push(
                    ObjectiveSlot {
                        metric: i as usize,
                        role: ObjectiveRole::Guardrail,
                        constraint: Some(last as usize),
                    },
                ));
                assert(is_first_position(ids, cids[last], i));
                assert(i as usize as int == i);
            },
            None => {
                assert(g == prev);
            },
        }
        assert forall|k: int| 0 <= k < prev.len() implies g[k] == prev[k] && (#[trigger] prev[k]).constraint->Some_0 < last
            && cids[prev[k].constraint->Some_0 as int] == init[prev[k].constraint->Some_0 as int] by {}
        assert forall|k: int|
            0 <= k < g.len() implies (#[trigger] g[k]).role == ObjectiveRole::Guardrail
                && g[k].constraint is Some && g[k].constraint->Some_0 < cids.len()
                && is_first_position(ids, cids[g[k].constraint->Some_0 as int], g[k].metric as int) by {
            if k < prev.len() {
                assert(g[k] == prev[k]);
            }
        }
        assert forall|k1: int, k2: int|
            0 <= k1 < k2 < g.len() implies (#[trigger] g[k1]).constraint->Some_0 < (
            #[trigger] g[k2]).constraint->Some_0 by {
            assert(g[k1] == prev[k1]);
            if k2 < prev.len() {
                assert(g[k2] == prev[k2]);
            }
        }
        assert forall|c: int, j: int|
            0 <= c < cids.len() && 0 <= j < ids.len() && #[trigger] ids[j] == #[trigger] cids[c]
                implies exists|k: int| 0 <= k < g.len() && (#[trigger] g[k]).constraint == Some(c as usize) by {
            if c < last {
                assert(ids[j] == init[c]);
                let k = choose|k: int| 0 <= k < prev.len() && (#[trigger] prev[k]).constraint == Some(c as usize);
                assert(g[k] == prev[k]);
            } else {
                assert(first_index(ids, cids.last()) is Some);
                assert(g[prev.len() as int].constraint == Some(c as usize));
            }
        }
    }
}

/// Every weighted summary reads the first metric with the id of one of the
/// weights and carries that weight.
proof fn lemma_weighted_slots_sound(weights: Seq<(u128, i64)>, ids: Seq<u128>)
    requires
        ids.len() <= usize::MAX,
    ensures
        forall|k: int|
            0 <= k < weighted_slots(weights, ids).len() ==> exists|c: int|
                0 <= c < weights.len() && (#[trigger] weighted_slots(weights, ids)[k]).role
                    == ObjectiveRole::Weighted(weights[c].1) && weighted_slots(weights, ids)[k].constraint
                    is None && is_first_position(
                    ids,
                    weights[c].0,
                    weighted_slots(weights, ids)[k].metric as int,
                ),
    decreases weights.len(),
{
    if weights.len() > 0 {
        let init = weights.drop_last();
        let last = weights.len() - 1;
        lemma_weighted_slots_sound(init, ids);
        lemma_first_index(ids, weights.last().0);
        let prev = weighted_slots(init, ids);
        let g = weighted_slots(weights, ids);
        assert(weights[last] == weights.last());
        match first_index(ids, weights.last().0) {
            Some(i) => {
                assert(g == prev.push(
                    ObjectiveSlot {
                        metric: i as usize,
                        role: ObjectiveRole::Weighted(weights.last().1),
                        constraint: None,
                    },
                ));
                assert(is_first_position(ids, weights[last].0, i));
                assert(i as usize as int == i);
            },
            None => {
                assert(g == prev);
            },
        }
        assert forall|k: int| 0 <= k < g.len() implies exists|c: int|
            0 <= c < weights.len() && (#[trigger] g[k]).role == ObjectiveRole::Weighted(weights[c].1)
                && g[k].constraint is None && is_first_position(ids, weights[c].0, g[k].metric as int) by {
            if k < prev.len() {
                assert(g[k] == prev[k]);
                let c = choose|c: int|
                    0 <= c < init.len() && (#[trigger] prev[k]).role == ObjectiveRole::Weighted(
                        init[c].1,
                    ) && prev[k].constraint is None && is_first_position(
                        ids,
                        init[c].0,
                        prev[k].metric as int,
                    );
                assert(weights[c] == init[c]);
            } else {
                assert(g[k].role == ObjectiveRole::Weighted(weights[last].1));
            }
        }
    }
}

/// Every weight whose metric is present gets a summary reading the first
/// metric with its id under that weight.
proof fn lemma_weighted_slots_complete(weights: Seq<(u128, i64)>, ids: Seq<u128>)
    requires
        ids.len() <= usize::MAX,
    ensures
        forall|c: int, j: int|
            0 <= c < weights.len() && 0 <= j < ids.len() && #[trigger] ids[j] == (
            #[trigger] weights[c]).0 ==> exists|k: int|
                0 <= k < weighted_slots(weights, ids).len() && (#[trigger] weighted_slots(
                    weights,
                    ids,
                )[k]).role == ObjectiveRole::Weighted(weights[c].1) && is_first_position(
                    ids,
                    weights[c].0,
                    weighted_slots(weights, ids)[k].metric as int,
                ),
    decreases weights.len(),
{
    if weights.len() > 0 {
        let init = weights.drop_last();
        let last = weights.len() - 1;
        lemma_weighted_slots_complete(init, ids);
        lemma_first_index(ids, weights.last().0);
        let prev = weighted_slots(init, ids);
        let g = weighted_slots(weights, ids);
        assert(weights[last] == weights.last());
        match first_index(ids, weights.last().0) {
            Some(i) => {
                assert(g == prev.push(
                    ObjectiveSlot {
                        metric: i as usize,
                        role: ObjectiveRole::Weighted(weights.last().1),
                        constraint: None,
                    },
                ));
                assert(is_first_position(ids, weights[last].0, i));
                assert(i as usize as int == i);
            },
            None => {
                assert(g == prev);
            },
        }
        assert forall|c: int, j: int|
            0 <= c < weights.len() && 0 <= j < ids.len() && #[trigger] ids[j] == (
            #[trigger] weights[c]).0 implies exists|k: int|
                0 <= k < g.len() && (#[trigger] g[k]).role == ObjectiveRole::Weighted(weights[c].1)
                    && is_first_position(ids, weights[c].0, g[k].metric as int) by {
            if c < last {
                assert(init[c] == weights[c]);
                assert(ids[j] == init[c].0);
                let k = choose|k: int|
                    0 <= k < prev.len() && (#[trigger] prev[k]).role == ObjectiveRole::Weighted(
                        init[c].1,
                    ) && is_first_position(ids, init[c].0, prev[k].metric as int);
                assert(g[k] == prev[k]);
            } else {
                assert(first_index(ids, weights.last().0) is Some);
                assert(g[prev.len() as int].role == ObjectiveRole::Weighted(weights[c].1));
            }
        }
    }
}

/// Which metrics an objective's summaries read, in terms of the metric ids:
/// without metrics there is none; a scalar objective reads the named metric
/// (the first with its id, or the first metric when none has it); a
/// weighted objective reads, for each weight whose metric is present, the
/// first metric with its id under that weight, and nothing else; a
/// constrained objective first reads the named primary metric (the first
/// with its id, or the first metric), then, in constraint order, the first
/// metric of every constraint whose metric is present, and nothing else.
pub proof fn lemma_objective_slots_read_named_metrics(objective: ObjectiveIds, ids: Seq<u128>)
    requires
        ids.len() <= usize::MAX,
    ensures
        ({
            let s = spec_objective_slots(objective, ids);
            ids.len() == 0 ==> s.len() == 0
        }),
        ids.len() > 0 ==> match objective {
            ObjectiveIds::Scalar { metric_id } => {
                let s = spec_objective_slots(objective, ids);
                &&& s.len() == 1
                &&& s[0].role == ObjectiveRole::Scalar && s[0].constraint is None
                &&& reads_named_metric(ids, metric_id, s[0].metric as int)
            },
            ObjectiveIds::Scalarized { weights } => {
                let s = spec_objective_slots(objective, ids);
                &&& forall|k: int|
                    0 <= k < s.len() ==> exists|c: int|
                        0 <= c < weights@.len() && (#[trigger] s[k]).role
                            == ObjectiveRole::Weighted(weights@[c].1) && s[k].constraint is None
                            && is_first_position(ids, #[trigger] weights@[c].0, s[k].metric as int)
                &&& forall|c: int, j: int|
                    0 <= c < weights@.len() && 0 <= j < ids.len() && #[trigger] ids[j] == (
                    #[trigger] weights@[c]).0 ==> exists|k: int|
                        0 <= k < s.len() && (#[trigger] s[k]).role == ObjectiveRole::Weighted(
                            weights@[c].1,
                        ) && is_first_position(ids, weights@[c].0, s[k].metric as int)
            },
            ObjectiveIds::Constrained { primary_metric_id, constraint_ids } => {
                let s = spec_objective_slots(objective, ids);
                let cids = constraint_ids@;
                &&& s.len() >= 1
                &&& s[0].role == ObjectiveRole::Primary && s[0].constraint is None
                &&& reads_named_metric(ids, primary_metric_id, s[0].metric as int)
                &&& forall|k: int|
                    1 <= k < s.len() ==> (#[trigger] s[k]).role == ObjectiveRole::Guardrail
                        && s[k].constraint is Some && s[k].constraint->Some_0 < cids.len()
                        && is_first_position(ids, cids[s[k].constraint->Some_0 as int], s[k].metric as int)
                &&& forall|k1: int, k2: int|
                    1 <= k1 < k2 < s.len() ==> (#[trigger] s[k1]).constraint->Some_0 < (
                    #[trigger] s[k2]).constraint->Some_0
                &&& forall|c: int, j: int|
                    0 <= c < cids.len() && 0 <= j < ids.len() && #[trigger] ids[j] == #[trigger] cids[c]
                        ==> exists|k: int| 1 <= k < s.len() && (#[trigger] s[k]).constraint == Some(c as usize)
            },
        },
{
    if ids.len() > 0 {
        match objective {
            ObjectiveIds::Scalar { metric_id } => {
                lemma_find_or_first_reads(ids, metric_id);
            },
            ObjectiveIds::Scalarized { weights } => {
                lemma_weighted_slots_sound(weights@, ids);
                lemma_weighted_slots_complete(weights@, ids);
            },
            ObjectiveIds::Constrained { primary_metric_id, constraint_ids } => {
                lemma_find_or_first_reads(ids, primary_metric_id);
                assert(constraint_ids.len() == constraint_ids@.len());
                lemma_guardrail_slots(constraint_ids@, ids);
                let s = spec_objective_slots(objective, ids);
                let g = guardrail_slots(constraint_ids@, ids);
                assert forall|k: int| 1 <= k < s.len() implies s[k] == g[k - 1] by {}
                assert forall|c: int, j: int|
                    0 <= c < constraint_ids@.len() && 0 <= j < ids.len() && #[trigger] ids[j]
                        == #[trigger] constraint_ids@[c] implies exists|k: int|
                        1 <= k < s.len() && (#[trigger] s[k]).constraint == Some(c as usize) by {
                    let k = choose|k: int| 0 <= k < g.len() && (#[trigger] g[k]).constraint == Some(c as usize);
                    assert(s[k + 1] == g[k]);
                }
                assert forall|k1: int, k2: int| 1 <= k1 < k2 < s.len() implies (
                #[trigger] s[k1]).constraint->Some_0 < (#[trigger] s[k2]).constraint->Some_0 by {
                    assert(s[k1] == g[k1 - 1]);
                    assert(s[k2] == g[k2 - 1]);
                }
            },
        }
    }
}

} // verus!
