use stitchd_core::experimentation::bandit::reward::{
    find_metric, find_metric_or_first, objective_slots, ObjectiveIds, ObjectiveRole,
    ObjectiveSlot,
};

fn slot(metric: usize, role: ObjectiveRole, constraint: Option<usize>) -> ObjectiveSlot {
    ObjectiveSlot { metric, role, constraint }
}

#[test]
fn find_metric_takes_the_first_match() {
    assert_eq!(find_metric(&[7, 9, 7], 7), Some(0));
    assert_eq!(find_metric(&[7, 9, 7], 9), Some(1));
    assert_eq!(find_metric(&[7, 9, 7], 8), None);
    assert_eq!(find_metric(&[], 8), None);
    assert_eq!(find_metric_or_first(&[7, 9], 9), 1);
    assert_eq!(find_metric_or_first(&[7, 9], 3), 0);
}

#[test]
fn scalar_objective_falls_back_to_the_first_metric() {
    let ids = [10, 20, 30];
    assert_eq!(
        objective_slots(&ObjectiveIds::Scalar { metric_id: 30 }, &ids),
        vec![slot(2, ObjectiveRole::Scalar, None)]
    );
    assert_eq!(
        objective_slots(&ObjectiveIds::Scalar { metric_id: 99 }, &ids),
        vec![slot(0, ObjectiveRole::Scalar, None)]
    );
    assert_eq!(objective_slots(&ObjectiveIds::Scalar { metric_id: 10 }, &[]), vec![]);
}

#[test]
fn scalarized_objective_lists_present_weights_in_order() {
    let ids = [10, 20, 30];
    let objective =
        ObjectiveIds::Scalarized { weights: vec![(30, 500), (99, 1000), (10, -250)] };
    assert_eq!(
        objective_slots(&objective, &ids),
        vec![slot(2, ObjectiveRole::Weighted(500), None), slot(0, ObjectiveRole::Weighted(-250), None)]
    );
}

#[test]
fn constrained_objective_lists_primary_then_present_guardrails() {
    let ids = [10, 20, 30];
    let objective = ObjectiveIds::Constrained {
        primary_metric_id: 77,
        constraint_ids: vec![20, 55, 30],
    };
    assert_eq!(
        objective_slots(&objective, &ids),
        vec![
            slot(0, ObjectiveRole::Primary, None),
            slot(1, ObjectiveRole::Guardrail, Some(0)),
            slot(2, ObjectiveRole::Guardrail, Some(2)),
        ]
    );
}
