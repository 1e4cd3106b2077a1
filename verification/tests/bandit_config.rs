use stitchd_core::experimentation::bandit::config::{
    bandit_config_fault, campaign_config_fault, first_failing, AlgorithmParam, ConfigFault,
    ObjectiveShape, MAX_MIN_EXPLORATION_BP,
};

fn thompson_scalar(min_exploration_bp: u32, threshold_ok: bool) -> Option<ConfigFault> {
    bandit_config_fault(
        min_exploration_bp,
        threshold_ok,
        AlgorithmParam::Unparameterised,
        &ObjectiveShape::Scalar,
    )
}

#[test]
fn valid_bandit_config_has_no_fault() {
    assert_eq!(thompson_scalar(500, true), None);
    assert_eq!(thompson_scalar(MAX_MIN_EXPLORATION_BP, true), None);
}

#[test]
fn exploration_floor_above_half_is_rejected() {
    assert_eq!(thompson_scalar(5001, true), Some(ConfigFault::MinExplorationTooHigh(5001)));
}

#[test]
fn exploration_floor_is_checked_before_everything_else() {
    let fault = bandit_config_fault(
        9000,
        false,
        AlgorithmParam::Epsilon { in_unit_interval: false },
        &ObjectiveShape::Scalarized { weight_is_finite: vec![] },
    );
    assert_eq!(fault, Some(ConfigFault::MinExplorationTooHigh(9000)));
}

#[test]
fn threshold_outside_open_unit_interval_is_rejected() {
    assert_eq!(thompson_scalar(500, false), Some(ConfigFault::ConvergenceThresholdOutOfRange));
}

#[test]
fn bad_epsilon_and_ucb_coefficient_are_rejected() {
    let eps = bandit_config_fault(
        500,
        true,
        AlgorithmParam::Epsilon { in_unit_interval: false },
        &ObjectiveShape::Scalar,
    );
    assert_eq!(eps, Some(ConfigFault::EpsilonOutOfRange));
    let ucb = bandit_config_fault(
        500,
        true,
        AlgorithmParam::Ucb { positive: false },
        &ObjectiveShape::Scalar,
    );
    assert_eq!(ucb, Some(ConfigFault::UcbCoefficientOutOfRange));
    let fine = bandit_config_fault(
        500,
        true,
        AlgorithmParam::Ucb { positive: true },
        &ObjectiveShape::Scalar,
    );
    assert_eq!(fine, None);
}

#[test]
fn empty_scalarized_weights_are_rejected() {
    let fault = bandit_config_fault(
        500,
        true,
        AlgorithmParam::Unparameterised,
        &ObjectiveShape::Scalarized { weight_is_finite: vec![] },
    );
    assert_eq!(fault, Some(ConfigFault::EmptyScalarizedWeights));
}

#[test]
fn first_non_finite_weight_is_reported() {
    let fault = bandit_config_fault(
        500,
        true,
        AlgorithmParam::Unparameterised,
        &ObjectiveShape::Scalarized { weight_is_finite: vec![true, false, false] },
    );
    assert_eq!(fault, Some(ConfigFault::NonFiniteWeight(1)));
}

#[test]
fn first_non_finite_bound_is_reported() {
    let fault = bandit_config_fault(
        500,
        true,
        AlgorithmParam::Unparameterised,
        &ObjectiveShape::Constrained { bound_is_finite: vec![false] },
    );
    assert_eq!(fault, Some(ConfigFault::NonFiniteBound(0)));
    let none = bandit_config_fault(
        500,
        true,
        AlgorithmParam::Unparameterised,
        &ObjectiveShape::Constrained { bound_is_finite: vec![] },
    );
    assert_eq!(none, None);
}

#[test]
fn first_failing_finds_the_earliest_false() {
    assert_eq!(first_failing(&[]), None);
    assert_eq!(first_failing(&[true, true]), None);
    assert_eq!(first_failing(&[true, false, true, false]), Some(1));
}

#[test]
fn campaign_faults_follow_their_order() {
    assert_eq!(campaign_config_fault(5, true), None);
    assert_eq!(campaign_config_fault(0, true), Some(ConfigFault::ZeroMaxIterations));
    assert_eq!(campaign_config_fault(0, false), Some(ConfigFault::ZeroMaxIterations));
    assert_eq!(campaign_config_fault(3, false), Some(ConfigFault::DriftThresholdOutOfRange));
}
