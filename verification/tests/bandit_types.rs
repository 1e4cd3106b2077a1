use stitchd_core::experimentation::bandit::types::{
    ContextualConfig, ExperimentMode, LifecyclePolicy, PropagationMode, VariantDiscoveryPolicy,
};

#[test]
fn experiment_mode_default_is_fixed() {
    assert_eq!(ExperimentMode::default(), ExperimentMode::Fixed);
}

#[test]
fn other_config_defaults() {
    assert_eq!(PropagationMode::default(), PropagationMode::Static);
    assert_eq!(LifecyclePolicy::default(), LifecyclePolicy::Advisory);
    assert_eq!(VariantDiscoveryPolicy::default(), VariantDiscoveryPolicy::WinnerPlusNew);
    assert!(ContextualConfig::default().features.is_empty());
}
