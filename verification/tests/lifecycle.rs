use stitchd_core::experimentation::{
    creates_iteration, default_sequential_min_sample_size, validate_mutation,
    validate_transition, ExperimentError, ExperimentStatus,
};

// ── ExperimentStatus::allowed_transitions ────────────────────────────────

#[test]
fn draft_can_only_transition_to_running() {
    let transitions = ExperimentStatus::Draft.allowed_transitions();
    assert_eq!(transitions, &[ExperimentStatus::Running]);
}

#[test]
fn running_can_transition_to_paused_and_stopped() {
    let transitions = ExperimentStatus::Running.allowed_transitions();
    assert!(transitions.contains(&ExperimentStatus::Paused));
    assert!(transitions.contains(&ExperimentStatus::Stopped));
    assert_eq!(transitions.len(), 2);
}

#[test]
fn paused_can_transition_to_running_and_stopped() {
    let transitions = ExperimentStatus::Paused.allowed_transitions();
    assert!(transitions.contains(&ExperimentStatus::Running));
    assert!(transitions.contains(&ExperimentStatus::Stopped));
    assert_eq!(transitions.len(), 2);
}

#[test]
fn stopped_can_only_transition_to_running() {
    let transitions = ExperimentStatus::Stopped.allowed_transitions();
    assert_eq!(transitions, &[ExperimentStatus::Running]);
}

// ── can_transition_to ────────────────────────────────────────────────────

#[test]
fn draft_cannot_transition_to_paused() {
    assert!(!ExperimentStatus::Draft.can_transition_to(ExperimentStatus::Paused));
}

#[test]
fn draft_cannot_transition_to_stopped() {
    assert!(!ExperimentStatus::Draft.can_transition_to(ExperimentStatus::Stopped));
}

#[test]
fn draft_cannot_transition_to_draft() {
    assert!(!ExperimentStatus::Draft.can_transition_to(ExperimentStatus::Draft));
}

#[test]
fn running_cannot_transition_to_draft() {
    assert!(!ExperimentStatus::Running.can_transition_to(ExperimentStatus::Draft));
}

#[test]
fn running_cannot_transition_to_running() {
    assert!(!ExperimentStatus::Running.can_transition_to(ExperimentStatus::Running));
}

// ── validate_transition ──────────────────────────────────────────────────

#[test]
fn valid_transition_draft_to_running_returns_ok() {
    assert!(validate_transition(ExperimentStatus::Draft, ExperimentStatus::Running).is_ok());
}

#[test]
fn valid_transition_running_to_paused_returns_ok() {
    assert!(validate_transition(ExperimentStatus::Running, ExperimentStatus::Paused).is_ok());
}

#[test]
fn valid_transition_running_to_stopped_returns_ok() {
    assert!(validate_transition(ExperimentStatus::Running, ExperimentStatus::Stopped).is_ok());
}

#[test]
fn valid_transition_paused_to_running_returns_ok() {
    assert!(validate_transition(ExperimentStatus::Paused, ExperimentStatus::Running).is_ok());
}

#[test]
fn valid_transition_paused_to_stopped_returns_ok() {
    assert!(validate_transition(ExperimentStatus::Paused, ExperimentStatus::Stopped).is_ok());
}

#[test]
fn valid_transition_stopped_to_running_returns_ok() {
    assert!(validate_transition(ExperimentStatus::Stopped, ExperimentStatus::Running).is_ok());
}

#[test]
fn invalid_transition_draft_to_paused_returns_err() {
    let result = validate_transition(ExperimentStatus::Draft, ExperimentStatus::Paused);
    assert_eq!(
        result,
        Err(ExperimentError::InvalidTransition {
            from: ExperimentStatus::Draft,
            to: ExperimentStatus::Paused,
        })
    );
}

#[test]
fn invalid_transition_draft_to_stopped_returns_err() {
    let result = validate_transition(ExperimentStatus::Draft, ExperimentStatus::Stopped);
    assert_eq!(
        result,
        Err(ExperimentError::InvalidTransition {
            from: ExperimentStatus::Draft,
            to: ExperimentStatus::Stopped,
        })
    );
}

#[test]
fn invalid_transition_running_to_draft_returns_err() {
    let result = validate_transition(ExperimentStatus::Running, ExperimentStatus::Draft);
    assert!(matches!(
        result,
        Err(ExperimentError::InvalidTransition { .. })
    ));
}

// ── creates_iteration ────────────────────────────────────────────────────

#[test]
fn draft_to_running_creates_iteration() {
    assert!(creates_iteration(
        ExperimentStatus::Draft,
        ExperimentStatus::Running
    ));
}

#[test]
fn paused_to_running_creates_iteration() {
    assert!(creates_iteration(
        ExperimentStatus::Paused,
        ExperimentStatus::Running
    ));
}

#[test]
fn stopped_to_running_creates_iteration() {
    assert!(creates_iteration(
        ExperimentStatus::Stopped,
        ExperimentStatus::Running
    ));
}

#[test]
fn running_to_paused_does_not_create_iteration() {
    assert!(!creates_iteration(
        ExperimentStatus::Running,
        ExperimentStatus::Paused
    ));
}

#[test]
fn running_to_stopped_does_not_create_iteration() {
    assert!(!creates_iteration(
        ExperimentStatus::Running,
        ExperimentStatus::Stopped
    ));
}

#[test]
fn draft_to_paused_does_not_create_iteration() {
    assert!(!creates_iteration(
        ExperimentStatus::Draft,
        ExperimentStatus::Paused
    ));
}

// ── validate_mutation ────────────────────────────────────────────────────

#[test]
fn mutation_allowed_when_draft() {
    assert!(validate_mutation(ExperimentStatus::Draft).is_ok());
}

#[test]
fn mutation_allowed_when_paused() {
    assert!(validate_mutation(ExperimentStatus::Paused).is_ok());
}

#[test]
fn mutation_allowed_when_stopped() {
    assert!(validate_mutation(ExperimentStatus::Stopped).is_ok());
}

#[test]
fn mutation_rejected_when_running() {
    assert_eq!(
        validate_mutation(ExperimentStatus::Running),
        Err(ExperimentError::MutationWhileRunning)
    );
}

// ── Laws on concrete values ──────────────────────────────────────────────

const ALL: [ExperimentStatus; 4] = [
    ExperimentStatus::Draft,
    ExperimentStatus::Running,
    ExperimentStatus::Paused,
    ExperimentStatus::Stopped,
];

#[test]
fn iteration_created_exactly_by_valid_entries_into_running() {
    for from in ALL {
        for to in ALL {
            let expected = from.can_transition_to(to) && to == ExperimentStatus::Running;
            assert_eq!(creates_iteration(from, to), expected, "{from:?} -> {to:?}");
        }
    }
}

#[test]
fn validate_transition_agrees_with_can_transition_to() {
    for from in ALL {
        for to in ALL {
            assert_eq!(validate_transition(from, to).is_ok(), from.can_transition_to(to));
        }
    }
}

#[test]
fn no_status_steps_to_itself_or_back_to_draft() {
    for s in ALL {
        assert!(!s.can_transition_to(s));
        assert!(!s.can_transition_to(ExperimentStatus::Draft));
        assert!(!s.allowed_transitions().is_empty());
    }
}

#[test]
fn default_min_sample_size_is_one_hundred() {
    assert_eq!(default_sequential_min_sample_size(), 100);
}
