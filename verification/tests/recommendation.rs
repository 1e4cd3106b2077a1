use stitchd_core::experimentation::stats::recommendation::{
    pick_winner, recommend_from_evidence, BayesianEvidence, FrequentistEvidence,
};
use stitchd_core::experimentation::stats::{AnalysisType, Recommendation};

// ── AnalysisType ─────────────────────────────────────────────────────────

#[test]
fn analysis_type_is_clone_and_copy() {
    let a = AnalysisType::Frequentist;
    let b = a; // Copy
    let c = a;
    assert_eq!(a, b);
    assert_eq!(a, c);
}

// ── Recommendation ordering ───────────────────────────────────────────────

#[test]
fn recommendation_variant_wins_is_most_decisive() {
    let vw = Recommendation::VariantWins("variant_b".to_string());
    let cw = Recommendation::ControlWins;
    let inc = Recommendation::Inconclusive;
    let nmd = Recommendation::NeedsMoreData;

    assert!(vw < cw);
    assert!(vw < inc);
    assert!(vw < nmd);
}

#[test]
fn recommendation_control_wins_beats_inconclusive() {
    assert!(Recommendation::ControlWins < Recommendation::Inconclusive);
}

#[test]
fn recommendation_inconclusive_beats_needs_more_data() {
    assert!(Recommendation::Inconclusive < Recommendation::NeedsMoreData);
}

#[test]
fn recommendation_needs_more_data_is_least_decisive() {
    assert!(Recommendation::NeedsMoreData > Recommendation::VariantWins("x".to_string()));
    assert!(Recommendation::NeedsMoreData > Recommendation::ControlWins);
    assert!(Recommendation::NeedsMoreData > Recommendation::Inconclusive);
}

#[test]
fn recommendation_is_actionable() {
    assert!(Recommendation::VariantWins("v".to_string()).is_actionable());
    assert!(Recommendation::ControlWins.is_actionable());
    assert!(!Recommendation::Inconclusive.is_actionable());
    assert!(!Recommendation::NeedsMoreData.is_actionable());
}

#[test]
fn recommendation_display() {
    assert_eq!(
        Recommendation::VariantWins("variant_b".to_string()).to_string(),
        "variant_wins:variant_b"
    );
    assert_eq!(Recommendation::ControlWins.to_string(), "control_wins");
    assert_eq!(Recommendation::Inconclusive.to_string(), "inconclusive");
    assert_eq!(Recommendation::NeedsMoreData.to_string(), "needs_more_data");
}

#[test]
fn variant_wins_tie_each_other_in_decisiveness() {
    let a = Recommendation::VariantWins("a".to_string());
    let b = Recommendation::VariantWins("b".to_string());
    assert_eq!(a.partial_cmp(&b), Some(std::cmp::Ordering::Equal));
    assert_eq!(a.decisiveness_rank(), 1);
    assert_eq!(Recommendation::NeedsMoreData.decisiveness_rank(), 4);
}

// ── pick_winner ───────────────────────────────────────────────────────────

#[test]
fn pick_winner_single_variant_wins() {
    let recommendations = vec![
        (
            "variant_b".to_string(),
            Recommendation::VariantWins("variant_b".to_string()),
        ),
        ("variant_c".to_string(), Recommendation::Inconclusive),
    ];
    assert_eq!(
        pick_winner(&recommendations),
        Recommendation::VariantWins("variant_b".to_string())
    );
}

#[test]
fn pick_winner_two_variant_wins_is_not_single_winner() {
    // Two winners — not exactly one, so falls through to next rules
    let recommendations = vec![
        (
            "variant_b".to_string(),
            Recommendation::VariantWins("variant_b".to_string()),
        ),
        (
            "variant_c".to_string(),
            Recommendation::VariantWins("variant_c".to_string()),
        ),
    ];
    // No single winner, no ControlWins, no NeedsMoreData → Inconclusive
    assert_eq!(pick_winner(&recommendations), Recommendation::Inconclusive);
}

#[test]
fn pick_winner_control_wins_when_present() {
    let recommendations = vec![
        ("variant_b".to_string(), Recommendation::Inconclusive),
        ("variant_c".to_string(), Recommendation::ControlWins),
    ];
    assert_eq!(pick_winner(&recommendations), Recommendation::ControlWins);
}

#[test]
fn pick_winner_needs_more_data_when_no_winner_no_control() {
    let recommendations = vec![
        ("variant_b".to_string(), Recommendation::Inconclusive),
        ("variant_c".to_string(), Recommendation::NeedsMoreData),
    ];
    assert_eq!(pick_winner(&recommendations), Recommendation::NeedsMoreData);
}

#[test]
fn pick_winner_inconclusive_when_all_inconclusive() {
    let recommendations = vec![
        ("variant_b".to_string(), Recommendation::Inconclusive),
        ("variant_c".to_string(), Recommendation::Inconclusive),
    ];
    assert_eq!(pick_winner(&recommendations), Recommendation::Inconclusive);
}

#[test]
fn pick_winner_empty_slice_is_inconclusive() {
    assert_eq!(pick_winner(&[]), Recommendation::Inconclusive);
}

#[test]
fn pick_winner_single_variant_wins_over_multiple_variants() {
    let recommendations = vec![
        (
            "variant_b".to_string(),
            Recommendation::VariantWins("variant_b".to_string()),
        ),
        ("variant_c".to_string(), Recommendation::NeedsMoreData),
        ("variant_d".to_string(), Recommendation::Inconclusive),
    ];
    // Exactly one VariantWins → that wins, even though NeedsMoreData is present
    assert_eq!(
        pick_winner(&recommendations),
        Recommendation::VariantWins("variant_b".to_string())
    );
}

#[test]
fn pick_winner_names_the_entry_key() {
    // The winner is reported under the entry's key.
    let recommendations = vec![
        ("variant_b".to_string(), Recommendation::Inconclusive),
        ("variant_c".to_string(), Recommendation::VariantWins("other".to_string())),
    ];
    assert_eq!(
        pick_winner(&recommendations),
        Recommendation::VariantWins("variant_c".to_string())
    );
}

#[test]
fn pick_winner_two_winners_fall_back_to_control() {
    let recommendations = vec![
        ("variant_b".to_string(), Recommendation::VariantWins("variant_b".to_string())),
        ("variant_c".to_string(), Recommendation::VariantWins("variant_c".to_string())),
        ("variant_d".to_string(), Recommendation::ControlWins),
    ];
    assert_eq!(pick_winner(&recommendations), Recommendation::ControlWins);
}

// ── recommend_from_evidence ───────────────────────────────────────────────

fn freq(significant: bool, lower_bound_positive: bool) -> Option<FrequentistEvidence> {
    Some(FrequentistEvidence { significant, lower_bound_positive })
}

fn bayes(prob_best: f64) -> Option<BayesianEvidence> {
    Some(BayesianEvidence {
        prob_best_above_threshold: prob_best > 0.95,
        prob_rest_above_threshold: (1.0 - prob_best) > 0.95,
    })
}

fn key() -> String {
    "variant_b".to_string()
}

#[test]
fn evidence_needs_more_data_below_minimum() {
    let r = recommend_from_evidence(&key(), AnalysisType::Frequentist, 50, Some(100), freq(true, true), None);
    assert_eq!(r, Recommendation::NeedsMoreData);
    let r = recommend_from_evidence(&key(), AnalysisType::Frequentist, 10, Some(1000), freq(true, true), None);
    assert_eq!(r, Recommendation::NeedsMoreData);
}

#[test]
fn evidence_minimum_met_exactly_is_sufficient() {
    let r = recommend_from_evidence(&key(), AnalysisType::Frequentist, 100, Some(100), freq(true, true), None);
    assert_ne!(r, Recommendation::NeedsMoreData);
}

#[test]
fn evidence_frequentist_rules() {
    let t = AnalysisType::Frequentist;
    assert_eq!(
        recommend_from_evidence(&key(), t, 500, None, freq(true, true), None),
        Recommendation::VariantWins("variant_b".to_string())
    );
    assert_eq!(
        recommend_from_evidence(&key(), t, 500, None, freq(true, false), None),
        Recommendation::ControlWins
    );
    assert_eq!(
        recommend_from_evidence(&key(), t, 500, None, freq(false, false), None),
        Recommendation::Inconclusive
    );
    assert_eq!(
        recommend_from_evidence(&key(), t, 500, None, None, bayes(0.99)),
        Recommendation::Inconclusive
    );
}

#[test]
fn evidence_bayesian_rules() {
    let t = AnalysisType::Bayesian;
    assert_eq!(
        recommend_from_evidence(&key(), t, 500, None, None, bayes(0.97)),
        Recommendation::VariantWins("variant_b".to_string())
    );
    assert_eq!(
        recommend_from_evidence(&"variant_c".to_string(), t, 500, None, None, bayes(0.951)),
        Recommendation::VariantWins("variant_c".to_string())
    );
    assert_eq!(recommend_from_evidence(&key(), t, 500, None, None, bayes(0.95)), Recommendation::Inconclusive);
    assert_eq!(recommend_from_evidence(&key(), t, 500, None, None, bayes(0.60)), Recommendation::Inconclusive);
    assert_eq!(recommend_from_evidence(&key(), t, 500, None, None, bayes(0.02)), Recommendation::ControlWins);
    assert_eq!(
        recommend_from_evidence(&key(), t, 500, None, freq(true, true), None),
        Recommendation::Inconclusive
    );
}

#[test]
fn pick_winner_ignores_the_order_of_entries() {
    let entries = vec![
        ("variant_b".to_string(), Recommendation::VariantWins("payload".to_string())),
        ("variant_c".to_string(), Recommendation::ControlWins),
        ("variant_d".to_string(), Recommendation::NeedsMoreData),
        ("variant_e".to_string(), Recommendation::Inconclusive),
    ];
    let expected = pick_winner(&entries);
    assert_eq!(expected, Recommendation::VariantWins("variant_b".to_string()));
    // Every rotation and the reversal of the list give the same answer.
    for k in 0..entries.len() {
        let mut rotated = entries.clone();
        rotated.rotate_left(k);
        assert_eq!(pick_winner(&rotated), expected);
        rotated.reverse();
        assert_eq!(pick_winner(&rotated), expected);
    }
    let without_win: Vec<_> = entries[1..].to_vec();
    let mut reversed = without_win.clone();
    reversed.reverse();
    assert_eq!(pick_winner(&without_win), pick_winner(&reversed));
    assert_eq!(pick_winner(&reversed), Recommendation::ControlWins);
}
