use stitchd_core::experimentation::bandit::contextual::{design_dim, FeatureEncoding, FeatureSpec};

fn spec(encoding: FeatureEncoding) -> FeatureSpec {
    FeatureSpec { context_type: "user".to_string(), parameter: "p".to_string(), encoding }
}

#[test]
fn width_of_encodings() {
    assert_eq!(FeatureEncoding::Numeric.width(), 1);
    let one_hot = FeatureEncoding::OneHot {
        categories: vec!["free".to_string(), "pro".to_string(), "team".to_string()],
    };
    assert_eq!(one_hot.width(), 3);
    assert_eq!(FeatureEncoding::OneHot { categories: vec![] }.width(), 0);
}

#[test]
fn design_dim_is_intercept_plus_widths() {
    assert_eq!(design_dim(&[]), 1);
    let features = vec![
        spec(FeatureEncoding::Numeric),
        spec(FeatureEncoding::OneHot { categories: vec!["a".to_string(), "b".to_string()] }),
    ];
    assert_eq!(design_dim(&features), 4);
}
