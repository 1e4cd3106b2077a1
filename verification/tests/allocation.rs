use stitchd_core::experimentation::bandit::allocation::{
    apportion, assemble_distribution, distribute, even_shares, exploration_budget, NormalizeError,
};

fn keys(names: &[&str]) -> Vec<String> {
    names.iter().map(|k| k.to_string()).collect()
}

#[test]
fn empty_is_error() {
    assert_eq!(exploration_budget(0, 0), Err(NormalizeError::NoArms));
}

#[test]
fn floor_too_high_is_error() {
    // 3 arms × 4000 = 12000 > 10000
    assert!(matches!(
        exploration_budget(3, 4000),
        Err(NormalizeError::FloorTooHigh {
            required: 12000,
            ..
        })
    ));
    assert_eq!(
        exploration_budget(3, 4000),
        Err(NormalizeError::FloorTooHigh { min_exploration_bp: 4000, n: 3, required: 12000 })
    );
}

#[test]
fn floor_exactly_fills_is_ok() {
    // 2 arms × 5000 = 10000 exactly → nothing left to distribute.
    let remaining = exploration_budget(2, 5000).unwrap();
    assert_eq!(remaining, 0);
    let bp = apportion(&vec![0, 0], &vec![0, 1], 5000, remaining);
    assert_eq!(bp, vec![5000, 5000]);
}

#[test]
fn single_arm_gets_everything() {
    let remaining = exploration_budget(1, 0).unwrap();
    assert_eq!(remaining, 10_000);
    // A single positive weight gets the whole remaining share.
    let bp = apportion(&vec![10_000], &vec![0], 0, remaining);
    assert_eq!(bp, vec![10_000]);
}

#[test]
fn proportional_split_no_floor() {
    // 75/25 split → integer shares 7500/2500, nothing left over.
    let bp = apportion(&vec![7500, 2500], &vec![0, 1], 0, 10_000);
    assert_eq!(bp, vec![7500, 2500]);
}

#[test]
fn zero_weight_arm_still_gets_floor() {
    let remaining = exploration_budget(2, 500).unwrap();
    assert_eq!(remaining, 9000);
    let bp = apportion(&vec![9000, 0], &vec![0, 1], 500, remaining);
    assert_eq!(bp, vec![9500, 500]);
}

#[test]
fn rounding_drift_fixed_three_equal() {
    // 3 equal arms, no floor: 3333 each plus one leftover bp dealt in order.
    let remaining = exploration_budget(3, 0).unwrap();
    let bp = apportion(&vec![3333, 3333, 3333], &vec![0, 1, 2], 0, remaining);
    assert_eq!(bp.iter().sum::<u32>(), 10_000);
    for v in &bp {
        assert!(*v == 3333 || *v == 3334, "got {v}");
    }
    assert_eq!(bp, vec![3334, 3333, 3333]);
}

#[test]
fn all_zero_weights_split_evenly() {
    let remaining = exploration_budget(3, 0).unwrap();
    let (bases, order) = even_shares(3, remaining);
    assert_eq!(bases, vec![3333, 3333, 3333]);
    assert_eq!(order, vec![0, 1, 2]);
    let bp = apportion(&bases, &order, 0, remaining);
    assert_eq!(bp.iter().sum::<u32>(), 10_000);
}

#[test]
fn leftover_follows_the_remainder_ranking() {
    // Leftover of 2 goes to the two arms ranked first: arm 2, then arm 0.
    let bp = apportion(&vec![3134, 3133, 3131], &vec![2, 0, 1], 200, 9400);
    assert_eq!(bp, vec![3335, 3333, 3332]);
    assert_eq!(bp.iter().sum::<u32>(), 10_000);
}

#[test]
fn leftover_larger_than_arm_count_cycles() {
    // 5 leftover bp over 2 arms: arm 1 ranked first gets 3, arm 0 gets 2.
    let bp = apportion(&vec![4000, 5995], &vec![1, 0], 0, 10_000);
    assert_eq!(bp, vec![4002, 5998]);
}

#[test]
fn many_arms_each_gets_floor() {
    // 20 arms, floor 100 → 2000 reserved, 8000 distributed.
    let remaining = exploration_budget(20, 100).unwrap();
    assert_eq!(remaining, 8000);
    let (bases, order) = even_shares(20, remaining);
    let bp = apportion(&bases, &order, 100, remaining);
    assert_eq!(bp.iter().sum::<u32>(), 10_000);
    for v in &bp {
        assert!(*v >= 100);
    }
}

#[test]
fn even_split_of_more_arms_than_points() {
    let (bases, order) = even_shares(3, 2);
    assert_eq!(bases, vec![0, 0, 0]);
    let bp = apportion(&bases, &order, 3332, 2);
    assert_eq!(bp, vec![3333, 3333, 3332]);
}

#[test]
fn order_is_preserved() {
    let d = assemble_distribution(&keys(&["z", "a", "m"]), vec![1667, 3333, 5000]);
    let got: Vec<(&str, u32)> = d
        .allocations
        .iter()
        .map(|a| (a.variant_key.as_str(), a.percentage_bp))
        .collect();
    assert_eq!(got, vec![("z", 1667), ("a", 3333), ("m", 5000)]);
}

#[test]
fn floor_applied_to_every_arm() {
    // Weights 5/3/2 with a 1000 bp floor: 7000 bp left, shares 3500/2100/1400.
    let remaining = exploration_budget(3, 1000).unwrap();
    assert_eq!(remaining, 7000);
    let bp = apportion(&vec![3500, 2100, 1400], &vec![0, 1, 2], 1000, remaining);
    assert_eq!(bp, vec![4500, 3100, 2400]);
    assert_eq!(bp.iter().sum::<u32>(), 10_000);
    for v in &bp {
        assert!(*v >= 1000);
    }
}

#[test]
fn property_sum_is_always_exactly_10000() {
    // Every arm count and floor that fits, with bases short of the budget
    // by up to one point per arm, ranked in reverse input order.
    for n in 1usize..=8 {
        let max_floor = (10_000 / n as u32).min(5000);
        for floor in [0u32, 1, 50, 100, 500, max_floor] {
            let Ok(remaining) = exploration_budget(n, floor) else {
                continue;
            };
            let share = remaining / n as u32;
            let bases = vec![share; n];
            let order: Vec<usize> = (0..n).rev().collect();
            let bp = apportion(&bases, &order, floor, remaining);
            assert_eq!(bp.iter().sum::<u32>(), 10_000, "n={n} floor={floor}");
            for v in &bp {
                assert!(*v >= floor);
            }
        }
    }
}

#[test]
fn distribute_keeps_keys_floor_and_total() {
    let keys = vec!["a".to_string(), "b".to_string(), "c".to_string()];
    // floor 500 × 3 = 1500; 8500 left, bases 2833 + 2833 + 2832 = 8498,
    // two leftover points go to ranks 0 and 1 of the order (arms 2 and 0).
    let d = distribute(&keys, &vec![2833, 2833, 2832], &vec![2, 0, 1], 500);
    let got: Vec<(String, u32)> =
        d.allocations.iter().map(|a| (a.variant_key.clone(), a.percentage_bp)).collect();
    assert_eq!(
        got,
        vec![("a".to_string(), 3334), ("b".to_string(), 3333), ("c".to_string(), 3333)]
    );
    assert_eq!(d.allocations.iter().map(|a| a.percentage_bp).sum::<u32>(), 10_000);
}
