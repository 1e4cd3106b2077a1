use stitchd_core::experimentation::stats::interaction::{
    collapse_onto_key, contrast_coeffs, key_matches, Contrast, collapse_onto_factor, collapse_onto_pair, enumerate_terms, factor_count, level_dims,
    levels_on, plan_three_way, term_factors, BinaryCell, NdBinaryCell, TermKind, ThreeWayPlan,
};

fn cell(levels: &[usize], n: u64, s: u64) -> NdBinaryCell {
    NdBinaryCell { levels: levels.to_vec(), n, successes: s }
}

#[test]
fn term_order_values() {
    assert_eq!(TermKind::Main { factor: 0 }.order(), 1);
    assert_eq!(TermKind::TwoWay { a: 0, b: 1 }.order(), 2);
    assert_eq!(TermKind::ThreeWay { a: 0, b: 1, c: 2 }.order(), 3);
}

#[test]
fn term_factors_in_tuple_order() {
    assert_eq!(term_factors(&TermKind::Main { factor: 2 }), vec![2]);
    assert_eq!(term_factors(&TermKind::TwoWay { a: 0, b: 2 }), vec![0, 2]);
    assert_eq!(term_factors(&TermKind::ThreeWay { a: 0, b: 1, c: 2 }), vec![0, 1, 2]);
}

#[test]
fn enumerate_order_two_and_three() {
    assert_eq!(
        enumerate_terms(2),
        vec![
            TermKind::Main { factor: 0 },
            TermKind::Main { factor: 1 },
            TermKind::TwoWay { a: 0, b: 1 },
        ]
    );
    assert_eq!(
        enumerate_terms(3),
        vec![
            TermKind::Main { factor: 0 },
            TermKind::Main { factor: 1 },
            TermKind::Main { factor: 2 },
            TermKind::TwoWay { a: 0, b: 1 },
            TermKind::TwoWay { a: 0, b: 2 },
            TermKind::TwoWay { a: 1, b: 2 },
            TermKind::ThreeWay { a: 0, b: 1, c: 2 },
        ]
    );
}

#[test]
fn enumerate_order_zero_and_four() {
    assert!(enumerate_terms(0).is_empty());
    let four = enumerate_terms(4);
    // 4 mains + 6 pairs + the three-way term.
    assert_eq!(four.len(), 11);
    assert_eq!(four[10], TermKind::ThreeWay { a: 0, b: 1, c: 2 });
}

#[test]
fn factor_count_cases() {
    assert_eq!(factor_count(&[]), None);
    assert_eq!(factor_count(&[2, 2, 2]), Some(2));
    assert_eq!(factor_count(&[2, 3]), None);
    assert_eq!(factor_count(&[0, 0]), None);
}

#[test]
fn level_dims_takes_max_plus_one() {
    let tuples = vec![vec![0, 1], vec![2, 0], vec![1, 3]];
    assert_eq!(level_dims(&tuples, 2), vec![3, 4]);
    assert_eq!(level_dims(&[], 3), vec![0, 0, 0]);
}

#[test]
fn levels_on_counts_dense_levels() {
    let cells = vec![cell(&[0, 1], 10, 1), cell(&[2, 0], 10, 1)];
    assert_eq!(levels_on(&cells, 0), 3);
    assert_eq!(levels_on(&cells, 1), 2);
    assert_eq!(levels_on(&cells, 5), 0);
}

#[test]
fn collapse_onto_factor_sums_over_other_factors() {
    let cells = vec![
        cell(&[0, 0], 10, 1),
        cell(&[0, 1], 20, 2),
        cell(&[1, 0], 30, 3),
        cell(&[1, 1], 40, 4),
        cell(&[0, 1], 5, 5),
    ];
    let (n, s) = collapse_onto_factor(&cells, 0);
    assert_eq!(n, vec![35, 70]);
    assert_eq!(s, vec![8, 7]);
    let (n, s) = collapse_onto_factor(&cells, 1);
    assert_eq!(n, vec![40, 65]);
    assert_eq!(s, vec![4, 11]);
}

#[test]
fn collapse_saturates() {
    let cells = vec![cell(&[0], u64::MAX, 1), cell(&[0], 7, 1)];
    let (n, s) = collapse_onto_factor(&cells, 0);
    assert_eq!(n, vec![u64::MAX]);
    assert_eq!(s, vec![2]);
}

#[test]
fn collapse_onto_pair_is_row_major_and_folds_third_factor() {
    let cells = vec![
        cell(&[0, 0, 0], 10, 1),
        cell(&[0, 0, 1], 10, 2),
        cell(&[1, 1, 0], 20, 3),
        cell(&[0, 1, 1], 5, 4),
    ];
    let grid = collapse_onto_pair(&cells, 0, 1);
    assert_eq!(
        grid,
        vec![
            BinaryCell { a_level: 0, b_level: 0, n: 20, successes: 3 },
            BinaryCell { a_level: 0, b_level: 1, n: 5, successes: 4 },
            BinaryCell { a_level: 1, b_level: 0, n: 0, successes: 0 },
            BinaryCell { a_level: 1, b_level: 1, n: 20, successes: 3 },
        ]
    );
    let grid = collapse_onto_pair(&cells, 0, 2);
    assert_eq!(grid.len(), 4);
    assert_eq!(grid[1], BinaryCell { a_level: 0, b_level: 1, n: 15, successes: 6 });
}

use stitchd_core::experimentation::stats::interaction::{plan_binary_interaction, BinaryTestPlan};

fn bcell(a: usize, b: usize, n: u64, s: u64) -> BinaryCell {
    BinaryCell { a_level: a, b_level: b, n, successes: s }
}

#[test]
fn plan_empty_is_insufficient() {
    assert_eq!(plan_binary_interaction(&[]), BinaryTestPlan::Insufficient { df: 0 });
}

#[test]
fn plan_single_column_is_insufficient() {
    let cells = [bcell(0, 0, 100, 10), bcell(1, 0, 100, 20)];
    assert_eq!(plan_binary_interaction(&cells), BinaryTestPlan::Insufficient { df: 0 });
}

#[test]
fn plan_tiny_samples_is_insufficient() {
    let cells = [bcell(0, 0, 4, 1), bcell(0, 1, 4, 2), bcell(1, 0, 4, 1), bcell(1, 1, 4, 3)];
    assert_eq!(plan_binary_interaction(&cells), BinaryTestPlan::Insufficient { df: 1 });
}

#[test]
fn plan_two_by_two_tabulates_row_major() {
    let cells = [
        bcell(1, 1, 10, 7),
        bcell(0, 0, 10, 1),
        bcell(0, 1, 10, 2),
        bcell(1, 0, 10, 3),
        bcell(0, 0, 5, 1),
    ];
    match plan_binary_interaction(&cells) {
        BinaryTestPlan::Wald2x2 { grid, df } => {
            assert_eq!(df, 1);
            assert_eq!((grid.rows, grid.cols), (2, 2));
            assert_eq!(grid.n, vec![15, 10, 10, 10]);
            assert_eq!(grid.successes, vec![2, 2, 3, 7]);
        }
        other => panic!("expected a 2x2 plan, got {other:?}"),
    }
}

#[test]
fn plan_larger_grid_uses_pearson_with_missing_cells_zero() {
    let cells = [bcell(0, 0, 10, 1), bcell(2, 1, 30, 3)];
    match plan_binary_interaction(&cells) {
        BinaryTestPlan::PearsonRxC { grid, df } => {
            assert_eq!(df, 2);
            assert_eq!((grid.rows, grid.cols), (3, 2));
            assert_eq!(grid.n, vec![10, 0, 0, 0, 0, 30]);
            assert_eq!(grid.successes, vec![1, 0, 0, 0, 0, 3]);
        }
        other => panic!("expected an RxC plan, got {other:?}"),
    }
}

fn cube(successes: [u64; 8]) -> Vec<NdBinaryCell> {
    let mut cells = Vec::new();
    for a in 0..2 {
        for b in 0..2 {
            for c in 0..2 {
                cells.push(cell(&[a, b, c], 10, successes[(a * 2 + b) * 2 + c]));
            }
        }
    }
    cells
}

#[test]
fn three_way_fit_tabulates_outcome_major() {
    let cells = cube([1, 2, 3, 4, 5, 6, 7, 8]);
    match plan_three_way(&cells) {
        ThreeWayPlan::Fit { la, lb, lc, df, observed } => {
            assert_eq!((la, lb, lc, df), (2, 2, 2, 1));
            assert_eq!(observed.len(), 16);
            // o = 0: failures, o = 1: successes; index ((o·la + a)·lb + b)·lc + c.
            assert_eq!(&observed[..8], &[9, 8, 7, 6, 5, 4, 3, 2]);
            assert_eq!(&observed[8..], &[1, 2, 3, 4, 5, 6, 7, 8]);
        }
        other => panic!("expected a fit, got {other:?}"),
    }
}

#[test]
fn three_way_clamps_successes_and_folds_repeats() {
    let mut cells = cube([1, 2, 3, 4, 5, 6, 7, 8]);
    // A malformed cell (successes > n) and a repeat of the (1, 1, 1) cell.
    cells.push(cell(&[0, 0, 0], 3, 9));
    cells.push(cell(&[1, 1, 1, 4], 2, 1));
    match plan_three_way(&cells) {
        ThreeWayPlan::Fit { observed, .. } => {
            assert_eq!(observed[0], 9); // failures at (0,0,0) unchanged
            assert_eq!(observed[8], 1 + 3); // successes clamped to trials
            assert_eq!(observed[7], 2 + 1);
            assert_eq!(observed[15], 8 + 1);
        }
        other => panic!("expected a fit, got {other:?}"),
    }
}

#[test]
fn three_way_single_level_factor_is_insufficient() {
    let cells = vec![cell(&[0, 0, 0], 50, 10), cell(&[1, 1, 0], 50, 20)];
    assert_eq!(plan_three_way(&cells), ThreeWayPlan::Insufficient { df: 0 });
}

#[test]
fn three_way_too_few_trials_is_insufficient() {
    let mut cells = cube([1, 0, 1, 0, 1, 0, 1, 0]);
    for c in cells.iter_mut() {
        c.n = 2;
    }
    assert_eq!(plan_three_way(&cells), ThreeWayPlan::Insufficient { df: 1 });
}

#[test]
fn three_way_without_outcome_variance_is_insufficient() {
    assert_eq!(plan_three_way(&cube([0; 8])), ThreeWayPlan::Insufficient { df: 1 });
    assert_eq!(plan_three_way(&cube([10; 8])), ThreeWayPlan::Insufficient { df: 1 });
}

#[test]
fn three_way_df_multiplies_level_counts() {
    let sparse = vec![
        cell(&[2, 0, 0], 30, 10),
        cell(&[0, 3, 1], 30, 5),
        cell(&[1, 1, 1], 30, 7),
    ];
    // Most level triples are unobserved: empty margins, no fit.
    assert_eq!(plan_three_way(&sparse), ThreeWayPlan::Insufficient { df: 2 * 3 });
    let mut cells = sparse.clone();
    for a in 0..3 {
        for b in 0..4 {
            for c in 0..2 {
                if !sparse.iter().any(|x| x.levels == vec![a, b, c]) {
                    cells.push(cell(&[a, b, c], 30, 15));
                }
            }
        }
    }
    match plan_three_way(&cells) {
        ThreeWayPlan::Fit { la, lb, lc, df, observed } => {
            assert_eq!((la, lb, lc, df), (3, 4, 2, 2 * 3));
            assert_eq!(observed.len(), 2 * 3 * 4 * 2);
            assert_eq!(observed[((1 * 3 + 2) * 4 + 0) * 2 + 0], 10);
            assert_eq!(observed[((0 * 3 + 0) * 4 + 3) * 2 + 1], 25);
        }
        other => panic!("expected a fit, got {other:?}"),
    }
}

#[test]
fn contrast_main_effect_is_top_minus_anchor() {
    let c = contrast_coeffs(&TermKind::Main { factor: 1 }, &[2, 3]).unwrap();
    assert_eq!(
        c,
        Contrast { denominator: 1, coeffs: vec![(vec![0], -1), (vec![2], 1)] }
    );
    assert_eq!(contrast_coeffs(&TermKind::Main { factor: 2 }, &[2, 3]), None);
    assert_eq!(contrast_coeffs(&TermKind::Main { factor: 0 }, &[1, 3]), None);
}

#[test]
fn contrast_two_way_averages_elementary_contrasts() {
    let c = contrast_coeffs(&TermKind::TwoWay { a: 0, b: 1 }, &[2, 3]).unwrap();
    assert_eq!(c.denominator, 2);
    assert_eq!(
        c.coeffs,
        vec![
            (vec![0, 0], 2),
            (vec![0, 1], -1),
            (vec![0, 2], -1),
            (vec![1, 0], -2),
            (vec![1, 1], 1),
            (vec![1, 2], 1),
        ]
    );
    let total: i128 = c.coeffs.iter().map(|(_, w)| *w).sum();
    assert_eq!(total, 0);
    assert_eq!(contrast_coeffs(&TermKind::TwoWay { a: 0, b: 1 }, &[2, 1]), None);
    assert_eq!(contrast_coeffs(&TermKind::TwoWay { a: 0, b: 2 }, &[2, 2]), None);
}

#[test]
fn contrast_three_way_signs_corners() {
    let c = contrast_coeffs(&TermKind::ThreeWay { a: 0, b: 1, c: 2 }, &[2, 3, 2]).unwrap();
    assert_eq!(c.denominator, 1);
    assert_eq!(
        c.coeffs,
        vec![
            (vec![0, 0, 0], -1),
            (vec![0, 0, 1], 1),
            (vec![0, 2, 0], 1),
            (vec![0, 2, 1], -1),
            (vec![1, 0, 0], 1),
            (vec![1, 0, 1], -1),
            (vec![1, 2, 0], -1),
            (vec![1, 2, 1], 1),
        ]
    );
    assert_eq!(contrast_coeffs(&TermKind::ThreeWay { a: 0, b: 1, c: 2 }, &[2, 3]), None);
}

#[test]
fn key_matches_checks_each_participating_factor() {
    assert!(key_matches(&[1, 0, 2], &[0, 2], &[1, 2]));
    assert!(!key_matches(&[1, 0, 2], &[0, 2], &[1, 0]));
    assert!(!key_matches(&[1, 0], &[0, 2], &[1, 0]));
    assert!(key_matches(&[1, 0], &[], &[]));
}

#[test]
fn collapse_onto_key_sums_matching_cells() {
    let cells = vec![
        cell(&[0, 1, 0], 10, 3),
        cell(&[0, 1, 1], 5, 2),
        cell(&[1, 1, 0], 7, 7),
        cell(&[0, 0, 1], 4, 1),
        cell(&[0], 100, 50),
    ];
    assert_eq!(collapse_onto_key(&cells, &[0, 1], &[0, 1]), (15, 5));
    assert_eq!(collapse_onto_key(&cells, &[1], &[1]), (22, 12));
    assert_eq!(collapse_onto_key(&cells, &[2], &[1]), (9, 3));
    assert_eq!(collapse_onto_key(&cells, &[0], &[0]), (119, 56));
    let big = vec![cell(&[0], u64::MAX, 1), cell(&[0], 1, 1)];
    assert_eq!(collapse_onto_key(&big, &[0], &[0]), (u64::MAX, 2));
}

#[test]
fn collapses_conserve_totals() {
    let cells = vec![
        cell(&[0, 1, 0], 10, 3),
        cell(&[1, 0, 1], 5, 2),
        cell(&[1, 1, 1], 7, 7),
        cell(&[0, 1, 0], 4, 1),
        cell(&[2, 0, 1], 9, 0),
    ];
    let total_n: u64 = cells.iter().map(|c| c.n).sum();
    let total_s: u64 = cells.iter().map(|c| c.successes).sum();
    for f in 0..3 {
        let (n, s) = collapse_onto_factor(&cells, f);
        assert_eq!(n.iter().sum::<u64>(), total_n);
        assert_eq!(s.iter().sum::<u64>(), total_s);
    }
    let grid = collapse_onto_pair(&cells, 0, 2);
    assert_eq!(grid.len(), 3 * 2);
    assert_eq!(grid.iter().map(|c| c.n).sum::<u64>(), total_n);
    assert_eq!(grid.iter().map(|c| c.successes).sum::<u64>(), total_s);
}

#[test]
fn two_factor_collapse_plans_like_the_direct_test() {
    let nd = vec![
        cell(&[0, 0], 30, 10),
        cell(&[0, 1], 25, 5),
        cell(&[1, 0], 20, 12),
        cell(&[1, 1], 40, 30),
        cell(&[1, 1], 5, 1),
    ];
    let direct: Vec<BinaryCell> = nd
        .iter()
        .map(|c| bcell(c.levels[0], c.levels[1], c.n, c.successes))
        .collect();
    let collapsed = collapse_onto_pair(&nd, 0, 1);
    assert_eq!(plan_binary_interaction(&collapsed), plan_binary_interaction(&direct));

    let sparse = vec![cell(&[0, 2], 30, 10), cell(&[2, 0], 25, 5), cell(&[1, 1], 4, 1)];
    let direct: Vec<BinaryCell> = sparse
        .iter()
        .map(|c| bcell(c.levels[0], c.levels[1], c.n, c.successes))
        .collect();
    assert_eq!(
        plan_binary_interaction(&collapse_onto_pair(&sparse, 0, 1)),
        plan_binary_interaction(&direct)
    );
}

#[test]
fn binary_2x2_tiny_samples_is_insufficient() {
    let cells = [bcell(0, 0, 2, 0), bcell(0, 1, 2, 0), bcell(1, 0, 2, 0), bcell(1, 1, 2, 2)];
    assert_eq!(plan_binary_interaction(&cells), BinaryTestPlan::Insufficient { df: 1 });
}

#[test]
fn binary_rxc_tiny_total_is_insufficient() {
    let cells = [
        bcell(0, 0, 2, 1),
        bcell(0, 1, 2, 1),
        bcell(1, 0, 2, 1),
        bcell(1, 1, 2, 1),
        bcell(2, 0, 1, 0),
        bcell(2, 1, 1, 0),
    ];
    assert_eq!(plan_binary_interaction(&cells), BinaryTestPlan::Insufficient { df: 2 });
}

#[test]
fn binary_single_column_is_insufficient() {
    let cells = [bcell(0, 0, 1000, 100), bcell(1, 0, 1000, 200)];
    assert_eq!(plan_binary_interaction(&cells), BinaryTestPlan::Insufficient { df: 0 });
}

#[test]
fn binary_empty_is_insufficient() {
    assert_eq!(plan_binary_interaction(&[]), BinaryTestPlan::Insufficient { df: 0 });
}

#[test]
fn three_way_degenerate_factor_is_insufficient() {
    let nd = [
        cell(&[0, 0, 0], 1000, 100),
        cell(&[0, 1, 0], 1000, 200),
        cell(&[1, 0, 0], 1000, 300),
        cell(&[1, 1, 0], 1000, 150),
    ];
    assert_eq!(plan_three_way(&nd), ThreeWayPlan::Insufficient { df: 0 });
}

#[test]
fn three_way_successes_exceeding_n_does_not_underflow() {
    let nd = [
        cell(&[0, 0, 0], 1000, 1500),
        cell(&[0, 1, 0], 1000, 400),
        cell(&[1, 0, 0], 1000, 300),
        cell(&[1, 1, 0], 1000, 150),
        cell(&[0, 0, 1], 1000, 600),
        cell(&[0, 1, 1], 1000, 500),
        cell(&[1, 0, 1], 1000, 350),
        cell(&[1, 1, 1], 1000, 200),
    ];
    match plan_three_way(&nd) {
        ThreeWayPlan::Fit { observed, .. } => {
            // (0,0,0): successes clamped to 1000, so no failures.
            assert_eq!(observed[0], 0);
            assert_eq!(observed[8], 1000);
            // Every cell's successes and failures add up to its trials.
            for i in 0..8 {
                assert_eq!(observed[i] + observed[8 + i], 1000);
            }
        }
        other => panic!("expected a fit, got {other:?}"),
    }
}

#[test]
fn three_way_empty_margin_is_insufficient() {
    let nd = [
        cell(&[0, 0, 0], 1000, 1000),
        cell(&[0, 1, 0], 1000, 1000),
        cell(&[1, 0, 0], 1000, 1000),
        cell(&[1, 1, 0], 1000, 1000),
        cell(&[0, 0, 1], 1000, 1000),
        cell(&[0, 1, 1], 1000, 1000),
        cell(&[1, 0, 1], 1000, 1000),
        cell(&[1, 1, 1], 1000, 0),
    ];
    assert_eq!(plan_three_way(&nd), ThreeWayPlan::Insufficient { df: 1 });
}

#[test]
fn three_way_single_empty_margin_cell_blocks_the_fit() {
    // Every O×A×B and O×B×C margin cell is populated, but no failure is
    // observed at a = 0, c = 1 whatever b is: the O×A×C margin has a hole.
    let nd = [
        cell(&[0, 0, 0], 10, 5),
        cell(&[0, 1, 0], 10, 5),
        cell(&[1, 0, 0], 10, 5),
        cell(&[1, 1, 0], 10, 5),
        cell(&[0, 0, 1], 10, 10),
        cell(&[0, 1, 1], 10, 10),
        cell(&[1, 0, 1], 10, 5),
        cell(&[1, 1, 1], 10, 5),
    ];
    assert_eq!(plan_three_way(&nd), ThreeWayPlan::Insufficient { df: 1 });
}
