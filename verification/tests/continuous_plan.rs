use stitchd_core::experimentation::stats::interaction::{
    pair_size_grid, pair_sizes, plan_continuous_interaction, size_grid, CellSize,
    ContinuousTestPlan, NdCellSize, SizeGrid,
};

fn size(a: usize, b: usize, n: u64) -> CellSize {
    CellSize { a_level: a, b_level: b, n }
}

#[test]
fn continuous_strong_interaction_grid_is_tested() {
    let cells = [size(0, 0, 50), size(0, 1, 50), size(1, 0, 50), size(1, 1, 50)];
    assert_eq!(
        plan_continuous_interaction(&cells),
        ContinuousTestPlan::Anova { rows: 2, cols: 2, n: vec![50, 50, 50, 50], df: 1, df_error: 196 }
    );
}

#[test]
fn continuous_no_replication_is_insufficient() {
    let cells = [size(0, 0, 1), size(0, 1, 1), size(1, 0, 1), size(1, 1, 1)];
    assert_eq!(plan_continuous_interaction(&cells), ContinuousTestPlan::Insufficient { df: 1 });
}

#[test]
fn continuous_empty_cell_is_insufficient() {
    let cells = [size(0, 0, 20), size(0, 1, 20), size(1, 0, 20)];
    assert_eq!(plan_continuous_interaction(&cells), ContinuousTestPlan::Insufficient { df: 1 });
}

#[test]
fn continuous_empty_is_insufficient() {
    assert_eq!(plan_continuous_interaction(&[]), ContinuousTestPlan::Insufficient { df: 0 });
}

#[test]
fn continuous_single_row_is_insufficient() {
    let cells = [size(0, 0, 20), size(0, 1, 20)];
    assert_eq!(plan_continuous_interaction(&cells), ContinuousTestPlan::Insufficient { df: 0 });
}

#[test]
fn continuous_zero_sized_cell_counts_as_empty() {
    let cells = [size(0, 0, 20), size(0, 1, 20), size(1, 0, 20), size(1, 1, 0)];
    assert_eq!(plan_continuous_interaction(&cells), ContinuousTestPlan::Insufficient { df: 1 });
}

#[test]
fn continuous_repeated_cells_fold_and_set_error_df() {
    let cells = [
        size(0, 0, 2),
        size(0, 1, 3),
        size(0, 2, 4),
        size(1, 0, 5),
        size(1, 1, 6),
        size(1, 2, 7),
        size(0, 0, 1),
    ];
    assert_eq!(
        plan_continuous_interaction(&cells),
        ContinuousTestPlan::Anova { rows: 2, cols: 3, n: vec![3, 3, 4, 5, 6, 7], df: 2, df_error: 22 }
    );
}

fn nd(levels: &[usize], n: u64) -> NdCellSize {
    NdCellSize { levels: levels.to_vec(), n }
}

#[test]
fn size_grid_without_replication_is_still_complete() {
    let cells = [size(0, 0, 1), size(0, 1, 1), size(1, 0, 1), size(1, 1, 1)];
    assert_eq!(
        size_grid(&cells),
        SizeGrid::Complete { rows: 2, cols: 2, n: vec![1, 1, 1, 1], df: 1 }
    );
}

#[test]
fn size_grid_with_a_missing_pair_is_incomplete() {
    let cells = [size(0, 0, 5), size(0, 1, 5), size(0, 2, 5), size(1, 0, 5), size(1, 1, 5)];
    assert_eq!(size_grid(&cells), SizeGrid::Incomplete { df: 2 });
}

#[test]
fn pair_sizes_keep_populated_cells_carrying_both_factors() {
    let cells = [
        nd(&[0, 1, 2], 4),
        nd(&[1, 0, 0], 0),
        nd(&[1], 9),
        nd(&[1, 1, 0], 6),
    ];
    assert_eq!(
        pair_sizes(&cells, 0, 2),
        vec![CellSize { a_level: 0, b_level: 2, n: 4 }, CellSize { a_level: 1, b_level: 0, n: 6 }]
    );
}

#[test]
fn pair_size_grid_collapses_over_the_third_factor() {
    let cells = [
        nd(&[0, 0, 0], 3),
        nd(&[0, 0, 1], 4),
        nd(&[0, 1, 0], 5),
        nd(&[1, 0, 1], 6),
        nd(&[1, 1, 1], 7),
        nd(&[1, 1, 0], 0),
    ];
    assert_eq!(
        pair_size_grid(&cells, 0, 1),
        SizeGrid::Complete { rows: 2, cols: 2, n: vec![7, 5, 6, 7], df: 1 }
    );
    // On factors 1 and 2, level pair (1, 0) holds 5 observations and (1, 1)
    // holds 7; (0, 0) holds 3 and (0, 1) holds 4 + 6.
    assert_eq!(
        pair_size_grid(&cells, 1, 2),
        SizeGrid::Complete { rows: 2, cols: 2, n: vec![3, 10, 5, 7], df: 1 }
    );
}

#[test]
fn pair_size_grid_ignores_empty_cells_when_sizing_the_grid() {
    let cells = [nd(&[0, 0], 3), nd(&[0, 1], 4), nd(&[1, 0], 0), nd(&[1, 1], 0)];
    assert_eq!(pair_size_grid(&cells, 0, 1), SizeGrid::Incomplete { df: 0 });
}
