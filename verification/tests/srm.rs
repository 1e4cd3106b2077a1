use stitchd_core::experimentation::stats::srm::{screen_srm, SrmCount, SrmScreen};

fn count(observed: u64, expected_is_zero: bool) -> SrmCount {
    SrmCount { observed, expected_is_zero }
}

#[test]
fn srm_screen_empty_and_single_variant_have_nothing_to_test() {
    assert_eq!(screen_srm(&[]), SrmScreen::NothingToTest);
    assert_eq!(screen_srm(&[count(500, false)]), SrmScreen::NothingToTest);
}

#[test]
fn srm_screen_no_assignments_has_nothing_to_test() {
    assert_eq!(screen_srm(&[count(0, false), count(0, false)]), SrmScreen::NothingToTest);
    assert_eq!(screen_srm(&[count(0, true), count(0, false)]), SrmScreen::NothingToTest);
}

#[test]
fn srm_screen_zero_allocation_with_assignments_is_a_mismatch() {
    assert_eq!(
        screen_srm(&[count(10, true), count(0, false)]),
        SrmScreen::ZeroAllocationMismatch
    );
    assert_eq!(
        screen_srm(&[count(0, true), count(1000, false)]),
        SrmScreen::ZeroAllocationMismatch
    );
    assert_eq!(screen_srm(&[count(3, true)]), SrmScreen::ZeroAllocationMismatch);
}

#[test]
fn srm_screen_runs_chi_square_on_variants_minus_one() {
    assert_eq!(
        screen_srm(&[count(1000, false), count(1000, false)]),
        SrmScreen::ChiSquare { df: 1 }
    );
    assert_eq!(
        screen_srm(&[count(1, false), count(0, false), count(0, false)]),
        SrmScreen::ChiSquare { df: 2 }
    );
}
