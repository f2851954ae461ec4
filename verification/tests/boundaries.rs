use topster::boundary::find_sections;
use topster::boundary::gradient_profile;
use topster::matrix::Matrix;

#[test]
fn runs_are_half_open_and_an_open_run_is_dropped() {
    assert_eq!(find_sections(&vec![9, 0, 0, 5, 3, 0, 0, 7, 0]), vec![(3, 5), (7, 8)]);
    assert_eq!(find_sections(&vec![9, 0, 0, 5, 3, 0, 0, 7]), vec![(3, 5)]);
    assert_eq!(find_sections(&vec![9, 0, 0, 5, 3, 0, 0, 7, 7, 7]), vec![(3, 5)]);
}

#[test]
fn the_first_entry_is_never_read() {
    assert_eq!(find_sections(&vec![0, 0, 0, 5, 3, 0]), find_sections(&vec![8, 0, 0, 5, 3, 0]));
    assert_eq!(find_sections(&vec![5, 0, 0]), vec![]);
    assert_eq!(find_sections(&vec![5, 5, 0]), vec![(1, 2)]);
    assert_eq!(find_sections(&vec![0, 5, 0]), vec![(1, 2)]);
}

#[test]
fn profiles_without_a_closed_run_have_no_sections() {
    assert_eq!(find_sections(&vec![]), vec![]);
    assert_eq!(find_sections(&vec![4]), vec![]);
    assert_eq!(find_sections(&vec![0]), vec![]);
    assert_eq!(find_sections(&vec![0, 0, 0, 0]), vec![]);
    assert_eq!(find_sections(&vec![1, 2, 3, 4]), vec![]);
    assert_eq!(find_sections(&vec![0, 0, 0, 4]), vec![]);
}

#[test]
fn negative_entries_are_nonzero() {
    assert_eq!(find_sections(&vec![0, -1, -2, 0, 3, -3, 0]), vec![(1, 3), (4, 6)]);
}

#[test]
fn adjacent_runs_are_separated_by_a_single_zero() {
    assert_eq!(find_sections(&vec![0, 1, 0, 1, 0, 1, 0]), vec![(1, 2), (3, 4), (5, 6)]);
}

#[test]
fn sections_are_ordered_and_disjoint() {
    let sections = find_sections(&vec![0, 3, 3, 0, 0, 2, 0, 9, 9, 9, 0, 1]);
    assert_eq!(sections, vec![(1, 3), (5, 6), (7, 10)]);
    for pair in sections.windows(2) {
        assert!(pair[0].1 < pair[1].0);
    }
}

#[test]
fn the_profile_holds_the_sum_of_each_column() {
    let matrix =
        Matrix::from_columns(1, vec![vec![5, -3, 2, 7], vec![1, 0, -4, 6], vec![9, 9, 9, 9]])
            .unwrap();
    assert_eq!(gradient_profile(&matrix), vec![11, 3, 36]);
}

#[test]
fn a_column_that_cancels_has_a_zero_profile_entry() {
    let matrix = Matrix::from_columns(1, vec![vec![4, -4], vec![4, -3]]).unwrap();
    assert_eq!(gradient_profile(&matrix), vec![0, 1]);
}

#[test]
fn the_profile_of_large_cells_does_not_wrap() {
    let matrix = Matrix::from_columns(
        1,
        vec![vec![i64::MAX, i64::MAX, i64::MAX], vec![i64::MIN, i64::MIN, i64::MIN]],
    )
    .unwrap();
    assert_eq!(gradient_profile(&matrix), vec![3 * i64::MAX as i128, 3 * i64::MIN as i128]);
}

#[test]
fn the_profile_of_a_matrix_without_rows_is_zero() {
    let matrix = Matrix::from_columns(1, vec![vec![], vec![]]).unwrap();
    assert_eq!(gradient_profile(&matrix), vec![0, 0]);
    assert_eq!(gradient_profile(&Matrix::from_columns(1, vec![]).unwrap()), vec![]);
}
