use topster::kernel::convolve;
use topster::kernel::Kernel;
use topster::kernel::GAUSSIAN;
use topster::kernel::GAUSSIAN_DIVISOR;
use topster::kernel::SOBEL_X;
use topster::kernel::SOBEL_Y;
use topster::matrix::Matrix;

fn matrix(columns: Vec<Vec<i64>>) -> Matrix {
    Matrix::from_columns(1, columns).unwrap()
}

fn rows_of(weights: [[i64; 3]; 3]) -> Vec<Vec<i64>> {
    weights.iter().map(|row| row.to_vec()).collect()
}

#[test]
fn convolving_a_matrix_with_a_kernel_retains_the_matrices_dimensions() {
    let matrix = matrix(vec![vec![1, 2, 3]]);
    let kernel = Kernel::new([[1, 2, 3], [1, 2, 3], [1, 2, 3]], 1).unwrap();
    let convolution_result = convolve(&matrix, kernel);
    assert_eq!(
        (matrix.width(), matrix.height()),
        (convolution_result.width(), convolution_result.height())
    );
}

#[test]
fn convolving_a_single_column_looks_backwards_only() {
    let kernel = Kernel::new([[1, 2, 3], [1, 2, 3], [1, 2, 3]], 1).unwrap();
    let result = convolve(&matrix(vec![vec![1, 2, 3]]), kernel);
    assert_eq!(result.columns(), &vec![vec![1, 1 * 2 + 2 * 1, 1 * 3 + 2 * 2 + 3 * 1]]);
}

#[test]
fn the_corner_cell_receives_a_single_contribution() {
    let base = matrix(vec![vec![1, 2], vec![3, 4]]);
    let result = convolve(&base, Kernel::sobel_x());
    assert_eq!(result.get(0, 0), 1);
    assert_eq!(result.get(0, 1), 1 * 2 + 2 * 1);
    assert_eq!(result.get(1, 0), 1 * 3 + 0 * 1);
    assert_eq!(result.get(1, 1), 1 * 4 + 2 * 3 + 0 * 2 + 0 * 1);
    let result = convolve(&base, Kernel::sobel_y());
    assert_eq!(result.columns(), &vec![vec![1, 2], vec![5, 8]]);
    let result = convolve(&base, Kernel::gaussian());
    assert_eq!(result.columns(), &vec![vec![1, 4], vec![5, 18]]);
}

#[test]
fn an_impulse_at_the_origin_reproduces_the_kernel() {
    let impulse = matrix(vec![vec![1, 0, 0], vec![0, 0, 0], vec![0, 0, 0]]);
    assert_eq!(convolve(&impulse, Kernel::sobel_x()).columns(), &rows_of(SOBEL_X));
    assert_eq!(convolve(&impulse, Kernel::sobel_y()).columns(), &rows_of(SOBEL_Y));
    assert_eq!(convolve(&impulse, Kernel::gaussian()).columns(), &rows_of(GAUSSIAN));
}

#[test]
fn an_impulse_in_the_far_corner_leaves_one_cell() {
    let impulse = matrix(vec![vec![0, 0, 0], vec![0, 0, 0], vec![0, 0, 1]]);
    let result = convolve(&impulse, Kernel::gaussian());
    assert_eq!(result.columns(), &vec![vec![0, 0, 0], vec![0, 0, 0], vec![0, 0, 1]]);
}

#[test]
fn the_three_kernels_hold_their_weights() {
    assert_eq!(Kernel::sobel_x().weights(), [[1, 2, 1], [0, 0, 0], [-1, -2, -1]]);
    assert_eq!(Kernel::sobel_x().divisor(), 1);
    assert_eq!(Kernel::sobel_y().weights(), [[1, 0, -1], [2, 0, -2], [1, 0, -1]]);
    assert_eq!(Kernel::sobel_y().divisor(), 1);
    assert_eq!(Kernel::gaussian().weights(), [[1, 2, 1], [2, 4, 2], [1, 2, 1]]);
    assert_eq!(Kernel::gaussian().divisor(), 16);
    assert_eq!(GAUSSIAN_DIVISOR as i64, GAUSSIAN.iter().flatten().sum::<i64>());
}

#[test]
fn a_kernel_needs_a_positive_divisor() {
    assert!(Kernel::new(SOBEL_X, 0).is_none());
    let kernel = Kernel::new(SOBEL_X, 3).unwrap();
    assert_eq!(kernel.weights(), SOBEL_X);
    assert_eq!(kernel.divisor(), 3);
}

#[test]
fn convolution_multiplies_the_denominators() {
    let base = Matrix::from_columns(1000, vec![vec![16000, 32000]]).unwrap();
    let blurred = convolve(&base, Kernel::gaussian());
    assert_eq!(blurred.unit(), 16000);
    assert_eq!(blurred.columns(), &vec![vec![16000, 64000]]);
    let edges = convolve(&blurred, Kernel::sobel_x());
    assert_eq!(edges.unit(), 16000);
}

#[test]
fn convolution_of_a_larger_matrix_matches_the_sums_taken_by_hand() {
    let base = matrix(vec![vec![5, -3, 2, 7], vec![1, 0, -4, 6], vec![9, 9, 9, 9]]);
    assert_eq!(
        convolve(&base, Kernel::sobel_x()).columns(),
        &vec![vec![5, 7, 1, 8], vec![1, 2, -3, -2], vec![4, 20, 35, 28]]
    );
    assert_eq!(
        convolve(&base, Kernel::sobel_y()).columns(),
        &vec![vec![5, -3, -3, 10], vec![11, -6, -11, 26], vec![16, 6, -13, 22]]
    );
    assert_eq!(
        convolve(&base, Kernel::gaussian()).columns(),
        &vec![vec![5, 7, 1, 8], vec![11, 16, -1, 14], vec![16, 38, 31, 40]]
    );
}

#[test]
fn every_fixed_kernel_keeps_the_dimensions() {
    let shapes: Vec<Vec<Vec<i64>>> = vec![
        vec![vec![4]],
        vec![vec![1, 2, 3]],
        vec![vec![1], vec![2], vec![3], vec![4]],
        vec![vec![1, 2], vec![3, 4], vec![5, 6], vec![7, 8]],
        vec![],
    ];
    for columns in shapes {
        let base = matrix(columns);
        for kernel in [Kernel::gaussian(), Kernel::sobel_x(), Kernel::sobel_y()] {
            let result = convolve(&base, kernel);
            assert_eq!((result.width(), result.height()), (base.width(), base.height()));
        }
    }
}

#[test]
fn a_uniform_interior_has_no_horizontal_gradient() {
    let base = matrix(vec![vec![7; 6]; 6]);
    let result = convolve(&base, Kernel::sobel_x());
    for x in 2..6 {
        for y in 0..6 {
            assert_eq!(result.get(x, y), 0);
        }
    }
    assert_eq!(result.get(0, 2), 28);
    assert_eq!(result.get(1, 2), 28);
}
