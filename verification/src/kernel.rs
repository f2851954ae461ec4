//! The 3x3 kernels and the convolution that applies them.
use vstd::prelude::*;
use crate::grid::Grid;
use crate::matrix::Matrix;
use crate::matrix::rectangular;

verus! {

/// The numerators of the horizontal-edge Sobel kernel.
pub const SOBEL_X: [[i64; 3]; 3] = [[1, 2, 1], [0, 0, 0], [-1, -2, -1]];

/// The numerators of the vertical-edge Sobel kernel.
pub const SOBEL_Y: [[i64; 3]; 3] = [[1, 0, -1], [2, 0, -2], [1, 0, -1]];

/// The numerators of the binomial blur; its weights are these over
/// `GAUSSIAN_DIVISOR`.
pub const GAUSSIAN: [[i64; 3]; 3] = [[1, 2, 1], [2, 4, 2], [1, 2, 1]];

/// The sum of the blur's numerators, which normalises it.
pub const GAUSSIAN_DIVISOR: u64 = 16;

/// The mathematical model of a kernel: a 3x3 grid of rational weights
/// `numerators[u][v] / divisor`.
#[verifier::ext_equal]
pub struct Weights {
    pub numerators: Seq<Seq<int>>,
    pub divisor: nat,
}

/// The magnitude of an integer.
pub open spec fn magnitude(i: int) -> int {
    if i < 0 {
        -i
    } else {
        i
    }
}

/// The weights with the given numerators over `divisor`.
pub open spec fn weights_of(numerators: [[i64; 3]; 3], divisor: u64) -> Weights {
    Weights {
        numerators: Seq::new(3, |u: int| Seq::new(3, |v: int| numerators[u][v] as int)),
        divisor: divisor as nat,
    }
}

impl Weights {
    /// The numerator of the weight at `(u, v)`.
    pub open spec fn weight(self, u: int, v: int) -> int {
        self.numerators[u][v]
    }

    /// The sum of the magnitudes of the three numerators of row `u`.
    pub open spec fn row_norm(self, u: int) -> int {
        magnitude(self.weight(u, 0)) + magnitude(self.weight(u, 1)) + magnitude(self.weight(u, 2))
    }

    /// The sum of the magnitudes of the nine numerators.
    pub open spec fn norm(self) -> int {
        self.row_norm(0) + self.row_norm(1) + self.row_norm(2)
    }

    /// Every sum of nine weighted cells of `grid` fits a cell: no cell
    /// times the norm exceeds the largest `i64`.
    pub open spec fn admits(self, grid: Grid) -> bool {
        self.norm() == 0 || grid.bounded((i64::MAX as int) / self.norm())
    }
}

/// A 3x3 kernel with a positive divisor.
#[derive(Clone, Copy)]
pub struct Kernel {
    weights: [[i64; 3]; 3],
    divisor: u64,
}

impl View for Kernel {
    type V = Weights;

    closed spec fn view(&self) -> Weights {
        weights_of(self.weights, self.divisor)
    }
}

impl Kernel {
    #[verifier::type_invariant]
    spec fn inv(self) -> bool {
        self.divisor >= 1
    }

    /// The kernel `weights / divisor`, or nothing when the divisor is zero.
    pub fn new(weights: [[i64; 3]; 3], divisor: u64) -> (kernel: Option<Kernel>)
        ensures
            kernel.is_some() == (divisor >= 1),
            kernel.is_some() ==> kernel.unwrap()@ == weights_of(weights, divisor),
    {
        if divisor >= 1 {
            Some(Kernel { weights, divisor })
        } else {
            None
        }
    }

    /// The numerators of the weights.
    pub fn weights(&self) -> (weights: [[i64; 3]; 3])
        ensures
            forall|u: int, v: int|
                0 <= u < 3 && 0 <= v < 3 ==> (#[trigger] weights[u][v]) == self@.weight(u, v),
    {
        self.weights
    }

    /// The common denominator of the weights.
    pub fn divisor(&self) -> (divisor: u64)
        ensures
            divisor == self@.divisor,
            divisor >= 1,
    {
        proof {
            use_type_invariant(self);
        }
        self.divisor
    }

    /// The horizontal-edge Sobel kernel.
    pub fn sobel_x() -> (kernel: Kernel)
        ensures
            kernel@ == weights_of(SOBEL_X, 1),
    {
        Kernel { weights: SOBEL_X, divisor: 1 }
    }

    /// The vertical-edge Sobel kernel.
    pub fn sobel_y() -> (kernel: Kernel)
        ensures
            kernel@ == weights_of(SOBEL_Y, 1),
    {
        Kernel { weights: SOBEL_Y, divisor: 1 }
    }

    /// The normalised binomial blur.
    pub fn gaussian() -> (kernel: Kernel)
        ensures
            kernel@ == weights_of(GAUSSIAN, GAUSSIAN_DIVISOR),
    {
        Kernel { weights: GAUSSIAN, divisor: GAUSSIAN_DIVISOR }
    }
}

/// The norms of the three fixed kernels.
pub proof fn lemma_fixed_norms()
    ensures
        weights_of(SOBEL_X, 1).norm() == 8,
        weights_of(SOBEL_Y, 1).norm() == 8,
        weights_of(GAUSSIAN, GAUSSIAN_DIVISOR).norm() == 16,
{
}

/// What the kernel's weight `(u, v)` contributes to the output cell `(x, y)`:
/// it multiplies the input cell `(x - u, y - v)`, or zero where that lies
/// outside the grid.
pub open spec fn tap(grid: Grid, kernel: Weights, x: int, y: int, u: int, v: int) -> int {
    kernel.weight(u, v) * grid.padded(x - u, y - v)
}

/// What row `u` of the kernel contributes to the output cell `(x, y)`.
pub open spec fn tap_row(grid: Grid, kernel: Weights, x: int, y: int, u: int) -> int {
    tap(grid, kernel, x, y, u, 0) + tap(grid, kernel, x, y, u, 1) + tap(grid, kernel, x, y, u, 2)
}

/// The numerator of the convolution at `(x, y)`: the sum of the nine taps.
pub open spec fn convolved_at(grid: Grid, kernel: Weights, x: int, y: int) -> int {
    tap_row(grid, kernel, x, y, 0) + tap_row(grid, kernel, x, y, 1) + tap_row(grid, kernel, x, y, 2)
}

/// The convolution of a grid with a kernel: a grid of the same dimensions
/// whose denominator is the product of the two denominators.
pub open spec fn convolved(grid: Grid, kernel: Weights) -> Grid {
    Grid {
        unit: grid.unit * kernel.divisor,
        width: grid.width,
        height: grid.height,
        cells: Seq::new(
            grid.width,
            |x: int| Seq::new(grid.height, |y: int| convolved_at(grid, kernel, x, y)),
        ),
    }
}

/// The sum of the first `n` taps, taken row by row.
spec fn taps(grid: Grid, kernel: Weights, x: int, y: int, n: nat) -> int
    decreases n,
{
    if n == 0 {
        0
    } else {
        let last = n - 1;
        taps(grid, kernel, x, y, last as nat) + tap(grid, kernel, x, y, last / 3, last % 3)
    }
}

/// The sum of the magnitudes of the first `n` numerators, taken row by row.
spec fn partial_norm(kernel: Weights, n: nat) -> int
    decreases n,
{
    if n == 0 {
        0
    } else {
        let last = n - 1;
        partial_norm(kernel, last as nat) + magnitude(kernel.weight(last / 3, last % 3))
    }
}

/// All nine taps make the convolution, and all nine magnitudes the norm.
proof fn lemma_nine_taps(grid: Grid, kernel: Weights, x: int, y: int)
    ensures
        taps(grid, kernel, x, y, 9) == convolved_at(grid, kernel, x, y),
        partial_norm(kernel, 9) == kernel.norm(),
{
    reveal_with_fuel(taps, 10);
    reveal_with_fuel(partial_norm, 10);
}

/// The partial norms are not negative and do not shrink.
proof fn lemma_partial_norm_grows(kernel: Weights, n: nat, m: nat)
    requires
        n <= m,
    ensures
        0 <= partial_norm(kernel, n) <= partial_norm(kernel, m),
    decreases m,
{
    if n < m {
        lemma_partial_norm_grows(kernel, n, (m - 1) as nat);
    } else if n > 0 {
        lemma_partial_norm_grows(kernel, (n - 1) as nat, (n - 1) as nat);
    }
}

/// A weighted cell is at most the weight's magnitude times the bound on the
/// cell.
proof fn lemma_scaled(weight: int, cell: int, limit: int)
    requires
        weight == 0 || -limit <= cell <= limit,
        0 <= limit,
    ensures
        -(magnitude(weight) * limit) <= weight * cell,
        weight * cell <= magnitude(weight) * limit,
{
    let m = magnitude(weight);
    assert(-(m * limit) <= weight * cell && weight * cell <= m * limit) by (nonlinear_arith)
        requires
            weight == 0 || -limit <= cell <= limit,
            0 <= limit,
            m == if weight < 0 { -weight } else { weight },
    ;
}

/// No numerator exceeds the norm.
proof fn lemma_weight_within_norm(kernel: Weights, u: int, v: int)
    requires
        0 <= u < 3,
        0 <= v < 3,
    ensures
        0 <= magnitude(kernel.weight(u, v)) <= kernel.norm(),
{
}

/// The limit that `admits` puts on the cells, or zero for a kernel of zeros.
spec fn ceiling(kernel: Weights) -> int {
    if kernel.norm() == 0 {
        0
    } else {
        (i64::MAX as int) / kernel.norm()
    }
}

/// The norm times the ceiling fits a cell.
proof fn lemma_ceiling(kernel: Weights)
    ensures
        0 <= ceiling(kernel),
        0 <= kernel.norm() * ceiling(kernel) <= i64::MAX,
{
    let n = kernel.norm();
    if n != 0 {
        assert(n > 0);
        assert(0 <= (i64::MAX as int) / n && 0 <= n * ((i64::MAX as int) / n) <= i64::MAX)
            by (nonlinear_arith)
            requires
                n > 0,
        ;
    }
}

/// A weighted cell of a grid that the kernel admits stays within the
/// kernel's share of the ceiling.
proof fn lemma_tap_bounded(grid: Grid, kernel: Weights, x: int, y: int, u: int, v: int)
    requires
        kernel.admits(grid),
        0 <= u < 3,
        0 <= v < 3,
    ensures
        -(magnitude(kernel.weight(u, v)) * ceiling(kernel)) <= tap(grid, kernel, x, y, u, v),
        tap(grid, kernel, x, y, u, v) <= magnitude(kernel.weight(u, v)) * ceiling(kernel),
        magnitude(kernel.weight(u, v)) * ceiling(kernel) <= i64::MAX,
{
    let limit = ceiling(kernel);
    let w = kernel.weight(u, v);
    lemma_ceiling(kernel);
    lemma_weight_within_norm(kernel, u, v);
    if kernel.norm() != 0 && grid.contains(x - u, y - v) {
        assert(-limit <= grid.cells[x - u][y - v] <= limit);
    }
    lemma_scaled(w, grid.padded(x - u, y - v), limit);
    assert(magnitude(w) * limit <= kernel.norm() * limit) by (nonlinear_arith)
        requires
            0 <= magnitude(w) <= kernel.norm(),
            0 <= limit,
    ;
}

/// The first `n` taps of a grid that the kernel admits sum to a number that
/// fits a cell.
proof fn lemma_taps_bounded(grid: Grid, kernel: Weights, x: int, y: int, n: nat)
    requires
        kernel.admits(grid),
        n <= 9,
    ensures
        -(partial_norm(kernel, n) * ceiling(kernel)) <= taps(grid, kernel, x, y, n),
        taps(grid, kernel, x, y, n) <= partial_norm(kernel, n) * ceiling(kernel),
        partial_norm(kernel, n) * ceiling(kernel) <= i64::MAX,
    decreases n,
{
    let limit = ceiling(kernel);
    lemma_ceiling(kernel);
    lemma_partial_norm_grows(kernel, n, 9);
    lemma_nine_taps(grid, kernel, x, y);
    assert(partial_norm(kernel, n) * limit <= kernel.norm() * limit) by (nonlinear_arith)
        requires
            0 <= partial_norm(kernel, n) <= kernel.norm(),
            0 <= limit,
    ;
    if n > 0 {
        let u = (n - 1) / 3;
        let v = (n - 1) % 3;
        lemma_taps_bounded(grid, kernel, x, y, (n - 1) as nat);
        lemma_tap_bounded(grid, kernel, x, y, u, v);
        let p = partial_norm(kernel, (n - 1) as nat);
        let m = magnitude(kernel.weight(u, v));
        assert(partial_norm(kernel, n) == p + m);
        assert((p + m) * limit == p * limit + m * limit) by (nonlinear_arith);
    } else {
        assert(partial_norm(kernel, n) * limit == 0) by (nonlinear_arith)
            requires
                partial_norm(kernel, n) == 0,
        ;
    }
}

/// One row of taps is at most the row's norm times the bound on the cells.
proof fn lemma_row_scaled(grid: Grid, kernel: Weights, x: int, y: int, u: int, limit: int)
    requires
        grid.bounded(limit),
        0 <= limit,
    ensures
        -(kernel.row_norm(u) * limit) <= tap_row(grid, kernel, x, y, u),
        tap_row(grid, kernel, x, y, u) <= kernel.row_norm(u) * limit,
{
    assert forall|v: int| 0 <= v < 3 implies -(magnitude(kernel.weight(u, v)) * limit)
        <= #[trigger] tap(grid, kernel, x, y, u, v) <= magnitude(kernel.weight(u, v)) * limit by {
        if grid.contains(x - u, y - v) {
            assert(-limit <= grid.cells[x - u][y - v] <= limit);
        }
        lemma_scaled(kernel.weight(u, v), grid.padded(x - u, y - v), limit);
    }
    let a = magnitude(kernel.weight(u, 0));
    let b = magnitude(kernel.weight(u, 1));
    let c = magnitude(kernel.weight(u, 2));
    assert(tap(grid, kernel, x, y, u, 0) <= a * limit);
    assert(tap(grid, kernel, x, y, u, 1) <= b * limit);
    assert(tap(grid, kernel, x, y, u, 2) <= c * limit);
    assert((a + b + c) * limit == a * limit + b * limit + c * limit) by (nonlinear_arith);
}

/// A cell of the convolution is at most the norm times the bound on the
/// cells.
proof fn lemma_nine_scaled(grid: Grid, kernel: Weights, x: int, y: int, limit: int)
    requires
        grid.bounded(limit),
        0 <= limit,
    ensures
        -(kernel.norm() * limit) <= convolved_at(grid, kernel, x, y) <= kernel.norm() * limit,
{
    lemma_row_scaled(grid, kernel, x, y, 0, limit);
    lemma_row_scaled(grid, kernel, x, y, 1, limit);
    lemma_row_scaled(grid, kernel, x, y, 2, limit);
    let a = kernel.row_norm(0);
    let b = kernel.row_norm(1);
    let c = kernel.row_norm(2);
    assert((a + b + c) * limit == a * limit + b * limit + c * limit) by (nonlinear_arith);
}

/// A weight whose input cell lies outside the grid contributes nothing.
pub proof fn lemma_zero_padding(grid: Grid, kernel: Weights, x: int, y: int, u: int, v: int)
    requires
        !grid.contains(x - u, y - v),
    ensures
        tap(grid, kernel, x, y, u, v) == 0,
{
}

/// At the corner `(0, 0)` only the weight `(0, 0)` contributes: the other
/// eight reach outside the grid.
pub proof fn lemma_corner(grid: Grid, kernel: Weights)
    ensures
        convolved_at(grid, kernel, 0, 0) == kernel.weight(0, 0) * grid.padded(0, 0),
{
}

/// Where no cell exceeds `limit`, no cell of the convolution exceeds `limit`
/// times the kernel's norm.
pub proof fn lemma_convolved_bounded(grid: Grid, kernel: Weights, limit: int)
    requires
        grid.bounded(limit),
        0 <= limit,
    ensures
        convolved(grid, kernel).bounded(kernel.norm() * limit),
{
    let out = convolved(grid, kernel);
    assert forall|x: int, y: int| out.contains(x, y) implies -(kernel.norm() * limit)
        <= #[trigger] out.cells[x][y] <= kernel.norm() * limit by {
        assert(out.cells[x][y] == convolved_at(grid, kernel, x, y));
        lemma_nine_scaled(grid, kernel, x, y, limit);
    }
}

/// One cell of the convolution.
fn convolve_at(matrix: &Matrix, kernel: &Kernel, x: usize, y: usize) -> (sum: i64)
    requires
        matrix@.wf(),
        matrix@.contains(x as int, y as int),
        kernel@.admits(matrix@),
    ensures
        sum == convolved_at(matrix@, kernel@, x as int, y as int),
{
    let mut sum: i64 = 0;
    let mut u: usize = 0;
    while u < 3
        invariant
            u <= 3,
            matrix@.wf(),
            matrix@.contains(x as int, y as int),
            kernel@.admits(matrix@),
            sum == taps(matrix@, kernel@, x as int, y as int, (3 * u) as nat),
        decreases 3 - u,
    {
        let mut v: usize = 0;
        while v < 3
            invariant
                u < 3,
                v <= 3,
                matrix@.wf(),
                matrix@.contains(x as int, y as int),
                kernel@.admits(matrix@),
                sum == taps(matrix@, kernel@, x as int, y as int, (3 * u + v) as nat),
            decreases 3 - v,
        {
            let cell: i64 = if x >= u && y >= v {
                matrix.get(x - u, y - v)
            } else {
                0
            };
            let weight: i64 = kernel.weights[u][v];
            proof {
                let n = (3 * u + v + 1) as nat;
                assert((n - 1) / 3 == u && (n - 1) % 3 == v);
                assert(cell == matrix@.padded(x - u, y - v));
                assert(weight == kernel@.weight(u as int, v as int));
                lemma_tap_bounded(matrix@, kernel@, x as int, y as int, u as int, v as int);
                lemma_taps_bounded(matrix@, kernel@, x as int, y as int, n);
                assert(taps(matrix@, kernel@, x as int, y as int, n) == sum + weight * cell);
            }
            sum = sum + weight * cell;
            v += 1;
        }
        u += 1;
    }
    proof {
        lemma_nine_taps(matrix@, kernel@, x as int, y as int);
    }
    sum
}

/// Convolves the matrix with the kernel. The output cell `(x, y)` is the sum
/// over `u, v` in `0..3` of `weight(u, v)` times the input cell
/// `(x - u, y - v)`, with zero for every input cell outside the matrix: the
/// kernel looks backwards from the output coordinate, it is not centred on
/// it. The result has the dimensions of the matrix.
pub fn convolve(matrix: &Matrix, kernel: Kernel) -> (result: Matrix)
    requires
        matrix@.unit * kernel@.divisor <= u64::MAX,
        kernel@.admits(matrix@),
    ensures
        result@ == convolved(matrix@, kernel@),
        result@.width == matrix@.width,
        result@.height == matrix@.height,
{
    let width: usize = matrix.width();
    let height: usize = matrix.height();
    proof {
        use_type_invariant(&kernel);
    }
    assert(1 <= matrix@.unit * kernel@.divisor) by (nonlinear_arith)
        requires
            1 <= matrix@.unit,
            1 <= kernel@.divisor,
    ;
    let unit: u64 = matrix.unit() * kernel.divisor;
    let mut columns: Vec<Vec<i64>> = Vec::new();
    let mut x: usize = 0;
    while x < width
        invariant
            x <= width,
            width == matrix@.width,
            height == matrix@.height,
            matrix@.wf(),
            kernel@.admits(matrix@),
            columns@.len() == x,
            rectangular(columns@, height as nat),
            forall|a: int, b: int|
                0 <= a < x && 0 <= b < height ==> (#[trigger] columns@[a]@[b]) == convolved_at(
                    matrix@,
                    kernel@,
                    a,
                    b,
                ),
        decreases width - x,
    {
        let mut column: Vec<i64> = Vec::new();
        let mut y: usize = 0;
        while y < height
            invariant
                y <= height,
                x < width,
                width == matrix@.width,
                height == matrix@.height,
                matrix@.wf(),
                kernel@.admits(matrix@),
                column@.len() == y,
                forall|b: int|
                    0 <= b < y ==> (#[trigger] column@[b]) == convolved_at(
                        matrix@,
                        kernel@,
                        x as int,
                        b,
                    ),
            decreases height - y,
        {
            column.push(convolve_at(matrix, &kernel, x, y));
            y += 1;
        }
        columns.push(column);
        x += 1;
    }
    let result = Matrix::assemble(unit, height, columns);
    proof {
        let want = convolved(matrix@, kernel@);
        assert forall|a: int| 0 <= a < want.width implies #[trigger] result@.cells[a]
            =~= want.cells[a] by {}
        assert(result@.cells =~= want.cells);
        assert(result@ =~= want);
    }
    result
}

} // verus!
