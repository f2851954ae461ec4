//! The mathematical model of a matrix: a rectangular grid of rationals that
//! share one denominator.
use vstd::prelude::*;

verus! {

/// A `width` by `height` grid of numerators over the denominator `unit`,
/// indexed `cells[x][y]`.
#[verifier::ext_equal]
pub struct Grid {
    pub unit: nat,
    pub width: nat,
    pub height: nat,
    pub cells: Seq<Seq<int>>,
}

impl Grid {
    /// Every column has the grid's height, and the denominator is positive.
    pub open spec fn wf(self) -> bool {
        &&& self.unit >= 1
        &&& self.cells.len() == self.width
        &&& forall|x: int| 0 <= x < self.width ==> (#[trigger] self.cells[x]).len() == self.height
    }

    /// The coordinate lies inside the grid.
    pub open spec fn contains(self, x: int, y: int) -> bool {
        0 <= x < self.width && 0 <= y < self.height
    }

    /// The numerator at `(x, y)`.
    pub open spec fn at(self, x: int, y: int) -> int {
        self.cells[x][y]
    }

    /// The numerator at `(x, y)`, with zero everywhere outside the grid.
    pub open spec fn padded(self, x: int, y: int) -> int {
        if self.contains(x, y) {
            self.cells[x][y]
        } else {
            0
        }
    }

    /// No numerator exceeds `limit` in magnitude.
    pub open spec fn bounded(self, limit: int) -> bool {
        forall|x: int, y: int|
            self.contains(x, y) ==> -limit <= #[trigger] self.cells[x][y] <= limit
    }

    /// The transpose: `(i, j)` holds what `(j, i)` held.
    pub open spec fn transposed(self) -> Grid {
        Grid {
            unit: self.unit,
            width: self.height,
            height: self.width,
            cells: Seq::new(
                self.height,
                |i: int| Seq::new(self.width, |j: int| self.cells[j][i]),
            ),
        }
    }

    /// The rectangle `[x0, x1) x [y0, y1)`, moved to the origin.
    pub open spec fn region(self, x0: int, x1: int, y0: int, y1: int) -> Grid {
        Grid {
            unit: self.unit,
            width: (x1 - x0) as nat,
            height: (y1 - y0) as nat,
            cells: Seq::new(
                (x1 - x0) as nat,
                |i: int| Seq::new((y1 - y0) as nat, |j: int| self.cells[x0 + i][y0 + j]),
            ),
        }
    }

    /// The columns `[x0, x1)`, at full height.
    pub open spec fn strip(self, x0: int, x1: int) -> Grid {
        self.region(x0, x1, 0, self.height as int)
    }
}

/// Transposing twice gives the grid back, and transposing swaps the two
/// dimensions.
pub proof fn lemma_transpose_involution(g: Grid)
    requires
        g.wf(),
    ensures
        g.transposed().wf(),
        g.transposed().width == g.height,
        g.transposed().height == g.width,
        g.transposed().transposed() == g,
{
    let t = g.transposed();
    let tt = t.transposed();
    assert(tt.cells.len() == g.cells.len());
    assert forall|x: int| 0 <= x < g.width implies #[trigger] tt.cells[x] =~= g.cells[x] by {
        assert(g.cells[x].len() == g.height);
        assert forall|y: int| 0 <= y < g.height implies tt.cells[x][y] == g.cells[x][y] by {
            assert(t.cells[y][x] == g.cells[x][y]);
        }
    }
    assert(tt.cells =~= g.cells);
    assert(tt =~= g);
}

/// Cutting a rectangle out of a grid is cutting columns, transposing,
/// cutting columns again and transposing back: the result has the grid's
/// own orientation.
pub proof fn lemma_region_by_strips(g: Grid, x0: int, x1: int, y0: int, y1: int)
    requires
        g.wf(),
        0 <= x0 <= x1 <= g.width,
        0 <= y0 <= y1 <= g.height,
    ensures
        g.strip(x0, x1).transposed().strip(y0, y1).transposed() == g.region(x0, x1, y0, y1),
{
    let strip = g.strip(x0, x1);
    let turned = strip.transposed();
    let piece = turned.strip(y0, y1);
    let got = piece.transposed();
    let want = g.region(x0, x1, y0, y1);
    assert forall|i: int| 0 <= i < want.width implies #[trigger] got.cells[i] =~= want.cells[i] by {
        assert forall|j: int| 0 <= j < want.height implies got.cells[i][j] == want.cells[i][j] by {
            assert(piece.cells[j][i] == turned.cells[y0 + j][i]);
            assert(turned.cells[y0 + j][i] == strip.cells[i][y0 + j]);
            assert(strip.cells[i][y0 + j] == g.cells[x0 + i][y0 + j]);
        }
    }
    assert(got.cells =~= want.cells);
    assert(got =~= want);
}

/// A bound on a grid's cells is a bound on the cells of its transpose.
pub proof fn lemma_transposed_bounded(g: Grid, limit: int)
    requires
        g.wf(),
        g.bounded(limit),
    ensures
        g.transposed().bounded(limit),
{
    let t = g.transposed();
    assert forall|x: int, y: int| t.contains(x, y) implies -limit <= #[trigger] t.cells[x][y]
        <= limit by {
        assert(t.cells[x][y] == g.cells[y][x]);
    }
}

} // verus!
