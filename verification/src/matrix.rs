//! The executable matrix and the operations that only move its cells.
use vstd::prelude::*;
use crate::grid::Grid;

verus! {

/// A rectangular grid of fixed-point intensities, stored column by column.
pub struct Matrix {
    unit: u64,
    height: usize,
    columns: Vec<Vec<i64>>,
}

/// The cells of a vector of columns of height `height`.
pub open spec fn cells_of(columns: Seq<Vec<i64>>, height: nat) -> Seq<Seq<int>> {
    Seq::new(columns.len(), |x: int| Seq::new(height, |y: int| columns[x]@[y] as int))
}

/// All columns have length `height`.
pub open spec fn rectangular(columns: Seq<Vec<i64>>, height: nat) -> bool {
    forall|x: int| 0 <= x < columns.len() ==> (#[trigger] columns[x])@.len() == height
}

impl View for Matrix {
    type V = Grid;

    closed spec fn view(&self) -> Grid {
        Grid {
            unit: self.unit as nat,
            width: self.columns@.len(),
            height: self.height as nat,
            cells: cells_of(self.columns@, self.height as nat),
        }
    }
}

impl Matrix {
    #[verifier::type_invariant]
    spec fn inv(self) -> bool {
        &&& self.unit >= 1
        &&& rectangular(self.columns@, self.height as nat)
    }

    /// Builds a matrix from columns that are known to share the length `height`.
    pub(crate) fn assemble(unit: u64, height: usize, columns: Vec<Vec<i64>>) -> (m: Matrix)
        requires
            unit >= 1,
            rectangular(columns@, height as nat),
        ensures
            m@.wf(),
            m@.unit == unit,
            m@.width == columns@.len(),
            m@.height == height,
            m@.cells == cells_of(columns@, height as nat),
    {
        Matrix { unit, height, columns }
    }

    /// The height that columns must share: the first column's length, or
    /// zero where there is no column.
    pub open spec fn common_height(columns: Seq<Vec<i64>>) -> nat {
        if columns.len() == 0 {
            0
        } else {
            columns[0]@.len()
        }
    }

    /// The matrix with the given columns and denominator, or nothing when
    /// the columns differ in length or the denominator is zero.
    pub fn from_columns(unit: u64, columns: Vec<Vec<i64>>) -> (matrix: Option<Matrix>)
        ensures
            matrix.is_some() == (unit >= 1 && rectangular(columns@, Self::common_height(columns@))),
            matrix.is_some() ==> {
                &&& matrix.unwrap()@.wf()
                &&& matrix.unwrap()@.unit == unit
                &&& matrix.unwrap()@.width == columns@.len()
                &&& matrix.unwrap()@.height == Self::common_height(columns@)
                &&& matrix.unwrap()@.cells == cells_of(columns@, Self::common_height(columns@))
            },
    {
        if unit < 1 {
            return None;
        }
        let height: usize = if columns.len() == 0 {
            0
        } else {
            columns[0].len()
        };
        let mut x: usize = 0;
        while x < columns.len()
            invariant
                x <= columns@.len(),
                height == Self::common_height(columns@),
                forall|a: int| 0 <= a < x ==> (#[trigger] columns@[a])@.len() == height,
            decreases columns@.len() - x,
        {
            if columns[x].len() != height {
                return None;
            }
            x += 1;
        }
        Some(Matrix { unit, height, columns })
    }

    /// The columns `[start, end)` of the matrix, at full height.
    pub fn slice_columns(&self, start: usize, end: usize) -> (strip: Matrix)
        requires
            start <= end <= self@.width,
        ensures
            strip@ == self@.strip(start as int, end as int),
    {
        proof {
            use_type_invariant(self);
        }
        let mut columns: Vec<Vec<i64>> = Vec::new();
        let mut x: usize = start;
        while x < end
            invariant
                start <= x <= end <= self.columns@.len(),
                rectangular(self.columns@, self.height as nat),
                columns@.len() == x - start,
                rectangular(columns@, self.height as nat),
                forall|a: int, b: int|
                    0 <= a < x - start && 0 <= b < self.height ==> (#[trigger] columns@[a]@[b])
                        == self.columns@[start + a]@[b],
            decreases end - x,
        {
            let mut column: Vec<i64> = Vec::new();
            let mut y: usize = 0;
            while y < self.height
                invariant
                    y <= self.height,
                    x < self.columns@.len(),
                    self.columns@[x as int]@.len() == self.height,
                    column@.len() == y,
                    forall|b: int| 0 <= b < y ==> (#[trigger] column@[b]) == self.columns@[x as int]@[b],
                decreases self.height - y,
            {
                column.push(self.columns[x][y]);
                y += 1;
            }
            columns.push(column);
            x += 1;
        }
        let strip = Matrix { unit: self.unit, height: self.height, columns };
        proof {
            let want = self@.strip(start as int, end as int);
            assert forall|a: int| 0 <= a < want.width implies #[trigger] strip@.cells[a]
                =~= want.cells[a] by {}
            assert(strip@.cells =~= want.cells);
            assert(strip@ =~= want);
        }
        strip
    }

    /// Whether no cell exceeds `limit` in magnitude.
    pub fn is_bounded(&self, limit: i64) -> (bounded: bool)
        ensures
            bounded == self@.bounded(limit as int),
    {
        proof {
            use_type_invariant(self);
        }
        let mut x: usize = 0;
        while x < self.columns.len()
            invariant
                x <= self.columns@.len(),
                rectangular(self.columns@, self.height as nat),
                forall|a: int, b: int|
                    0 <= a < x && 0 <= b < self.height ==> -limit <= (
                    #[trigger] self.columns@[a]@[b]) <= limit,
            decreases self.columns@.len() - x,
        {
            let mut y: usize = 0;
            while y < self.height
                invariant
                    y <= self.height,
                    x < self.columns@.len(),
                    self.columns@[x as int]@.len() == self.height,
                    forall|b: int|
                        0 <= b < y ==> -limit <= (#[trigger] self.columns@[x as int]@[b]) <= limit,
                decreases self.height - y,
            {
                let cell: i128 = self.columns[x][y] as i128;
                if cell > limit as i128 || cell < -(limit as i128) {
                    proof {
                        assert(self@.contains(x as int, y as int));
                        assert(self@.cells[x as int][y as int] == cell);
                    }
                    return false;
                }
                y += 1;
            }
            x += 1;
        }
        proof {
            assert forall|a: int, b: int| self@.contains(a, b) implies -limit
                <= #[trigger] self@.cells[a][b] <= limit by {
                assert(self@.cells[a][b] == self.columns@[a]@[b]);
            }
        }
        true
    }

    /// The cells, column by column.
    pub fn columns(&self) -> (columns: &Vec<Vec<i64>>)
        ensures
            columns@.len() == self@.width,
            rectangular(columns@, self@.height),
            cells_of(columns@, self@.height) == self@.cells,
    {
        proof {
            use_type_invariant(self);
        }
        &self.columns
    }

    /// The number of columns.
    pub fn width(&self) -> (w: usize)
        ensures
            w == self@.width,
            self@.wf(),
    {
        proof {
            use_type_invariant(self);
        }
        self.columns.len()
    }

    /// The number of rows.
    pub fn height(&self) -> (h: usize)
        ensures
            h == self@.height,
            self@.wf(),
    {
        proof {
            use_type_invariant(self);
        }
        self.height
    }

    /// The common denominator of the cells.
    pub fn unit(&self) -> (u: u64)
        ensures
            u == self@.unit,
            u >= 1,
            self@.wf(),
    {
        proof {
            use_type_invariant(self);
        }
        self.unit
    }

    /// The numerator stored at `(x, y)`.
    pub fn get(&self, x: usize, y: usize) -> (v: i64)
        requires
            self@.contains(x as int, y as int),
        ensures
            v == self@.at(x as int, y as int),
    {
        proof {
            use_type_invariant(self);
        }
        self.columns[x][y]
    }
}

/// Transposes the matrix: the result is `height` wide and `width` high, and
/// its cell `(i, j)` is the argument's cell `(j, i)`.
pub fn rotate_90_degrees(matrix: &Matrix) -> (rotated: Matrix)
    ensures
        rotated@ == matrix@.transposed(),
        rotated@.width == matrix@.height,
        rotated@.height == matrix@.width,
{
    let width: usize = matrix.width();
    let height: usize = matrix.height();
    let unit: u64 = matrix.unit();
    let mut columns: Vec<Vec<i64>> = Vec::new();
    let mut i: usize = 0;
    while i < height
        invariant
            i <= height,
            width == matrix@.width,
            height == matrix@.height,
            matrix@.wf(),
            columns@.len() == i,
            rectangular(columns@, width as nat),
            forall|a: int, b: int|
                0 <= a < i && 0 <= b < width ==> (#[trigger] columns@[a]@[b]) == matrix@.at(b, a),
        decreases height - i,
    {
        let mut column: Vec<i64> = Vec::new();
        let mut j: usize = 0;
        while j < width
            invariant
                j <= width,
                i < height,
                width == matrix@.width,
                height == matrix@.height,
                matrix@.wf(),
                column@.len() == j,
                forall|b: int| 0 <= b < j ==> (#[trigger] column@[b]) == matrix@.at(b, i as int),
            decreases width - j,
        {
            column.push(matrix.get(j, i));
            j += 1;
        }
        columns.push(column);
        i += 1;
    }
    let rotated = Matrix::assemble(unit, width, columns);
    proof {
        let t = matrix@.transposed();
        assert forall|a: int| 0 <= a < t.width implies #[trigger] rotated@.cells[a] =~= t.cells[a] by {}
        assert(rotated@.cells =~= t.cells);
        assert(rotated@ =~= t);
    }
    rotated
}

} // verus!
