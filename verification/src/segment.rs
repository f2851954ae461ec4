//! Cutting the covers out of a collage: the sections along each axis are
//! detected from edge gradients, and every pair of a column section and a row
//! section bounds one cell.
//!
//! The grid is taken to be regular: the row sections are detected once, over
//! the whole width, and reused for every column section.
use vstd::prelude::*;
use vstd::arithmetic::div_mod::lemma_fundamental_div_mod_converse;
use crate::boundary::find_sections;
use crate::boundary::gradient_profile;
use crate::boundary::is_section;
use crate::boundary::lemma_sections;
use crate::boundary::profile_of;
use crate::boundary::sections_of;
use crate::boundary::spans;
use crate::boundary::Section;
use crate::greyscale::image_to_matrix;
use crate::greyscale::grey_grid;
use crate::grid::Grid;
use crate::grid::lemma_region_by_strips;
use crate::grid::lemma_transposed_bounded;
use crate::kernel::Kernel;
use crate::kernel::Weights;
use crate::kernel::convolve;
use crate::kernel::convolved;
use crate::kernel::lemma_convolved_bounded;
use crate::kernel::lemma_fixed_norms;
use crate::kernel::weights_of;
use crate::kernel::GAUSSIAN;
use crate::kernel::GAUSSIAN_DIVISOR;
use crate::kernel::SOBEL_X;
use crate::matrix::Matrix;
use crate::matrix::rotate_90_degrees;

verus! {

/// A magnitude of the cells under which no step of the detection overflows:
/// the largest `i64` over the product of the norms of the blur and of the
/// edge kernel.
pub const CELL_LIMIT: i64 = 0x00ff_ffff_ffff_ffff;

/// The weights of the blur.
pub open spec fn blur() -> Weights {
    weights_of(GAUSSIAN, GAUSSIAN_DIVISOR)
}

/// The weights of the edge kernel.
pub open spec fn edge() -> Weights {
    weights_of(SOBEL_X, 1)
}

/// The column sections of a grid: the sections of the profile of its blurred
/// edge gradient.
pub open spec fn column_sections(base: Grid) -> Seq<(int, int)> {
    sections_of(profile_of(convolved(convolved(base, blur()), edge())))
}

/// The row sections of a grid: the sections of the profile of the edge
/// gradient of its transpose.
pub open spec fn row_sections(base: Grid) -> Seq<(int, int)> {
    sections_of(profile_of(convolved(base.transposed(), edge())))
}

/// Every interval is ordered and lies within `[0, extent]`.
pub open spec fn within(sections: Seq<(int, int)>, extent: int) -> bool {
    forall|k: int|
        0 <= k < sections.len() ==> 0 <= (#[trigger] sections[k]).0 <= sections[k].1 <= extent
}

/// The cells that the sections cut out of a grid: for each column section in
/// turn, and for each row section in turn, the rectangle the two bound, in
/// the grid's own orientation.
pub open spec fn cut(base: Grid, columns: Seq<(int, int)>, rows: Seq<(int, int)>) -> Seq<Grid> {
    Seq::new(
        columns.len() * rows.len(),
        |k: int|
            base.region(
                columns[k / (rows.len() as int)].0,
                columns[k / (rows.len() as int)].1,
                rows[k % (rows.len() as int)].0,
                rows[k % (rows.len() as int)].1,
            ),
    )
}

/// The cells of a collage.
pub open spec fn cells_of(base: Grid) -> Seq<Grid> {
    cut(base, column_sections(base), row_sections(base))
}

/// The grids of a sequence of matrices.
pub open spec fn views(cells: Seq<Matrix>) -> Seq<Grid> {
    Seq::new(cells.len(), |k: int| cells[k]@)
}

/// No sum taken while the columns are detected overflows.
pub open spec fn columns_detectable(base: Grid) -> bool {
    &&& base.unit * GAUSSIAN_DIVISOR <= u64::MAX
    &&& blur().admits(base)
    &&& edge().admits(convolved(base, blur()))
}

/// No sum taken while the rows are detected overflows.
pub open spec fn rows_detectable(base: Grid) -> bool {
    edge().admits(base.transposed())
}

/// Cells within `CELL_LIMIT` can be detected, whatever the dimensions.
pub proof fn lemma_limit_suffices(base: Grid)
    requires
        base.wf(),
        base.bounded(CELL_LIMIT as int),
    ensures
        blur().admits(base),
        edge().admits(convolved(base, blur())),
        edge().admits(base.transposed()),
{
    lemma_fixed_norms();
    lemma_convolved_bounded(base, blur(), CELL_LIMIT as int);
    lemma_transposed_bounded(base, CELL_LIMIT as int);
}

/// The cell cut for the column section `i` and the row section `j` stands at
/// index `i * rows.len() + j`. It is the rectangle that the two sections
/// bound: as wide as the column section, as high as the row section, and
/// holding at `(x, y)` what the grid holds at that offset from the
/// rectangle's corner.
pub proof fn lemma_cut_cell(
    base: Grid,
    columns: Seq<(int, int)>,
    rows: Seq<(int, int)>,
    i: int,
    j: int,
)
    requires
        0 <= i < columns.len(),
        0 <= j < rows.len(),
        columns[i].0 <= columns[i].1,
        rows[j].0 <= rows[j].1,
    ensures
        cut(base, columns, rows).len() == columns.len() * rows.len(),
        0 <= i * rows.len() + j < cut(base, columns, rows).len(),
        cut(base, columns, rows)[i * rows.len() + j] == base.region(
            columns[i].0,
            columns[i].1,
            rows[j].0,
            rows[j].1,
        ),
        cut(base, columns, rows)[i * rows.len() + j].width == columns[i].1 - columns[i].0,
        cut(base, columns, rows)[i * rows.len() + j].height == rows[j].1 - rows[j].0,
        forall|x: int, y: int|
            0 <= x < columns[i].1 - columns[i].0 && 0 <= y < rows[j].1 - rows[j].0 ==> #[trigger] cut(
                base,
                columns,
                rows,
            )[i * rows.len() + j].at(x, y) == base.at(columns[i].0 + x, rows[j].0 + y),
{
    let count = rows.len() as int;
    let k = i * count + j;
    lemma_fundamental_div_mod_converse(k, count, i, j);
    assert(0 <= k < columns.len() * count) by (nonlinear_arith)
        requires
            k == i * count + j,
            0 <= j < count,
            0 <= i < columns.len(),
    ;
}

/// The sections of a profile lie within it.
proof fn lemma_sections_within(profile: Seq<int>)
    ensures
        within(sections_of(profile), profile.len() as int),
{
    lemma_sections(profile);
    assert forall|k: int| 0 <= k < sections_of(profile).len() implies 0 <= (
    #[trigger] sections_of(profile)[k]).0 <= sections_of(profile)[k].1 <= profile.len() by {
        assert(is_section(profile, sections_of(profile)[k].0, sections_of(profile)[k].1));
    }
}

/// The sections detected in a grid lie within it.
pub proof fn lemma_detected_within(base: Grid)
    requires
        base.wf(),
    ensures
        within(column_sections(base), base.width as int),
        within(row_sections(base), base.height as int),
{
    lemma_sections_within(profile_of(convolved(convolved(base, blur()), edge())));
    lemma_sections_within(profile_of(convolved(base.transposed(), edge())));
}

/// Detects the column sections of a collage: blurs it, takes the edge
/// gradient and finds the sections of the gradient's profile.
pub fn detect_columns(base: &Matrix) -> (sections: Vec<Section>)
    requires
        columns_detectable(base@),
    ensures
        spans(sections@) == column_sections(base@),
{
    let blurred = convolve(base, Kernel::gaussian());
    let unit: u64 = blurred.unit();
    assert(unit * 1 == unit);
    let gradient = convolve(&blurred, Kernel::sobel_x());
    let profile = gradient_profile(&gradient);
    find_sections(&profile)
}

/// Detects the row sections of a collage: transposes it, takes the edge
/// gradient and finds the sections of the gradient's profile.
pub fn detect_rows(base: &Matrix) -> (sections: Vec<Section>)
    requires
        rows_detectable(base@),
    ensures
        spans(sections@) == row_sections(base@),
{
    let turned = rotate_90_degrees(base);
    let unit: u64 = turned.unit();
    assert(unit * 1 == unit);
    let gradient = convolve(&turned, Kernel::sobel_x());
    let profile = gradient_profile(&gradient);
    find_sections(&profile)
}

/// Cuts the cells out of a collage along the given sections: one cell for
/// each pair of a column section and a row section, column by column. Each
/// cell keeps the orientation of the collage.
pub fn split(base: &Matrix, columns: &Vec<Section>, rows: &Vec<Section>) -> (cells: Vec<Matrix>)
    requires
        within(spans(columns@), base@.width as int),
        within(spans(rows@), base@.height as int),
    ensures
        views(cells@) == cut(base@, spans(columns@), spans(rows@)),
{
    let _: usize = base.width();
    let ghost want = cut(base@, spans(columns@), spans(rows@));
    let ghost count = rows@.len() as int;
    let mut cells: Vec<Matrix> = Vec::new();
    let mut i: usize = 0;
    while i < columns.len()
        invariant
            i <= columns@.len(),
            base@.wf(),
            within(spans(columns@), base@.width as int),
            within(spans(rows@), base@.height as int),
            want == cut(base@, spans(columns@), spans(rows@)),
            count == rows@.len(),
            cells@.len() == i * count,
            forall|k: int| 0 <= k < cells@.len() ==> (#[trigger] cells@[k])@ == want[k],
        decreases columns@.len() - i,
    {
        let column: Section = columns[i];
        assert(spans(columns@)[i as int] == (column.0 as int, column.1 as int));
        let strip = base.slice_columns(column.0, column.1);
        let turned = rotate_90_degrees(&strip);
        let mut j: usize = 0;
        while j < rows.len()
            invariant
                j <= rows@.len(),
                i < columns@.len(),
                base@.wf(),
                within(spans(rows@), base@.height as int),
                spans(columns@)[i as int] == (column.0 as int, column.1 as int),
                0 <= column.0 <= column.1 <= base@.width,
                want == cut(base@, spans(columns@), spans(rows@)),
                count == rows@.len(),
                turned@ == base@.strip(column.0 as int, column.1 as int).transposed(),
                cells@.len() == i * count + j,
                forall|k: int| 0 <= k < cells@.len() ==> (#[trigger] cells@[k])@ == want[k],
            decreases rows@.len() - j,
        {
            let row: Section = rows[j];
            assert(spans(rows@)[j as int] == (row.0 as int, row.1 as int));
            let piece = turned.slice_columns(row.0, row.1);
            let cell = rotate_90_degrees(&piece);
            proof {
                let k = i * count + j;
                lemma_region_by_strips(
                    base@,
                    column.0 as int,
                    column.1 as int,
                    row.0 as int,
                    row.1 as int,
                );
                lemma_fundamental_div_mod_converse(k, count, i as int, j as int);
                assert(k < columns@.len() * count) by (nonlinear_arith)
                    requires
                        k == i * count + j,
                        0 <= j < count,
                        0 <= i < columns@.len(),
                ;
                assert(want[k] == cell@);
            }
            cells.push(cell);
            j += 1;
        }
        proof {
            assert((i + 1) * count == i * count + count) by (nonlinear_arith);
        }
        i += 1;
    }
    proof {
        assert(views(cells@) =~= want);
    }
    cells
}

/// Extracts the cells of a collage: detects its column and row sections and
/// cuts one cell for each pair of them.
pub fn extract_cells(base: &Matrix) -> (cells: Vec<Matrix>)
    requires
        columns_detectable(base@),
        rows_detectable(base@),
    ensures
        views(cells@) == cells_of(base@),
{
    let _: usize = base.width();
    let columns = detect_columns(base);
    let rows = detect_rows(base);
    proof {
        lemma_detected_within(base@);
    }
    split(base, &columns, &rows)
}

/// Extracts the cells of a decoded image, as intensities in thousandths.
pub fn extract_cells_of_image(image: &image::DynamicImage) -> (cells: Vec<Matrix>)
    ensures
        views(cells@) == cells_of(grey_grid(*image)),
{
    let base = image_to_matrix(image);
    proof {
        lemma_limit_suffices(base@);
    }
    extract_cells(&base)
}

} // verus!
