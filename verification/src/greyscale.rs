//! Conversion between colour images and intensity matrices.
use vstd::prelude::*;
use crate::grid::Grid;
use crate::matrix::Matrix;
use crate::matrix::rectangular;
use crate::pixels::GrayCanvas;
use crate::pixels::blank_gray;
use crate::pixels::dimensions;
use crate::pixels::gray_extent;
use crate::pixels::gray_pixels;
use crate::pixels::image_extent;
use crate::pixels::image_pixels;
use crate::pixels::pixel_at;
use crate::pixels::put_gray;
use crate::pixels::rgb_of;

verus! {

/// The denominator of the intensities that `get_greyscale_value` returns.
pub const LUMA_UNIT: u64 = 1000;

/// The largest numerator that `get_greyscale_value` returns.
pub const LUMA_MAX: i64 = 255000;

/// The luma of a colour in thousandths: 0.299 red, 0.587 green, 0.114 blue.
pub open spec fn luma(red: int, green: int, blue: int) -> int {
    299 * red + 587 * green + 114 * blue
}

/// The intensity of an RGB triple, in thousandths.
pub fn get_greyscale_value(rgb: [u8; 3]) -> (value: i64)
    ensures
        value == luma(rgb[0] as int, rgb[1] as int, rgb[2] as int),
        0 <= value <= LUMA_MAX,
{
    let red: i64 = rgb[0] as i64;
    let green: i64 = rgb[1] as i64;
    let blue: i64 = rgb[2] as i64;
    red * 299 + green * 587 + blue * 114
}

/// The intensity grid of a decoded image.
pub open spec fn grey_grid(image: image::DynamicImage) -> Grid {
    Grid {
        unit: LUMA_UNIT as nat,
        width: image_extent(image).0 as nat,
        height: image_extent(image).1 as nat,
        cells: Seq::new(
            image_extent(image).0 as nat,
            |x: int|
                Seq::new(
                    image_extent(image).1 as nat,
                    |y: int|
                        luma(
                            image_pixels(image)[(x, y)][0] as int,
                            image_pixels(image)[(x, y)][1] as int,
                            image_pixels(image)[(x, y)][2] as int,
                        ),
                ),
        ),
    }
}

/// Converts a decoded image to the matrix of its intensities, in
/// thousandths: same width, same height, and at every coordinate the luma of
/// the pixel there.
pub fn image_to_matrix(image: &image::DynamicImage) -> (matrix: Matrix)
    ensures
        matrix@ == grey_grid(*image),
        matrix@.wf(),
        matrix@.bounded(LUMA_MAX as int),
{
    let extent: (u32, u32) = dimensions(image);
    let width: u32 = extent.0;
    let height: u32 = extent.1;
    let mut columns: Vec<Vec<i64>> = Vec::new();
    let mut i: u32 = 0;
    while i < width
        invariant
            i <= width,
            (width, height) == image_extent(*image),
            columns@.len() == i,
            rectangular(columns@, height as nat),
            forall|a: int, b: int|
                0 <= a < i && 0 <= b < height ==> (#[trigger] columns@[a]@[b]) == grey_grid(
                    *image,
                ).cells[a][b],
        decreases width - i,
    {
        let mut column: Vec<i64> = Vec::new();
        let mut j: u32 = 0;
        while j < height
            invariant
                j <= height,
                i < width,
                (width, height) == image_extent(*image),
                column@.len() == j,
                forall|b: int|
                    0 <= b < j ==> (#[trigger] column@[b]) == grey_grid(*image).cells[i as int][b],
            decreases height - j,
        {
            column.push(get_greyscale_value(rgb_of(pixel_at(image, i, j))));
            j += 1;
        }
        columns.push(column);
        i += 1;
    }
    let matrix = Matrix::assemble(LUMA_UNIT, height as usize, columns);
    proof {
        let want = grey_grid(*image);
        assert forall|a: int| 0 <= a < want.width implies #[trigger] matrix@.cells[a]
            =~= want.cells[a] by {}
        assert(matrix@.cells =~= want.cells);
        assert(matrix@ =~= want);
        assert forall|x: int, y: int| matrix@.contains(x, y) implies -LUMA_MAX
            <= #[trigger] matrix@.cells[x][y] <= LUMA_MAX by {
            assert(matrix@.cells[x][y] == columns@[x]@[y]);
        }
    }
    matrix
}

/// The 8-bit shade of the intensity `numerator / unit`: its integer part,
/// held to the range of a byte.
pub open spec fn shade(numerator: int, unit: int) -> int {
    if numerator < 0 {
        0
    } else if numerator / unit > 255 {
        255
    } else {
        numerator / unit
    }
}

/// The 8-bit shade of the intensity `numerator / unit`.
pub fn shade_of(numerator: i64, unit: u64) -> (value: u8)
    requires
        unit >= 1,
    ensures
        value == shade(numerator as int, unit as int),
{
    if numerator < 0 {
        0
    } else {
        let whole: u64 = (numerator as u64) / unit;
        if whole > 255 {
            255
        } else {
            whole as u8
        }
    }
}

/// Converts a matrix to a grey image of the same dimensions whose pixel at
/// `(x, y)` is the shade of the cell there.
pub fn matrix_to_grayimage(matrix: &Matrix) -> (canvas: GrayCanvas)
    requires
        matrix@.width <= u32::MAX,
        matrix@.height <= u32::MAX,
        matrix@.width * matrix@.height <= isize::MAX,
    ensures
        gray_extent(canvas) == (matrix@.width as u32, matrix@.height as u32),
        forall|x: int, y: int|
            matrix@.contains(x, y) ==> #[trigger] gray_pixels(canvas)[(x, y)] == shade(
                matrix@.at(x, y),
                matrix@.unit as int,
            ),
{
    let width: usize = matrix.width();
    let height: usize = matrix.height();
    let unit: u64 = matrix.unit();
    let mut canvas = blank_gray(width as u32, height as u32);
    let mut x: usize = 0;
    while x < width
        invariant
            x <= width,
            width == matrix@.width,
            height == matrix@.height,
            unit == matrix@.unit,
            unit >= 1,
            width <= u32::MAX,
            height <= u32::MAX,
            gray_extent(canvas) == (width as u32, height as u32),
            forall|a: int, b: int|
                0 <= a < x && 0 <= b < height ==> #[trigger] gray_pixels(canvas)[(a, b)] == shade(
                    matrix@.at(a, b),
                    unit as int,
                ),
        decreases width - x,
    {
        let mut y: usize = 0;
        while y < height
            invariant
                y <= height,
                x < width,
                width == matrix@.width,
                height == matrix@.height,
                unit == matrix@.unit,
                unit >= 1,
                width <= u32::MAX,
                height <= u32::MAX,
                gray_extent(canvas) == (width as u32, height as u32),
                forall|a: int, b: int|
                    0 <= a < x && 0 <= b < height ==> #[trigger] gray_pixels(canvas)[(a, b)]
                        == shade(matrix@.at(a, b), unit as int),
                forall|b: int|
                    0 <= b < y ==> #[trigger] gray_pixels(canvas)[(x as int, b)] == shade(
                        matrix@.at(x as int, b),
                        unit as int,
                    ),
            decreases height - y,
        {
            put_gray(&mut canvas, x as u32, y as u32, shade_of(matrix.get(x, y), unit));
            y += 1;
        }
        x += 1;
    }
    canvas
}

} // verus!
