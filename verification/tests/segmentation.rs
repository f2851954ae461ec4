use topster::greyscale::image_to_matrix;
use topster::matrix::Matrix;
use topster::segment::detect_columns;
use topster::segment::detect_rows;
use topster::segment::extract_cells;
use topster::segment::extract_cells_of_image;
use topster::segment::split;
use topster::segment::CELL_LIMIT;

const RED: [u8; 3] = [200, 30, 30];
const BLUE: [u8; 3] = [20, 40, 220];

/// A 70 by 70 collage: four covers of 20 by 20 with gaps of 10 around them.
fn collage(cover: impl Fn(u32, u32, bool) -> [u8; 3]) -> image::DynamicImage {
    let buffer = image::RgbImage::from_fn(70, 70, |x, y| {
        let column = (10..30).contains(&x) as u32 + 2 * (40..60).contains(&x) as u32;
        let row = (10..30).contains(&y) as u32 + 2 * (40..60).contains(&y) as u32;
        if column == 0 || row == 0 {
            image::Rgb([0, 0, 0])
        } else {
            image::Rgb(cover((x - 10) % 30, (y - 10) % 30, column == row))
        }
    });
    image::DynamicImage::ImageRgb8(buffer)
}

fn region(base: &Matrix, columns: (usize, usize), rows: (usize, usize)) -> Vec<Vec<i64>> {
    (columns.0..columns.1)
        .map(|x| (rows.0..rows.1).map(|y| base.get(x, y)).collect())
        .collect()
}

#[test]
fn split_keeps_the_orientation_of_the_base() {
    let base = Matrix::from_columns(
        1000,
        vec![vec![0, 1, 2], vec![10, 11, 12], vec![20, 21, 22], vec![30, 31, 32]],
    )
    .unwrap();
    let cells = split(&base, &vec![(1, 4)], &vec![(1, 2)]);
    assert_eq!(cells.len(), 1);
    assert_eq!((cells[0].width(), cells[0].height()), (3, 1));
    assert_eq!(cells[0].unit(), 1000);
    assert_eq!(cells[0].columns(), &vec![vec![11], vec![21], vec![31]]);
}

#[test]
fn split_yields_one_cell_per_pair_column_by_column() {
    let base = Matrix::from_columns(
        1,
        vec![vec![0, 1, 2], vec![10, 11, 12], vec![20, 21, 22], vec![30, 31, 32]],
    )
    .unwrap();
    let cells = split(&base, &vec![(0, 1), (2, 4)], &vec![(0, 2), (2, 3)]);
    let cells: Vec<Vec<Vec<i64>>> = cells.iter().map(|cell| cell.columns().clone()).collect();
    assert_eq!(
        cells,
        vec![
            vec![vec![0, 1]],
            vec![vec![2]],
            vec![vec![20, 21], vec![30, 31]],
            vec![vec![22], vec![32]],
        ]
    );
}

#[test]
fn split_without_sections_yields_nothing() {
    let base = Matrix::from_columns(1, vec![vec![1, 2], vec![3, 4]]).unwrap();
    assert!(split(&base, &vec![], &vec![(0, 1)]).is_empty());
    assert!(split(&base, &vec![(0, 1)], &vec![]).is_empty());
    assert!(split(&base, &vec![], &vec![]).is_empty());
}

#[test]
fn a_blank_collage_has_no_cells() {
    let base = Matrix::from_columns(1000, vec![vec![0; 12]; 9]).unwrap();
    assert_eq!(detect_columns(&base), vec![]);
    assert_eq!(detect_rows(&base), vec![]);
    assert!(extract_cells(&base).is_empty());
}

#[test]
fn a_single_mark_is_found_with_the_reach_of_the_kernels() {
    let mut columns = vec![vec![0i64; 8]; 9];
    columns[2][3] = 5;
    columns[3][3] = 7;
    columns[2][4] = 1;
    columns[3][4] = 2;
    let base = Matrix::from_columns(1, columns).unwrap();
    assert_eq!(detect_columns(&base), vec![(2, 8)]);
    assert_eq!(detect_rows(&base), vec![(3, 7)]);
    let cells = extract_cells(&base);
    assert_eq!(cells.len(), 1);
    assert_eq!(cells[0].columns(), &region(&base, (2, 8), (3, 7)));
}

#[test]
fn solid_covers_are_cut_along_their_edges() {
    let image = collage(|_, _, diagonal| if diagonal { RED } else { BLUE });
    let base = image_to_matrix(&image);
    let columns = detect_columns(&base);
    let rows = detect_rows(&base);
    assert_eq!(columns, vec![(10, 14), (30, 34), (40, 44), (60, 64)]);
    assert_eq!(rows, vec![(10, 12), (30, 32), (40, 42), (60, 62)]);
    let cells = extract_cells_of_image(&image);
    assert_eq!(cells.len(), 16);
    for (index, cell) in cells.iter().enumerate() {
        assert_eq!((cell.width(), cell.height()), (4, 2));
        assert_eq!(cell.unit(), 1000);
        assert_eq!(cell.columns(), &region(&base, columns[index / 4], rows[index % 4]));
    }
    assert_eq!(cells[0].columns(), &vec![vec![80830; 2]; 4]);
    assert_eq!(cells[2].columns(), &vec![vec![54540; 2]; 4]);
    assert_eq!(cells[8].columns(), &vec![vec![54540; 2]; 4]);
    assert_eq!(cells[10].columns(), &vec![vec![80830; 2]; 4]);
    assert_eq!(cells[1].columns(), &vec![vec![0; 2]; 4]);
    assert_eq!(cells[4].columns(), &vec![vec![0; 2]; 4]);
}

#[test]
fn textured_covers_are_cut_whole() {
    let image = collage(|x, y, _| [(1 + x + 2 * y) as u8; 3]);
    let base = image_to_matrix(&image);
    assert_eq!(detect_columns(&base), vec![(10, 34), (40, 64)]);
    assert_eq!(detect_rows(&base), vec![(10, 32), (40, 62)]);
    let cells = extract_cells(&base);
    assert_eq!(cells.len(), 4);
    let corners = [(10, 10), (10, 40), (40, 10), (40, 40)];
    for (cell, (left, top)) in cells.iter().zip(corners) {
        assert_eq!((cell.width(), cell.height()), (24, 22));
        assert_eq!(cell.columns(), &region(&base, (left, left + 24), (top, top + 22)));
        for x in 0..24 {
            for y in 0..22 {
                let inside = x < 20 && y < 20;
                let expected = if inside { 1000 * (1 + x + 2 * y) as i64 } else { 0 };
                assert_eq!(cell.get(x, y), expected);
            }
        }
    }
}

#[test]
fn extract_cells_agrees_with_detection_followed_by_split() {
    let image = collage(|x, y, diagonal| if diagonal { [(x * y) as u8, 9, 200] } else { BLUE });
    let base = image_to_matrix(&image);
    let direct = extract_cells(&base);
    let stepwise = split(&base, &detect_columns(&base), &detect_rows(&base));
    assert_eq!(direct.len(), stepwise.len());
    for (left, right) in direct.iter().zip(stepwise.iter()) {
        assert_eq!(left.columns(), right.columns());
    }
    let from_image = extract_cells_of_image(&image);
    assert_eq!(from_image.len(), direct.len());
    for (left, right) in from_image.iter().zip(direct.iter()) {
        assert_eq!(left.columns(), right.columns());
    }
}

#[test]
fn cells_at_the_limit_do_not_overflow() {
    let base = Matrix::from_columns(1, vec![vec![CELL_LIMIT; 5]; 5]).unwrap();
    assert_eq!(CELL_LIMIT, i64::MAX / 128);
    assert_eq!(detect_columns(&base), vec![(1, 4)]);
    assert_eq!(detect_rows(&base), vec![(1, 2)]);
    let base = Matrix::from_columns(1, vec![vec![-CELL_LIMIT; 5]; 5]).unwrap();
    assert_eq!(detect_columns(&base), vec![(1, 4)]);
    assert_eq!(detect_rows(&base), vec![(1, 2)]);
}
