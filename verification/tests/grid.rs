use tile_editor::grid::Grid;

fn rows_of(grid: &Grid<u32>) -> Vec<Vec<u32>> {
    let mut rows = vec![vec![0u32; grid.cols()]; grid.rows()];
    for (row, col, cell) in grid.iter() {
        rows[row][col] = *cell;
    }
    rows
}

fn grid_of(rows: &[&[u32]]) -> Grid<u32> {
    let width = if rows.is_empty() { 0 } else { rows[0].len() };
    let mut grid: Grid<u32> = Grid::with_dimensions(rows.len(), width);
    for (r, row) in rows.iter().enumerate() {
        for (c, cell) in row.iter().enumerate() {
            grid = grid.set(r, c, *cell).unwrap();
        }
    }
    grid
}

#[test]
fn new_grid_has_no_cells() {
    let grid: Grid<u32> = Grid::new();
    assert_eq!(grid.rows(), 0);
    assert_eq!(grid.cols(), 0);
    assert!(grid.iter().is_empty());
    assert_eq!(grid.get(0, 0), None);
    let default: Grid<u32> = Grid::default();
    assert_eq!(default.rows(), 0);
    assert_eq!(default.cols(), 0);
}

#[test]
fn with_dimensions_fills_with_defaults() {
    let grid: Grid<u32> = Grid::with_dimensions(2, 3);
    assert_eq!(grid.rows(), 2);
    assert_eq!(grid.cols(), 3);
    assert_eq!(rows_of(&grid), vec![vec![0, 0, 0], vec![0, 0, 0]]);
    let cells: Grid<Option<usize>> = Grid::with_dimensions(1, 1);
    assert_eq!(cells.get(0, 0), Some(&None));
}

#[test]
fn with_dimensions_keeps_columns_without_rows() {
    let grid: Grid<u32> = Grid::with_dimensions(0, 5);
    assert_eq!(grid.rows(), 0);
    assert_eq!(grid.cols(), 5);
    let grown = grid.push_row_back();
    assert_eq!(grown.rows(), 1);
    assert_eq!(grown.cols(), 5);
    assert_eq!(rows_of(&grown), vec![vec![0, 0, 0, 0, 0]]);
}

#[test]
fn get_reads_a_cell() {
    let grid = grid_of(&[&[1, 2, 3], &[4, 5, 6]]);
    assert_eq!(grid.get(0, 0), Some(&1));
    assert_eq!(grid.get(1, 2), Some(&6));
    assert_eq!(grid.get(0, 2), Some(&3));
}

#[test]
fn set_replaces_one_cell() {
    let grid = grid_of(&[&[1, 2, 3], &[4, 5, 6]]);
    let changed = grid.set(1, 0, 9).unwrap();
    assert_eq!(rows_of(&changed), vec![vec![1, 2, 3], vec![9, 5, 6]]);
    assert_eq!(rows_of(&grid), vec![vec![1, 2, 3], vec![4, 5, 6]]);
    assert!(changed != grid);
    assert!(!changed.same(&grid));
    assert_eq!(changed.rows(), 2);
    assert_eq!(changed.cols(), 3);
}

#[test]
fn set_of_equal_value_returns_the_grid_itself() {
    let grid = grid_of(&[&[1, 2, 3], &[4, 5, 6]]);
    for row in 0..2 {
        for col in 0..3 {
            let value = *grid.get(row, col).unwrap();
            let kept = grid.set(row, col, value).unwrap();
            assert!(kept == grid);
            assert!(kept.same(&grid));
        }
    }
}

#[test]
fn set_out_of_range_fails_and_get_yields_nothing() {
    let grid = grid_of(&[&[1, 2, 3], &[4, 5, 6]]);
    assert!(grid.set(2, 0, 9).is_none());
    assert!(grid.set(0, 3, 9).is_none());
    assert!(grid.set(2, 3, 9).is_none());
    assert!(grid.set(usize::MAX, 0, 9).is_none());
    assert!(grid.set(0, usize::MAX, 9).is_none());
    assert_eq!(grid.get(2, 0), None);
    assert_eq!(grid.get(0, 3), None);
    assert_eq!(grid.get(usize::MAX, usize::MAX), None);
}

#[test]
fn grid_assign_tells_whether_it_replaced() {
    let grid = grid_of(&[&[1, 2], &[3, 4]]);
    let (kept, replaced) = grid.assign(1, 1, 4).unwrap();
    assert!(!replaced);
    assert!(kept == grid);
    let (changed, replaced) = grid.assign(1, 1, 5).unwrap();
    assert!(replaced);
    assert_eq!(rows_of(&changed), vec![vec![1, 2], vec![3, 5]]);
    assert!(grid.assign(2, 0, 1).is_none());
    assert!(grid.assign(0, 2, 1).is_none());
}

#[test]
fn iter_walks_row_by_row() {
    let grid = grid_of(&[&[1, 2, 3], &[4, 5, 6]]);
    let cells: Vec<(usize, usize, u32)> =
        grid.iter().into_iter().map(|(r, c, cell)| (r, c, *cell)).collect();
    assert_eq!(
        cells,
        vec![(0, 0, 1), (0, 1, 2), (0, 2, 3), (1, 0, 4), (1, 1, 5), (1, 2, 6)]
    );
}

#[test]
fn iter_can_be_taken_again() {
    let grid = grid_of(&[&[1, 2], &[3, 4]]);
    let first: Vec<u32> = grid.iter().into_iter().map(|(_, _, cell)| *cell).collect();
    let second: Vec<u32> = grid.iter().into_iter().map(|(_, _, cell)| *cell).collect();
    assert_eq!(first, second);
    assert_eq!(first, vec![1, 2, 3, 4]);
}

#[test]
fn push_row_front_adds_a_default_row_first() {
    let grid = grid_of(&[&[1, 2], &[3, 4]]);
    let grown = grid.push_row_front();
    assert_eq!(grown.rows(), 3);
    assert_eq!(grown.cols(), 2);
    assert_eq!(rows_of(&grown), vec![vec![0, 0], vec![1, 2], vec![3, 4]]);
    assert_eq!(rows_of(&grid), vec![vec![1, 2], vec![3, 4]]);
}

#[test]
fn push_row_back_adds_a_default_row_last() {
    let grid = grid_of(&[&[1, 2], &[3, 4]]);
    let grown = grid.push_row_back();
    assert_eq!(grown.rows(), 3);
    assert_eq!(grown.cols(), 2);
    assert_eq!(rows_of(&grown), vec![vec![1, 2], vec![3, 4], vec![0, 0]]);
}

#[test]
fn push_col_front_adds_a_default_to_every_row() {
    let grid = grid_of(&[&[1, 2], &[3, 4]]);
    let grown = grid.push_col_front();
    assert_eq!(grown.rows(), 2);
    assert_eq!(grown.cols(), 3);
    assert_eq!(rows_of(&grown), vec![vec![0, 1, 2], vec![0, 3, 4]]);
}

#[test]
fn push_col_back_adds_a_default_to_every_row() {
    let grid = grid_of(&[&[1, 2], &[3, 4]]);
    let grown = grid.push_col_back();
    assert_eq!(grown.rows(), 2);
    assert_eq!(grown.cols(), 3);
    assert_eq!(rows_of(&grown), vec![vec![1, 2, 0], vec![3, 4, 0]]);
}

#[test]
fn push_col_on_grid_without_rows() {
    let grid: Grid<u32> = Grid::new();
    let wider = grid.push_col_back().push_col_front();
    assert_eq!(wider.rows(), 0);
    assert_eq!(wider.cols(), 2);
    let grown = wider.push_row_front();
    assert_eq!(rows_of(&grown), vec![vec![0, 0]]);
}

#[test]
fn every_operation_keeps_the_grid_rectangular() {
    let mut grid: Grid<u32> = Grid::with_dimensions(2, 2);
    grid = grid.push_row_front();
    grid = grid.push_col_back();
    grid = grid.set(0, 2, 7).unwrap();
    grid = grid.push_row_back();
    grid = grid.push_col_front();
    grid = grid.set(3, 0, 8).unwrap();
    assert_eq!(grid.rows(), 4);
    assert_eq!(grid.cols(), 4);
    let cells = grid.iter();
    assert_eq!(cells.len(), 16);
    for row in 0..4 {
        for col in 0..4 {
            assert!(grid.get(row, col).is_some());
            assert_eq!(cells[row * 4 + col].0, row);
            assert_eq!(cells[row * 4 + col].1, col);
        }
        assert!(grid.get(row, 4).is_none());
    }
    assert!(grid.get(4, 0).is_none());
    assert_eq!(grid.get(0, 3), Some(&7));
    assert_eq!(grid.get(3, 0), Some(&8));
}

#[test]
fn grid_clone_is_the_same_grid() {
    let grid = grid_of(&[&[1, 2], &[3, 4]]);
    let clone = grid.clone();
    assert!(clone == grid);
    assert!(clone.same(&grid));
}

#[test]
fn grids_built_apart_are_not_the_same() {
    let a = grid_of(&[&[1, 2], &[3, 4]]);
    let b = grid_of(&[&[1, 2], &[3, 4]]);
    assert!(a != b);
    assert_eq!(rows_of(&a), rows_of(&b));
}

#[test]
fn set_back_to_old_value_gives_a_new_grid() {
    let grid = grid_of(&[&[1, 2], &[3, 4]]);
    let changed = grid.set(0, 0, 9).unwrap();
    let back = changed.set(0, 0, 1).unwrap();
    assert_eq!(rows_of(&back), rows_of(&grid));
    assert!(back != grid);
}
