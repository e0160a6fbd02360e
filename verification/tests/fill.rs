use tile_editor::fill::region_fill;
use tile_editor::grid::Grid;

type Cell = Option<usize>;

fn plan(rows: &[&str]) -> Grid<Cell> {
    let width = if rows.is_empty() { 0 } else { rows[0].len() };
    let mut grid: Grid<Cell> = Grid::with_dimensions(rows.len(), width);
    for (r, row) in rows.iter().enumerate() {
        for (c, mark) in row.chars().enumerate() {
            let cell = mark.to_digit(10).map(|room| room as usize);
            grid = grid.set(r, c, cell).unwrap();
        }
    }
    grid
}

fn drawn(grid: &Grid<Cell>) -> Vec<String> {
    let mut rows = vec![String::new(); grid.rows()];
    for (row, _, cell) in grid.iter() {
        match cell {
            Some(room) => rows[row].push_str(&format!("{}", room)),
            None => rows[row].push('.'),
        }
    }
    rows
}

#[test]
fn fill_covers_an_empty_grid() {
    let grid: Grid<Cell> = Grid::with_dimensions(8, 8);
    let filled = region_fill(&grid, 3, 3, Some(7));
    assert_eq!(filled.rows(), 8);
    assert_eq!(filled.cols(), 8);
    let cells = filled.iter();
    assert_eq!(cells.len(), 64);
    for (_, _, cell) in cells {
        assert_eq!(*cell, Some(7));
    }
    assert!(filled != grid);
    for (_, _, cell) in grid.iter() {
        assert_eq!(*cell, None);
    }
}

#[test]
fn fill_stops_at_a_wall() {
    let mut grid: Grid<Cell> = Grid::with_dimensions(6, 8);
    for row in 0..6 {
        grid = grid.set(row, 4, Some(1)).unwrap();
    }
    let filled = region_fill(&grid, 0, 0, Some(2));
    for (_, col, cell) in filled.iter() {
        if col < 4 {
            assert_eq!(*cell, Some(2));
        } else if col == 4 {
            assert_eq!(*cell, Some(1));
        } else {
            assert_eq!(*cell, None);
        }
    }
    assert!(filled != grid);
}

#[test]
fn fill_with_the_value_already_there_returns_the_grid_itself() {
    let grid = plan(&["11..", "1...", "..22"]);
    let filled = region_fill(&grid, 0, 0, Some(1));
    assert!(filled == grid);
    let empty = region_fill(&grid, 1, 2, None);
    assert!(empty == grid);
    let blank: Grid<Cell> = Grid::with_dimensions(3, 3);
    assert!(region_fill(&blank, 1, 1, None) == blank);
}

#[test]
fn fill_out_of_range_returns_the_grid_itself() {
    let grid = plan(&["11..", "1...", "..22"]);
    assert!(region_fill(&grid, 3, 0, Some(5)) == grid);
    assert!(region_fill(&grid, 0, 4, Some(5)) == grid);
    assert!(region_fill(&grid, usize::MAX, usize::MAX, Some(5)) == grid);
    let none: Grid<Cell> = Grid::new();
    assert!(region_fill(&none, 0, 0, Some(5)) == none);
}

#[test]
fn fill_replaces_only_the_connected_region() {
    let grid = plan(&["11..", "1..1", "..11"]);
    let filled = region_fill(&grid, 0, 0, Some(3));
    assert_eq!(drawn(&filled), vec!["33..", "3..1", "..11"]);
    assert_eq!(drawn(&grid), vec!["11..", "1..1", "..11"]);
}

#[test]
fn fill_does_not_cross_diagonals() {
    let grid = plan(&["1.", ".1"]);
    let filled = region_fill(&grid, 0, 0, Some(2));
    assert_eq!(drawn(&filled), vec!["2.", ".1"]);
    let empty_filled = region_fill(&grid, 0, 1, Some(3));
    assert_eq!(drawn(&empty_filled), vec!["13", ".1"]);
}

#[test]
fn fill_follows_a_winding_path() {
    let grid = plan(&[
        ".1...",
        ".1.1.",
        ".1.1.",
        "...1.",
    ]);
    let filled = region_fill(&grid, 0, 0, Some(2));
    assert_eq!(drawn(&filled), vec!["21222", "21212", "21212", "22212"]);
}

#[test]
fn fill_from_a_corner_and_an_edge() {
    let grid = plan(&["...", ".1.", "..."]);
    let filled = region_fill(&grid, 2, 2, Some(4));
    assert_eq!(drawn(&filled), vec!["444", "414", "444"]);
    let centre = region_fill(&grid, 1, 1, Some(5));
    assert_eq!(drawn(&centre), vec!["...", ".5.", "..."]);
}

#[test]
fn fill_can_empty_a_region() {
    let grid = plan(&["11.", "1.2"]);
    let filled = region_fill(&grid, 1, 0, None);
    assert_eq!(drawn(&filled), vec!["...", "..2"]);
}

#[test]
fn fill_shares_untouched_rows_with_the_grid() {
    let grid = plan(&["11", "..", "22"]);
    let filled = region_fill(&grid, 1, 0, Some(3));
    assert_eq!(drawn(&filled), vec!["11", "33", "22"]);
    assert!(filled != grid);
    let again = region_fill(&filled, 1, 1, Some(3));
    assert!(again == filled);
}

#[test]
fn fill_a_single_cell_grid() {
    let grid: Grid<Cell> = Grid::with_dimensions(1, 1);
    let filled = region_fill(&grid, 0, 0, Some(0));
    assert_eq!(filled.get(0, 0), Some(&Some(0)));
    assert!(filled != grid);
}

#[test]
fn fill_works_on_plain_numbers() {
    let mut grid: Grid<u8> = Grid::with_dimensions(2, 3);
    grid = grid.set(0, 1, 9).unwrap();
    let filled = region_fill(&grid, 1, 1, 5);
    let cells: Vec<u8> = filled.iter().into_iter().map(|(_, _, cell)| *cell).collect();
    assert_eq!(cells, vec![5, 9, 5, 5, 5, 5]);
}
