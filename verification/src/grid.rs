//! A persistent rectangular grid: rows of cells, each row a persistent sequence.
//!
//! A grid is a handle to its rows, and each row a handle to its cells. An operation that
//! changes nothing returns the grid it was given, and one that changes a cell shares
//! every row it did not touch with the grid it started from.
use crate::list::{carried, clones_exactly, eq_answer, is_default, List};
use vstd::prelude::*;
use vstd::std_specs::cmp::PartialEqSpec;

verus! {

/// A grid of `T`: `rows()` rows of `cols()` cells each.
#[derive(Debug)]
pub struct Grid<T> {
    rows: usize,
    cols: usize,
    cells: List<List<T>>,
}

/// Where the cell at row `r` and column `c` stands when a grid of `cols` columns is
/// read row by row.
pub open spec fn row_major(r: int, c: int, cols: int) -> int {
    r * cols + c
}

/// Reading row by row, the cells of earlier rows come before those of row `r`, and a
/// full row ends where the next begins.
proof fn lemma_row_major(r: int, cols: int)
    requires
        0 <= r,
        0 <= cols,
    ensures
        row_major(r + 1, 0, cols) == row_major(r, cols, cols),
        0 <= row_major(r, 0, cols),
        forall|k: int, j: int|
            0 <= k < r && 0 <= j < cols ==> 0 <= #[trigger] row_major(k, j, cols) < row_major(
                r,
                0,
                cols,
            ),
{
    assert((r + 1) * cols == r * cols + cols) by (nonlinear_arith);
    assert(0 <= r * cols) by (nonlinear_arith)
        requires
            0 <= r,
            0 <= cols,
    ;
    assert forall|k: int, j: int| 0 <= k < r && 0 <= j < cols implies 0 <= #[trigger] row_major(
        k,
        j,
        cols,
    ) < row_major(r, 0, cols) by {
        assert(0 <= k * cols && k * cols + cols <= r * cols) by (nonlinear_arith)
            requires
                0 <= k < r,
                0 <= cols,
        ;
    }
}

/// `cells` with `value` at `row` and `col`.
pub open spec fn with_cell<T>(cells: Seq<Seq<T>>, row: int, col: int, value: T) -> Seq<Seq<T>> {
    cells.update(row, cells[row].update(col, value))
}

impl<T> View for Grid<T> {
    type V = Seq<Seq<T>>;

    /// The rows from first to last, each with its cells from first to last.
    closed spec fn view(&self) -> Seq<Seq<T>> {
        self.cells@.map_values(|row: List<T>| row@)
    }
}

impl<T> Grid<T> {
    #[verifier::type_invariant]
    spec fn shaped(self) -> bool {
        &&& self.cells@.len() == self.rows
        &&& forall|r: int| 0 <= r < self.cells@.len() ==> (#[trigger] self.cells@[r])@.len() == self.cols
    }

    /// The number of columns, also of a grid without rows.
    pub closed spec fn width(&self) -> nat {
        self.cols as nat
    }

    /// The structural invariant over the view: every row has `width()` cells.
    pub open spec fn rectangular(&self) -> bool {
        forall|r: int| 0 <= r < self@.len() ==> (#[trigger] self@[r]).len() == self.width()
    }

    /// The grid without rows or columns.
    pub fn new() -> (grid: Self)
        ensures
            grid@ == Seq::<Seq<T>>::empty(),
            grid.width() == 0,
            grid.rectangular(),
    {
        let grid = Grid { rows: 0, cols: 0, cells: List::new() };
        assert(grid@ =~= Seq::<Seq<T>>::empty());
        grid
    }

    /// The number of rows.
    pub fn rows(&self) -> (rows: usize)
        ensures
            rows == self@.len(),
            self.rectangular(),
    {
        proof {
            use_type_invariant(self);
        }
        self.rows
    }

    /// The number of columns.
    pub fn cols(&self) -> (cols: usize)
        ensures
            cols == self.width(),
            self.rectangular(),
    {
        proof {
            use_type_invariant(self);
        }
        self.cols
    }

    /// Whether the two grids are one: the same number of columns, and handles to the
    /// same rows.
    ///
    /// The cells are not compared. Two grids that this function calls the same are equal
    /// in every respect.
    pub fn same(&self, other: &Self) -> (same: bool)
        ensures
            same ==> *self == *other,
    {
        proof {
            use_type_invariant(self);
            use_type_invariant(other);
        }
        self.cols == other.cols && self.cells.same(&other.cells)
    }

    /// The cell at `row` and `col`, or `None` where either is out of range.
    pub fn get(&self, row: usize, col: usize) -> (cell: Option<&T>)
        ensures
            cell == if row < self@.len() && col < self.width() {
                Some(&self@[row as int][col as int])
            } else {
                None
            },
    {
        proof {
            use_type_invariant(self);
        }
        match self.cells.get(row) {
            Some(cells) => cells.get(col),
            None => None,
        }
    }

    /// Every cell with its row and its column, row by row from the first, each row from
    /// its first column.
    pub fn iter(&self) -> (cells: Vec<(usize, usize, &T)>)
        ensures
            cells@.len() == self@.len() * self.width(),
            forall|r: int, c: int|
                0 <= r < self@.len() && 0 <= c < self.width() ==> {
                    let k = #[trigger] row_major(r, c, self.width() as int);
                    0 <= k < cells@.len() && cells@[k].0 == r && cells@[k].1 == c
                },
            forall|k: int|
                0 <= k < cells@.len() ==> {
                    let cell = #[trigger] cells@[k];
                    &&& cell.0 < self@.len()
                    &&& cell.1 < self.width()
                    &&& k == row_major(cell.0 as int, cell.1 as int, self.width() as int)
                    &&& *cell.2 == self@[cell.0 as int][cell.1 as int]
                },
    {
        proof {
            use_type_invariant(self);
        }
        let ghost cols = self.cols as int;
        let rows = self.cells.iter();
        let mut cells: Vec<(usize, usize, &T)> = Vec::new();
        let mut r: usize = 0;
        while r < rows.len()
            invariant
                r <= rows@.len(),
                cols == self.cols,
                rows@.len() == self.cells@.len(),
                forall|k: int|
                    0 <= k < rows@.len() ==> *(#[trigger] rows@[k]) == self.cells@[k]
                        && self.cells@[k]@.len() == cols,
                cells@.len() == row_major(r as int, 0, cols),
                forall|k: int, j: int|
                    0 <= k < r && 0 <= j < cols ==> {
                        let at = #[trigger] row_major(k, j, cols);
                        0 <= at < cells@.len() && cells@[at].0 == k && cells@[at].1 == j
                    },
                forall|k: int|
                    0 <= k < cells@.len() ==> {
                        let cell = #[trigger] cells@[k];
                        &&& cell.0 < r
                        &&& cell.1 < cols
                        &&& k == row_major(cell.0 as int, cell.1 as int, cols)
                        &&& *cell.2 == self.cells@[cell.0 as int]@[cell.1 as int]
                    },
            decreases rows@.len() - r,
        {
            let row = rows[r].iter();
            let mut c: usize = 0;
            proof {
                lemma_row_major(r as int, cols);
            }
            while c < row.len()
                invariant
                    r < rows@.len(),
                    c <= row@.len(),
                    row@.len() == cols,
                    forall|j: int|
                        0 <= j < row@.len() ==> *(#[trigger] row@[j]) == self.cells@[r as int]@[j],
                    cells@.len() == row_major(r as int, c as int, cols),
                    forall|k: int, j: int|
                        0 <= k < r && 0 <= j < cols ==> {
                            let at = #[trigger] row_major(k, j, cols);
                            0 <= at < row_major(r as int, 0, cols) && cells@[at].0 == k
                                && cells@[at].1 == j
                        },
                    forall|j: int|
                        0 <= j < c ==> {
                            let at = #[trigger] row_major(r as int, j, cols);
                            cells@[at].0 == r && cells@[at].1 == j
                        },
                    forall|k: int|
                        0 <= k < cells@.len() ==> {
                            let cell = #[trigger] cells@[k];
                            &&& cell.0 <= r
                            &&& cell.0 == r ==> cell.1 < c
                            &&& cell.1 < cols
                            &&& k == row_major(cell.0 as int, cell.1 as int, cols)
                            &&& *cell.2 == self.cells@[cell.0 as int]@[cell.1 as int]
                        },
                decreases row@.len() - c,
            {
                cells.push((r, c, row[c]));
                c += 1;
            }
            r += 1;
        }
        proof {
            assert(self@.len() * self.width() == row_major(self@.len() as int, 0, cols));
        }
        cells
    }
}

impl<T: Clone + PartialEq> Grid<T> {
    /// Puts `value` at `row` and `col`, and tells whether that replaced anything.
    ///
    /// `None` where `row` or `col` is out of range. Otherwise the cell is asked whether it
    /// equals `value`, by the cell type's own `==`. If it does, nothing is replaced: the
    /// result is this very grid. If it does not, the result is a new grid with `value` in
    /// that cell, a clone of every other cell of the row, and every other row shared
    /// with this grid.
    pub fn assign(&self, row: usize, col: usize, value: T) -> (outcome: Option<(Self, bool)>)
        ensures
            outcome is None <==> row >= self@.len() || col >= self.width(),
            outcome matches Some((grid, replaced)) ==> {
                &&& eq_answer(self@[row as int][col as int], value, !replaced)
                &&& T::obeys_eq_spec() ==> replaced == !self@[row as int][col as int].eq_spec(
                    &value,
                )
                &&& !replaced ==> grid == *self
                &&& grid.rectangular()
                &&& replaced ==> {
                    &&& grid@.len() == self@.len()
                    &&& grid.width() == self.width()
                    &&& grid@[row as int][col as int] == value
                    &&& carried(self@[row as int].update(col as int, value), grid@[row as int])
                    &&& forall|r: int|
                        0 <= r < self@.len() && r != row ==> #[trigger] grid@[r] == self@[r]
                    &&& clones_exactly::<T>() ==> grid@ == with_cell(
                        self@,
                        row as int,
                        col as int,
                        value,
                    )
                }
            },
    {
        proof {
            use_type_invariant(self);
        }
        let cells = match self.cells.get(row) {
            Some(cells) => cells,
            None => {
                return None;
            },
        };
        let (new_row, replaced) = match cells.assign(col, value) {
            Some(outcome) => outcome,
            None => {
                return None;
            },
        };
        if !replaced {
            // The row came back as it was. Putting it back among the rows would compare
            // it with itself and end with this grid; the grid is returned at once.
            return Some((self.clone(), false));
        }
        match self.cells.set(row, new_row) {
            Some(new_cells) => {
                assert(new_cells@ =~= self.cells@.update(row as int, new_row));
                let grid = Grid { rows: self.rows, cols: self.cols, cells: new_cells };
                proof {
                    if clones_exactly::<T>() {
                        assert(grid@ =~= with_cell(self@, row as int, col as int, value));
                    }
                }
                Some((grid, true))
            },
            None => None,
        }
    }

    /// Puts `value` at `row` and `col`.
    ///
    /// `None` where `row` or `col` is out of range. Where the cell already equals `value`,
    /// by the cell type's own `==`, the result is this very grid. Otherwise it is a new
    /// grid with `value` in that cell, a clone of every other cell of the row, and every
    /// other row shared with this grid.
    pub fn set(&self, row: usize, col: usize, value: T) -> (grid: Option<Self>)
        ensures
            grid is None <==> row >= self@.len() || col >= self.width(),
            T::obeys_eq_spec() && row < self@.len() && col < self.width()
                && self@[row as int][col as int].eq_spec(&value) ==> grid == Some(*self),
            grid matches Some(g) ==> g.rectangular(),
            grid matches Some(g) ==> {
                ||| g == *self && eq_answer(self@[row as int][col as int], value, true)
                ||| {
                    &&& eq_answer(self@[row as int][col as int], value, false)
                    &&& g@.len() == self@.len()
                    &&& g.width() == self.width()
                    &&& g@[row as int][col as int] == value
                    &&& carried(self@[row as int].update(col as int, value), g@[row as int])
                    &&& forall|r: int|
                        0 <= r < self@.len() && r != row ==> #[trigger] g@[r] == self@[r]
                    &&& clones_exactly::<T>() ==> g@ == with_cell(
                        self@,
                        row as int,
                        col as int,
                        value,
                    )
                }
            },
    {
        match self.assign(row, col, value) {
            Some((grid, _)) => Some(grid),
            None => None,
        }
    }
}

impl<T: Default> Grid<T> {
    /// The grid of `rows` rows and `cols` columns in which every cell is a default.
    pub fn with_dimensions(rows: usize, cols: usize) -> (grid: Self)
        ensures
            grid@.len() == rows,
            grid.width() == cols,
            grid.rectangular(),
            forall|r: int, c: int|
                0 <= r < rows && 0 <= c < cols ==> is_default(#[trigger] grid@[r][c]),
    {
        let mut lists: Vec<List<T>> = Vec::with_capacity(rows);
        let mut r: usize = 0;
        while r < rows
            invariant
                r <= rows,
                lists@.len() == r,
                forall|k: int| 0 <= k < r ==> (#[trigger] lists@[k])@.len() == cols,
                forall|k: int, c: int|
                    0 <= k < r && 0 <= c < cols ==> is_default(#[trigger] lists@[k]@[c]),
            decreases rows - r,
        {
            lists.push(List::with_length(cols));
            r += 1;
        }
        Grid { rows, cols, cells: List::from(lists) }
    }
}

impl<T: Clone + Default> Grid<T> {
    /// A new grid: a row of defaults, then the rows of this one, shared with it.
    pub fn push_row_front(&self) -> (grid: Self)
        requires
            self@.len() < usize::MAX,
        ensures
            grid@.len() == self@.len() + 1,
            grid.width() == self.width(),
            grid.rectangular(),
            forall|c: int| 0 <= c < self.width() ==> is_default(#[trigger] grid@[0][c]),
            grid@ == seq![grid@[0]] + self@,
    {
        proof {
            use_type_invariant(self);
        }
        let cells = self.cells.push_front(List::with_length(self.cols));
        assert(cells@ =~= seq![cells@[0]] + self.cells@);
        let grid = Grid { rows: self.rows + 1, cols: self.cols, cells };
        assert(grid@ =~= seq![grid@[0]] + self@);
        grid
    }

    /// A new grid: the rows of this one, shared with it, then a row of defaults.
    pub fn push_row_back(&self) -> (grid: Self)
        requires
            self@.len() < usize::MAX,
        ensures
            grid@.len() == self@.len() + 1,
            grid.width() == self.width(),
            grid.rectangular(),
            forall|c: int|
                0 <= c < self.width() ==> is_default(#[trigger] grid@[self@.len() as int][c]),
            grid@ == self@.push(grid@[self@.len() as int]),
    {
        proof {
            use_type_invariant(self);
        }
        let cells = self.cells.push_back(List::with_length(self.cols));
        assert(cells@ =~= self.cells@.push(cells@[self.cells@.len() as int]));
        let grid = Grid { rows: self.rows + 1, cols: self.cols, cells };
        assert(grid@ =~= self@.push(grid@[self@.len() as int]));
        grid
    }

    /// A new grid in which every row starts with a default, followed by a clone of each
    /// cell that the row holds in this grid.
    pub fn push_col_front(&self) -> (grid: Self)
        requires
            self.width() < usize::MAX,
        ensures
            grid@.len() == self@.len(),
            grid.width() == self.width() + 1,
            grid.rectangular(),
            forall|r: int| 0 <= r < self@.len() ==> is_default((#[trigger] grid@[r])[0]),
            forall|r: int, c: int|
                0 <= r < self@.len() && 0 <= c < self.width() ==> cloned::<T>(
                    #[trigger] self@[r][c],
                    grid@[r][c + 1],
                ),
            clones_exactly::<T>() ==> forall|r: int|
                0 <= r < self@.len() ==> #[trigger] grid@[r] == seq![grid@[r][0]] + self@[r],
    {
        proof {
            use_type_invariant(self);
        }
        let old_rows = self.cells.iter();
        let mut lists: Vec<List<T>> = Vec::with_capacity(old_rows.len());
        let mut r: usize = 0;
        while r < old_rows.len()
            invariant
                r <= old_rows@.len(),
                old_rows@.len() == self.cells@.len(),
                self.cols < usize::MAX,
                lists@.len() == r,
                forall|k: int|
                    0 <= k < old_rows@.len() ==> *(#[trigger] old_rows@[k]) == self.cells@[k]
                        && self.cells@[k]@.len() == self.cols,
                forall|k: int| 0 <= k < r ==> (#[trigger] lists@[k])@.len() == self.cols + 1,
                forall|k: int| 0 <= k < r ==> is_default((#[trigger] lists@[k])@[0]),
                forall|k: int, c: int|
                    0 <= k < r && 0 <= c < self.cols ==> cloned::<T>(
                        #[trigger] self.cells@[k]@[c],
                        lists@[k]@[c + 1],
                    ),
                clones_exactly::<T>() ==> forall|k: int|
                    0 <= k < r ==> (#[trigger] lists@[k])@ == seq![lists@[k]@[0]]
                        + self.cells@[k]@,
            decreases old_rows@.len() - r,
        {
            lists.push(old_rows[r].push_front(T::default()));
            r += 1;
        }
        Grid { rows: self.rows, cols: self.cols + 1, cells: List::from(lists) }
    }

    /// A new grid in which every row holds a clone of each cell that it holds in this
    /// grid, followed by a default.
    pub fn push_col_back(&self) -> (grid: Self)
        requires
            self.width() < usize::MAX,
        ensures
            grid@.len() == self@.len(),
            grid.width() == self.width() + 1,
            grid.rectangular(),
            forall|r: int|
                0 <= r < self@.len() ==> is_default((#[trigger] grid@[r])[self.width() as int]),
            forall|r: int, c: int|
                0 <= r < self@.len() && 0 <= c < self.width() ==> cloned::<T>(
                    self@[r][c],
                    #[trigger] grid@[r][c],
                ),
            clones_exactly::<T>() ==> forall|r: int|
                0 <= r < self@.len() ==> #[trigger] grid@[r] == self@[r].push(
                    grid@[r][self.width() as int],
                ),
    {
        proof {
            use_type_invariant(self);
        }
        let old_rows = self.cells.iter();
        let mut lists: Vec<List<T>> = Vec::with_capacity(old_rows.len());
        let mut r: usize = 0;
        while r < old_rows.len()
            invariant
                r <= old_rows@.len(),
                old_rows@.len() == self.cells@.len(),
                self.cols < usize::MAX,
                lists@.len() == r,
                forall|k: int|
                    0 <= k < old_rows@.len() ==> *(#[trigger] old_rows@[k]) == self.cells@[k]
                        && self.cells@[k]@.len() == self.cols,
                forall|k: int| 0 <= k < r ==> (#[trigger] lists@[k])@.len() == self.cols + 1,
                forall|k: int|
                    0 <= k < r ==> is_default((#[trigger] lists@[k])@[self.cols as int]),
                forall|k: int, c: int|
                    0 <= k < r && 0 <= c < self.cols ==> cloned::<T>(
                        self.cells@[k]@[c],
                        #[trigger] lists@[k]@[c],
                    ),
                clones_exactly::<T>() ==> forall|k: int|
                    0 <= k < r ==> (#[trigger] lists@[k])@ == self.cells@[k]@.push(
                        lists@[k]@[self.cols as int],
                    ),
            decreases old_rows@.len() - r,
        {
            lists.push(old_rows[r].push_back(T::default()));
            r += 1;
        }
        Grid { rows: self.rows, cols: self.cols + 1, cells: List::from(lists) }
    }
}

impl<T> Default for Grid<T> {
    /// The grid without rows or columns.
    fn default() -> (grid: Self)
        ensures
            grid@ == Seq::<Seq<T>>::empty(),
            grid.width() == 0,
            grid.rectangular(),
    {
        Grid::new()
    }
}

impl<T> PartialEq for Grid<T> {
    /// As [`Grid::same`]: whether the two grids are one.
    fn eq(&self, other: &Self) -> (same: bool)
        ensures
            same ==> *self == *other,
    {
        self.same(other)
    }
}

impl<T> vstd::std_specs::cmp::PartialEqSpecImpl for Grid<T> {
    /// `==` on grids compares storage, which no value shows: its answer is not a
    /// function of the two grids.
    open spec fn obeys_eq_spec() -> bool {
        false
    }

    open spec fn eq_spec(&self, other: &Self) -> bool {
        *self == *other
    }
}

impl<T> Clone for Grid<T> {
    /// This very grid, through one more handle to its rows.
    fn clone(&self) -> (grid: Self)
        ensures
            grid == *self,
            grid.rectangular(),
    {
        proof {
            use_type_invariant(self);
        }
        Grid { rows: self.rows, cols: self.cols, cells: self.cells.clone() }
    }
}

} // verus!
