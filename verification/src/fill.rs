//! Flood fill: the cells that form one region with a starting cell take a new value.
//!
//! Two cells are neighbours when they lie side by side in one row or one above the other
//! in one column. The region of a cell is made of the cells that can be reached from it
//! by steps between neighbours without leaving the cells that hold the same value.
use crate::grid::Grid;
use crate::list::clones_exactly;
use vstd::laws_eq::obeys_concrete_eq;
use vstd::prelude::*;
use vstd::std_specs::cmp::PartialEqSpec;

verus! {

/// The place `p` (row, column) lies inside `cells`.
pub open spec fn in_grid<T>(cells: Seq<Seq<T>>, p: (int, int)) -> bool {
    0 <= p.0 < cells.len() && 0 <= p.1 < cells[p.0].len()
}

/// The two places are neighbours: one step apart along a row or along a column.
pub open spec fn adjacent(a: (int, int), b: (int, int)) -> bool {
    ||| a.0 == b.0 && (a.1 == b.1 + 1 || a.1 + 1 == b.1)
    ||| a.1 == b.1 && (a.0 == b.0 + 1 || a.0 + 1 == b.0)
}

/// `walk` is a walk through `cells` over cells that hold `target`: it visits at least
/// one place, every place lies inside the grid and holds `target`, and each step leads to
/// a neighbour.
pub open spec fn is_walk<T>(cells: Seq<Seq<T>>, target: T, walk: Seq<(int, int)>) -> bool {
    &&& walk.len() > 0
    &&& forall|i: int|
        0 <= i < walk.len() ==> in_grid(cells, #[trigger] walk[i]) && cells[walk[i].0][walk[i].1]
            == target
    &&& forall|i: int| 0 <= i < walk.len() - 1 ==> adjacent(#[trigger] walk[i], walk[i + 1])
}

/// The place `p` belongs to the region of `start`: `start` lies inside the grid, and a
/// walk over cells that hold what `start` holds leads from `start` to `p`.
pub open spec fn in_region<T>(cells: Seq<Seq<T>>, start: (int, int), p: (int, int)) -> bool {
    &&& in_grid(cells, start)
    &&& exists|walk: Seq<(int, int)>|
        #[trigger] is_walk(cells, cells[start.0][start.1], walk) && walk[0] == start
            && walk.last() == p
}

/// `cells` after the region of `start` has taken `value`: every cell of the region holds
/// `value`, every other cell what it held.
pub open spec fn filled_cells<T>(cells: Seq<Seq<T>>, start: (int, int), value: T) -> Seq<Seq<T>> {
    Seq::new(
        cells.len(),
        |r: int|
            Seq::new(
                cells[r].len(),
                |c: int|
                    if in_region(cells, start, (r, c)) {
                        value
                    } else {
                        cells[r][c]
                    },
            ),
    )
}

/// Every place inside the grid belongs to its own region.
pub proof fn lemma_region_start<T>(cells: Seq<Seq<T>>, start: (int, int))
    requires
        in_grid(cells, start),
    ensures
        in_region(cells, start, start),
{
    let walk = seq![start];
    assert(is_walk(cells, cells[start.0][start.1], walk));
    assert(walk[0] == start && walk.last() == start);
}

/// A region holds, with a place, each neighbour of it that holds the same value.
pub proof fn lemma_region_step<T>(
    cells: Seq<Seq<T>>,
    start: (int, int),
    p: (int, int),
    n: (int, int),
)
    requires
        in_region(cells, start, p),
        adjacent(p, n),
        in_grid(cells, n),
        cells[n.0][n.1] == cells[start.0][start.1],
    ensures
        in_region(cells, start, n),
{
    let target = cells[start.0][start.1];
    let walk = choose|walk: Seq<(int, int)>|
        #[trigger] is_walk(cells, target, walk) && walk[0] == start && walk.last() == p;
    let longer = walk.push(n);
    assert forall|i: int| 0 <= i < longer.len() implies in_grid(cells, #[trigger] longer[i])
        && cells[longer[i].0][longer[i].1] == target by {
        if i < walk.len() {
            assert(longer[i] == walk[i]);
        }
    }
    assert forall|i: int| 0 <= i < longer.len() - 1 implies adjacent(
        #[trigger] longer[i],
        longer[i + 1],
    ) by {
        if i < walk.len() - 1 {
            assert(longer[i] == walk[i]);
            assert(longer[i + 1] == walk[i + 1]);
        }
    }
    assert(is_walk(cells, target, longer));
    assert(longer[0] == start && longer.last() == n);
}

/// Every cell of a region holds what the starting cell holds.
pub proof fn lemma_region_holds_target<T>(cells: Seq<Seq<T>>, start: (int, int), p: (int, int))
    requires
        in_region(cells, start, p),
    ensures
        in_grid(cells, p),
        cells[p.0][p.1] == cells[start.0][start.1],
{
    let target = cells[start.0][start.1];
    let walk = choose|walk: Seq<(int, int)>|
        #[trigger] is_walk(cells, target, walk) && walk[0] == start && walk.last() == p;
    assert(in_grid(cells, walk[walk.len() - 1]));
}

/// A fill keeps the shape of the grid, fills the starting cell, and leaves alone every
/// cell that holds something other than the starting cell.
pub proof fn lemma_fill_shape<T>(cells: Seq<Seq<T>>, start: (int, int), value: T)
    ensures
        filled_cells(cells, start, value).len() == cells.len(),
        forall|r: int|
            0 <= r < cells.len() ==> (#[trigger] filled_cells(cells, start, value)[r]).len()
                == cells[r].len(),
        in_grid(cells, start) ==> filled_cells(cells, start, value)[start.0][start.1] == value,
        forall|r: int, c: int|
            in_grid(cells, (r, c)) && (!in_grid(cells, start) || cells[r][c]
                != cells[start.0][start.1]) ==> #[trigger] filled_cells(
                cells,
                start,
                value,
            )[r][c] == cells[r][c],
{
    if in_grid(cells, start) {
        lemma_region_start(cells, start);
    }
    assert forall|r: int, c: int|
        in_grid(cells, (r, c)) && (!in_grid(cells, start) || cells[r][c]
            != cells[start.0][start.1]) implies #[trigger] filled_cells(cells, start, value)[r][c]
        == cells[r][c] by {
        if in_region(cells, start, (r, c)) {
            lemma_region_holds_target(cells, start, (r, c));
        }
    }
}

/// A fill changes nothing where it starts outside the grid, and where the starting cell
/// already holds the value.
pub proof fn lemma_fill_nothing<T>(cells: Seq<Seq<T>>, start: (int, int), value: T)
    requires
        !in_grid(cells, start) || cells[start.0][start.1] == value,
    ensures
        filled_cells(cells, start, value) == cells,
{
    let filled = filled_cells(cells, start, value);
    assert forall|r: int| 0 <= r < cells.len() implies #[trigger] filled[r] == cells[r] by {
        assert forall|c: int| 0 <= c < cells[r].len() implies #[trigger] filled[r][c]
            == cells[r][c] by {
            if in_region(cells, start, (r, c)) {
                lemma_region_holds_target(cells, start, (r, c));
            }
        }
        assert(filled[r] =~= cells[r]);
    }
    assert(filled =~= cells);
}

/// A region stays inside every part of the grid that it starts in and that no step
/// onto a cell with the starting cell's value leads out of.
///
/// A wall is the plainest case: cells that hold another value, with the starting cell
/// on one side of them. The region keeps to that side.
pub proof fn lemma_region_confined<T>(
    cells: Seq<Seq<T>>,
    start: (int, int),
    inside: spec_fn((int, int)) -> bool,
    p: (int, int),
)
    requires
        in_region(cells, start, p),
        inside(start),
        forall|a: (int, int), b: (int, int)|
            #![trigger inside(a), adjacent(a, b)]
            inside(a) && adjacent(a, b) && in_grid(cells, b) && cells[b.0][b.1]
                == cells[start.0][start.1] ==> inside(b),
    ensures
        inside(p),
{
    let target = cells[start.0][start.1];
    let walk = choose|walk: Seq<(int, int)>|
        #[trigger] is_walk(cells, target, walk) && walk[0] == start && walk.last() == p;
    lemma_walk_confined(cells, start, inside, walk, walk.len() - 1);
}

/// Every place of a walk that starts inside such a part of the grid lies inside it.
proof fn lemma_walk_confined<T>(
    cells: Seq<Seq<T>>,
    start: (int, int),
    inside: spec_fn((int, int)) -> bool,
    walk: Seq<(int, int)>,
    i: int,
)
    requires
        is_walk(cells, cells[start.0][start.1], walk),
        walk[0] == start,
        0 <= i < walk.len(),
        inside(start),
        forall|a: (int, int), b: (int, int)|
            #![trigger inside(a), adjacent(a, b)]
            inside(a) && adjacent(a, b) && in_grid(cells, b) && cells[b.0][b.1]
                == cells[start.0][start.1] ==> inside(b),
    ensures
        inside(walk[i]),
    decreases i,
{
    if i > 0 {
        lemma_walk_confined(cells, start, inside, walk, i - 1);
        assert(adjacent(walk[i - 1], walk[(i - 1) + 1]));
        assert(in_grid(cells, walk[i]));
    }
}

/// In a rectangular grid whose cells all hold one value, the region of a cell reaches
/// along its row.
proof fn lemma_uniform_row<T>(cells: Seq<Seq<T>>, start: (int, int), c: int)
    requires
        in_grid(cells, start),
        0 <= c < cells[start.0].len(),
        forall|r: int, k: int| in_grid(cells, (r, k)) ==> #[trigger] cells[r][k] == cells[start.0][start.1],
    ensures
        in_region(cells, start, (start.0, c)),
    decreases
            if c >= start.1 {
                c - start.1
            } else {
                start.1 - c
            },
{
    if c == start.1 {
        lemma_region_start(cells, start);
    } else if c > start.1 {
        lemma_uniform_row(cells, start, c - 1);
        assert(in_grid(cells, (start.0, c)));
        lemma_region_step(cells, start, (start.0, c - 1), (start.0, c));
    } else {
        lemma_uniform_row(cells, start, c + 1);
        assert(in_grid(cells, (start.0, c)));
        lemma_region_step(cells, start, (start.0, c + 1), (start.0, c));
    }
}

/// In a rectangular grid whose cells all hold one value, the region of a cell is the
/// whole grid.
pub proof fn lemma_uniform_region<T>(cells: Seq<Seq<T>>, start: (int, int), p: (int, int))
    requires
        in_grid(cells, start),
        in_grid(cells, p),
        forall|r: int| 0 <= r < cells.len() ==> (#[trigger] cells[r]).len() == cells[0].len(),
        forall|r: int, k: int| in_grid(cells, (r, k)) ==> #[trigger] cells[r][k] == cells[start.0][start.1],
    ensures
        in_region(cells, start, p),
    decreases
            if p.0 >= start.0 {
                p.0 - start.0
            } else {
                start.0 - p.0
            },
{
    assert(cells[start.0].len() == cells[0].len());
    assert(cells[p.0].len() == cells[0].len());
    if p.0 == start.0 {
        lemma_uniform_row(cells, start, p.1);
    } else if p.0 > start.0 {
        assert(cells[p.0 - 1].len() == cells[0].len());
        assert(in_grid(cells, (p.0 - 1, p.1)));
        lemma_uniform_region(cells, start, (p.0 - 1, p.1));
        lemma_region_step(cells, start, (p.0 - 1, p.1), p);
    } else {
        assert(cells[p.0 + 1].len() == cells[0].len());
        assert(in_grid(cells, (p.0 + 1, p.1)));
        lemma_uniform_region(cells, start, (p.0 + 1, p.1));
        lemma_region_step(cells, start, (p.0 + 1, p.1), p);
    }
}

/// A fill of a rectangular grid whose cells all hold one value, started inside the
/// grid, leaves `value` in every cell.
pub proof fn lemma_fill_uniform<T>(cells: Seq<Seq<T>>, start: (int, int), value: T)
    requires
        in_grid(cells, start),
        forall|r: int| 0 <= r < cells.len() ==> (#[trigger] cells[r]).len() == cells[0].len(),
        forall|r: int, k: int| in_grid(cells, (r, k)) ==> #[trigger] cells[r][k] == cells[start.0][start.1],
    ensures
        forall|r: int, c: int|
            in_grid(cells, (r, c)) ==> #[trigger] filled_cells(cells, start, value)[r][c]
                == value,
{
    assert forall|r: int, c: int| in_grid(cells, (r, c)) implies #[trigger] filled_cells(
        cells,
        start,
        value,
    )[r][c] == value by {
        lemma_uniform_region(cells, start, (r, c));
    }
}

/// A fill that starts on one side of a wall leaves the wall and the far side as they
/// were: where every cell of column `wall` holds something other than the starting
/// cell, and the fill starts left of that column, no cell in or right of it changes.
pub proof fn lemma_fill_stops_at_wall<T>(
    cells: Seq<Seq<T>>,
    start: (int, int),
    value: T,
    wall: int,
)
    requires
        in_grid(cells, start),
        start.1 < wall,
        forall|r: int|
            0 <= r < cells.len() && wall < cells[r].len() ==> (#[trigger] cells[r])[wall]
                != cells[start.0][start.1],
    ensures
        forall|r: int, c: int|
            in_grid(cells, (r, c)) && c >= wall ==> #[trigger] filled_cells(
                cells,
                start,
                value,
            )[r][c] == cells[r][c],
{
    let left = |p: (int, int)| p.1 < wall;
    assert forall|r: int, c: int| in_grid(cells, (r, c)) && c >= wall implies #[trigger] filled_cells(
        cells,
        start,
        value,
    )[r][c] == cells[r][c] by {
        if in_region(cells, start, (r, c)) {
            assert forall|a: (int, int), b: (int, int)|
                #![trigger left(a), adjacent(a, b)]
                left(a) && adjacent(a, b) && in_grid(cells, b) && cells[b.0][b.1]
                    == cells[start.0][start.1] implies left(b) by {
                if b.1 == wall {
                    assert(cells[b.0][wall] != cells[start.0][start.1]);
                }
            }
            lemma_region_confined(cells, start, left, (r, c));
        }
    }
}

/// A place by the coordinates that the frontier keeps of it.
spec fn place(q: (usize, usize)) -> (int, int) {
    (q.0 as int, q.1 as int)
}

/// The place `n` waits in the frontier.
spec fn waiting(frontier: Seq<(usize, usize)>, n: (int, int)) -> bool {
    exists|i: int| 0 <= i < frontier.len() && place(#[trigger] frontier[i]) == n
}

/// The fill owes the place `n` nothing more: it lies outside the grid, or it held
/// something other than `target` from the start, or it holds `value` by now, or it waits
/// in the frontier.
spec fn settled<T>(
    cells: Seq<Seq<T>>,
    working: Seq<Seq<T>>,
    frontier: Seq<(usize, usize)>,
    target: T,
    value: T,
    n: (int, int),
) -> bool {
    ||| !in_grid(cells, n)
    ||| cells[n.0][n.1] != target
    ||| working[n.0][n.1] == value
    ||| waiting(frontier, n)
}

/// What holds between the grid that the fill started from (`cells`), the grid that it
/// has built so far (`working`) and the places that it has still to visit (`frontier`).
spec fn fill_progress<T>(
    cells: Seq<Seq<T>>,
    working: Seq<Seq<T>>,
    frontier: Seq<(usize, usize)>,
    start: (int, int),
    value: T,
) -> bool {
    let target = cells[start.0][start.1];
    &&& in_grid(cells, start)
    &&& working.len() == cells.len()
    &&& forall|r: int| 0 <= r < cells.len() ==> (#[trigger] working[r]).len() == cells[r].len()
    &&& forall|r: int, c: int|
        in_grid(cells, (r, c)) ==> #[trigger] working[r][c] == cells[r][c] || (working[r][c]
            == value && in_region(cells, start, (r, c)))
    &&& forall|i: int|
        0 <= i < frontier.len() && in_grid(cells, place(#[trigger] frontier[i]))
            && cells[frontier[i].0 as int][frontier[i].1 as int] == target ==> in_region(
            cells,
            start,
            place(frontier[i]),
        )
    &&& value == target ==> working == cells
    &&& value != target ==> {
        &&& settled(cells, working, frontier, target, value, start)
        &&& forall|r: int, c: int|
            in_grid(cells, (r, c)) && cells[r][c] == target && #[trigger] working[r][c] == value
                ==> {
                &&& settled(cells, working, frontier, target, value, (r - 1, c))
                &&& settled(cells, working, frontier, target, value, (r + 1, c))
                &&& settled(cells, working, frontier, target, value, (r, c - 1))
                &&& settled(cells, working, frontier, target, value, (r, c + 1))
            }
    }
}

/// How many cells of `row` hold something other than `value`.
spec fn others_in_row<T>(row: Seq<T>, value: T) -> nat
    decreases row.len(),
{
    if row.len() == 0 {
        0
    } else {
        others_in_row(row.drop_last(), value) + if row.last() == value {
            0nat
        } else {
            1nat
        }
    }
}

/// How many cells of the grid hold something other than `value`.
spec fn others<T>(cells: Seq<Seq<T>>, value: T) -> nat
    decreases cells.len(),
{
    if cells.len() == 0 {
        0
    } else {
        others(cells.drop_last(), value) + others_in_row(cells.last(), value)
    }
}

/// A row in which one more cell holds `value` has fewer cells that hold something else.
proof fn lemma_row_gains<T>(row: Seq<T>, c: int, value: T)
    requires
        0 <= c < row.len(),
        row[c] != value,
    ensures
        others_in_row(row.update(c, value), value) < others_in_row(row, value),
    decreases row.len(),
{
    let after = row.update(c, value);
    if c == row.len() - 1 {
        assert(after.drop_last() =~= row.drop_last());
    } else {
        assert(after.drop_last() =~= row.drop_last().update(c, value));
        lemma_row_gains(row.drop_last(), c, value);
    }
}

/// A grid in which one row has gained, and no other row has changed, has gained.
proof fn lemma_grid_gains<T>(cells: Seq<Seq<T>>, after: Seq<Seq<T>>, r: int, value: T)
    requires
        0 <= r < cells.len(),
        after.len() == cells.len(),
        forall|k: int| 0 <= k < cells.len() && k != r ==> #[trigger] after[k] == cells[k],
        others_in_row(after[r], value) < others_in_row(cells[r], value),
    ensures
        others(after, value) < others(cells, value),
    decreases cells.len(),
{
    if r == cells.len() - 1 {
        assert(after.drop_last() =~= cells.drop_last());
    } else {
        lemma_grid_gains(cells.drop_last(), after.drop_last(), r, value);
        assert(after.last() == after[cells.len() - 1]);
    }
}

/// At the start the working grid is the grid itself and the frontier holds the start.
proof fn lemma_progress_start<T>(cells: Seq<Seq<T>>, start: (usize, usize), value: T)
    requires
        in_grid(cells, place(start)),
    ensures
        fill_progress(cells, cells, seq![start], place(start), value),
{
    let frontier = seq![start];
    lemma_region_start(cells, place(start));
    assert(place(frontier[0]) == place(start));
    assert(waiting(frontier, place(start)));
}

/// A place that is settled without the frontier's last entry stays settled when that
/// entry leaves.
proof fn lemma_settled_without_last<T>(
    cells: Seq<Seq<T>>,
    working: Seq<Seq<T>>,
    frontier: Seq<(usize, usize)>,
    target: T,
    value: T,
    n: (int, int),
)
    requires
        frontier.len() > 0,
        settled(cells, working, frontier, target, value, n),
        settled(cells, working, Seq::empty(), target, value, place(frontier.last())),
    ensures
        settled(cells, working, frontier.drop_last(), target, value, n),
{
    if waiting(frontier, n) {
        let i = choose|i: int| 0 <= i < frontier.len() && place(#[trigger] frontier[i]) == n;
        if i < frontier.len() - 1 {
            assert(place(frontier.drop_last()[i]) == n);
        } else {
            assert(!waiting(Seq::<(usize, usize)>::empty(), n));
        }
    }
}

/// The frontier's last entry may leave without a change to the working grid where that
/// place lies outside the grid, or held something other than the target from the start,
/// or holds the value by now.
proof fn lemma_progress_drop<T>(
    cells: Seq<Seq<T>>,
    working: Seq<Seq<T>>,
    frontier: Seq<(usize, usize)>,
    start: (int, int),
    value: T,
)
    requires
        fill_progress(cells, working, frontier, start, value),
        frontier.len() > 0,
        settled(
            cells,
            working,
            Seq::empty(),
            cells[start.0][start.1],
            value,
            place(frontier.last()),
        ),
    ensures
        fill_progress(cells, working, frontier.drop_last(), start, value),
{
    let target = cells[start.0][start.1];
    let rest = frontier.drop_last();
    assert forall|i: int|
        0 <= i < rest.len() && in_grid(cells, place(#[trigger] rest[i]))
            && cells[rest[i].0 as int][rest[i].1 as int] == target implies in_region(
        cells,
        start,
        place(rest[i]),
    ) by {
        assert(rest[i] == frontier[i]);
    }
    if value != target {
        lemma_settled_without_last(cells, working, frontier, target, value, start);
        assert forall|r: int, c: int|
            in_grid(cells, (r, c)) && cells[r][c] == target && #[trigger] working[r][c]
                == value implies {
            &&& settled(cells, working, rest, target, value, (r - 1, c))
            &&& settled(cells, working, rest, target, value, (r + 1, c))
            &&& settled(cells, working, rest, target, value, (r, c - 1))
            &&& settled(cells, working, rest, target, value, (r, c + 1))
        } by {
            lemma_settled_without_last(cells, working, frontier, target, value, (r - 1, c));
            lemma_settled_without_last(cells, working, frontier, target, value, (r + 1, c));
            lemma_settled_without_last(cells, working, frontier, target, value, (r, c - 1));
            lemma_settled_without_last(cells, working, frontier, target, value, (r, c + 1));
        }
    }
}

/// What a fill step does to the working grid and to the frontier: the place `q` takes
/// `value`, the frontier loses its last entry, which was `q`, and gains neighbours of
/// `q`, among them every neighbour inside the grid.
spec fn fill_step<T>(
    cells: Seq<Seq<T>>,
    working: Seq<Seq<T>>,
    after: Seq<Seq<T>>,
    frontier: Seq<(usize, usize)>,
    grown: Seq<(usize, usize)>,
    value: T,
) -> bool {
    let q = place(frontier.last());
    &&& frontier.len() > 0
    &&& after.len() == working.len()
    &&& after[q.0] == working[q.0].update(q.1, value)
    &&& forall|k: int| 0 <= k < working.len() && k != q.0 ==> #[trigger] after[k] == working[k]
    &&& grown.len() >= frontier.len() - 1
    &&& forall|i: int| 0 <= i < frontier.len() - 1 ==> #[trigger] grown[i] == frontier[i]
    &&& forall|i: int|
        frontier.len() - 1 <= i < grown.len() ==> adjacent(q, place(#[trigger] grown[i]))
    &&& forall|n: (int, int)| adjacent(q, n) && in_grid(cells, n) ==> #[trigger] waiting(grown, n)
}

/// A place that was settled before a fill step is settled after it.
proof fn lemma_settled_after_step<T>(
    cells: Seq<Seq<T>>,
    working: Seq<Seq<T>>,
    after: Seq<Seq<T>>,
    frontier: Seq<(usize, usize)>,
    grown: Seq<(usize, usize)>,
    start: (int, int),
    value: T,
    n: (int, int),
)
    requires
        fill_progress(cells, working, frontier, start, value),
        fill_step(cells, working, after, frontier, grown, value),
        in_grid(cells, place(frontier.last())),
        settled(cells, working, frontier, cells[start.0][start.1], value, n),
    ensures
        settled(cells, after, grown, cells[start.0][start.1], value, n),
{
    let q = place(frontier.last());
    if in_grid(cells, n) && cells[n.0][n.1] == cells[start.0][start.1] {
        if n == q {
            assert(after[q.0][q.1] == value);
        } else if working[n.0][n.1] == value {
            if n.0 == q.0 {
                assert(after[n.0][n.1] == working[n.0].update(q.1, value)[n.1]);
            } else {
                assert(after[n.0] == working[n.0]);
            }
        } else {
            let i = choose|i: int| 0 <= i < frontier.len() && place(#[trigger] frontier[i]) == n;
            assert(i < frontier.len() - 1);
            assert(place(grown[i]) == n);
        }
    }
}

/// A fill step at a place that the fill still owes a visit keeps what holds between the
/// grids and the frontier.
proof fn lemma_progress_fill<T>(
    cells: Seq<Seq<T>>,
    working: Seq<Seq<T>>,
    after: Seq<Seq<T>>,
    frontier: Seq<(usize, usize)>,
    grown: Seq<(usize, usize)>,
    start: (int, int),
    value: T,
)
    requires
        fill_progress(cells, working, frontier, start, value),
        fill_step(cells, working, after, frontier, grown, value),
        in_grid(cells, place(frontier.last())),
        cells[frontier.last().0 as int][frontier.last().1 as int] == cells[start.0][start.1],
        working[frontier.last().0 as int][frontier.last().1 as int] != value,
    ensures
        fill_progress(cells, after, grown, start, value),
        others(after, value) < others(working, value),
{
    let target = cells[start.0][start.1];
    let q = place(frontier.last());
    assert(working[q.0][q.1] == cells[q.0][q.1]);
    assert(value != target);
    assert(in_region(cells, start, q)) by {
        assert(place(frontier[frontier.len() - 1]) == q);
    }
    assert forall|r: int| 0 <= r < cells.len() implies (#[trigger] after[r]).len()
        == cells[r].len() by {
        if r != q.0 {
            assert(after[r] == working[r]);
        }
    }
    assert forall|r: int, c: int| in_grid(cells, (r, c)) implies #[trigger] after[r][c]
        == cells[r][c] || (after[r][c] == value && in_region(cells, start, (r, c))) by {
        if r != q.0 {
            assert(after[r] == working[r]);
            assert(working[r][c] == cells[r][c] || (working[r][c] == value && in_region(
                cells,
                start,
                (r, c),
            )));
        } else if c != q.1 {
            assert(after[r][c] == working[r][c]);
            assert(working[r][c] == cells[r][c] || (working[r][c] == value && in_region(
                cells,
                start,
                (r, c),
            )));
        }
    }
    assert forall|i: int|
        0 <= i < grown.len() && in_grid(cells, place(#[trigger] grown[i]))
            && cells[grown[i].0 as int][grown[i].1 as int] == target implies in_region(
        cells,
        start,
        place(grown[i]),
    ) by {
        if i < frontier.len() - 1 {
            assert(grown[i] == frontier[i]);
        } else {
            lemma_region_step(cells, start, q, place(grown[i]));
        }
    }
    lemma_settled_after_step(cells, working, after, frontier, grown, start, value, start);
    assert forall|r: int, c: int|
        in_grid(cells, (r, c)) && cells[r][c] == target && #[trigger] after[r][c]
            == value implies {
        &&& settled(cells, after, grown, target, value, (r - 1, c))
        &&& settled(cells, after, grown, target, value, (r + 1, c))
        &&& settled(cells, after, grown, target, value, (r, c - 1))
        &&& settled(cells, after, grown, target, value, (r, c + 1))
    } by {
        if (r, c) == q {
            assert(adjacent(q, (r - 1, c)));
            assert(adjacent(q, (r + 1, c)));
            assert(adjacent(q, (r, c - 1)));
            assert(adjacent(q, (r, c + 1)));
        } else {
            if r != q.0 {
                assert(after[r] == working[r]);
            }
            assert(working[r][c] == value);
            lemma_settled_after_step(
                cells,
                working,
                after,
                frontier,
                grown,
                start,
                value,
                (r - 1, c),
            );
            lemma_settled_after_step(
                cells,
                working,
                after,
                frontier,
                grown,
                start,
                value,
                (r + 1, c),
            );
            lemma_settled_after_step(
                cells,
                working,
                after,
                frontier,
                grown,
                start,
                value,
                (r, c - 1),
            );
            lemma_settled_after_step(
                cells,
                working,
                after,
                frontier,
                grown,
                start,
                value,
                (r, c + 1),
            );
        }
    }
    lemma_row_gains(working[q.0], q.1, value);
    lemma_grid_gains(working, after, q.0, value);
}

/// With an empty frontier, every place on a walk from the start holds `value`.
proof fn lemma_walk_filled<T>(
    cells: Seq<Seq<T>>,
    working: Seq<Seq<T>>,
    start: (int, int),
    value: T,
    walk: Seq<(int, int)>,
    i: int,
)
    requires
        fill_progress(cells, working, Seq::empty(), start, value),
        value != cells[start.0][start.1],
        is_walk(cells, cells[start.0][start.1], walk),
        walk[0] == start,
        0 <= i < walk.len(),
    ensures
        working[walk[i].0][walk[i].1] == value,
    decreases i,
{
    let target = cells[start.0][start.1];
    let none = Seq::<(usize, usize)>::empty();
    if i == 0 {
        assert(settled(cells, working, none, target, value, start));
        assert(!waiting(none, start));
    } else {
        lemma_walk_filled(cells, working, start, value, walk, i - 1);
        let p = walk[i - 1];
        let n = walk[i];
        assert(adjacent(p, walk[(i - 1) + 1]));
        assert(in_grid(cells, p) && cells[p.0][p.1] == target);
        assert(working[p.0][p.1] == value);
        assert(settled(cells, working, none, target, value, (p.0 - 1, p.1)));
        assert(settled(cells, working, none, target, value, (p.0 + 1, p.1)));
        assert(settled(cells, working, none, target, value, (p.0, p.1 - 1)));
        assert(settled(cells, working, none, target, value, (p.0, p.1 + 1)));
        assert(n == (p.0 - 1, p.1) || n == (p.0 + 1, p.1) || n == (p.0, p.1 - 1) || n == (
            p.0,
            p.1 + 1,
        ));
        assert(settled(cells, working, none, target, value, n));
        assert(!waiting(none, n));
    }
}

/// Once the frontier is empty, the working grid is the grid with the region filled.
proof fn lemma_progress_done<T>(
    cells: Seq<Seq<T>>,
    working: Seq<Seq<T>>,
    start: (int, int),
    value: T,
)
    requires
        fill_progress(cells, working, Seq::empty(), start, value),
    ensures
        working == filled_cells(cells, start, value),
{
    let target = cells[start.0][start.1];
    let filled = filled_cells(cells, start, value);
    assert forall|r: int| 0 <= r < cells.len() implies #[trigger] working[r] == filled[r] by {
        assert forall|c: int| 0 <= c < cells[r].len() implies #[trigger] working[r][c]
            == filled[r][c] by {
            assert(in_grid(cells, (r, c)));
            if in_region(cells, start, (r, c)) {
                let walk = choose|walk: Seq<(int, int)>|
                    #[trigger] is_walk(cells, target, walk) && walk[0] == start && walk.last()
                        == (r, c);
                if value != target {
                    lemma_walk_filled(cells, working, start, value, walk, walk.len() - 1);
                } else {
                    assert(in_grid(cells, walk[walk.len() - 1]));
                }
            }
        }
        assert(working[r] =~= filled[r]);
    }
    assert(working =~= filled);
}

/// Adds to the frontier the places beside `row` and `col`: left, right, above, below,
/// each where its coordinates can be written.
fn push_neighbours(frontier: &mut Vec<(usize, usize)>, row: usize, col: usize)
    ensures
        final(frontier)@.len() >= old(frontier)@.len(),
        forall|i: int|
            0 <= i < old(frontier)@.len() ==> #[trigger] final(frontier)@[i] == old(frontier)@[i],
        forall|i: int|
            old(frontier)@.len() <= i < final(frontier)@.len() ==> adjacent(
                (row as int, col as int),
                place(#[trigger] final(frontier)@[i]),
            ),
        forall|n: (int, int)|
            adjacent((row as int, col as int), n) && 0 <= n.0 <= usize::MAX && 0 <= n.1
                <= usize::MAX ==> #[trigger] waiting(final(frontier)@, n),
{
    let ghost here = (row as int, col as int);
    let left = col.checked_sub(1);
    let up = row.checked_sub(1);
    let right = col.checked_add(1);
    let down = row.checked_add(1);
    let ghost mut at_left: int = 0;
    let ghost mut at_right: int = 0;
    let ghost mut at_up: int = 0;
    if let Some(left) = left {
        proof {
            at_left = frontier@.len() as int;
        }
        frontier.push((row, left));
    }
    if let Some(right) = right {
        proof {
            at_right = frontier@.len() as int;
        }
        frontier.push((row, right));
    }
    if let Some(up) = up {
        proof {
            at_up = frontier@.len() as int;
        }
        frontier.push((up, col));
    }
    if let Some(down) = down {
        frontier.push((down, col));
    }
    proof {
        assert forall|n: (int, int)|
            adjacent(here, n) && 0 <= n.0 <= usize::MAX && 0 <= n.1
                <= usize::MAX implies #[trigger] waiting(frontier@, n) by {
            if n == (here.0, here.1 - 1) {
                assert(place(frontier@[at_left]) == n);
            } else if n == (here.0, here.1 + 1) {
                assert(place(frontier@[at_right]) == n);
            } else if n == (here.0 - 1, here.1) {
                assert(place(frontier@[at_up]) == n);
            } else {
                assert(place(frontier@[frontier@.len() - 1]) == n);
            }
        }
    }
}

/// Fills the region of the cell at `row` and `col` with `value`.
///
/// The region is made of the cells that hold what the starting cell holds and that a
/// walk between neighbours over such cells reaches from it. Every cell of the region
/// takes `value`; every other cell keeps what it held. Where `row` or `col` is out of
/// range, and where the starting cell already holds `value`, nothing is filled and the
/// result is the grid itself.
///
/// The fill visits places from a stack, depth first. It tests a place against the grid
/// it started from, puts `value` there in the grid it is building, and goes on to the
/// four neighbours only where that replaced something. It comes to an end because the
/// cell type's `==` is the equality of its values and its `clone` is exact: a cell that
/// has taken `value` is not replaced again.
pub fn region_fill<T: Clone + PartialEq>(grid: &Grid<T>, row: usize, col: usize, value: T) -> (filled:
    Grid<T>)
    requires
        obeys_concrete_eq::<T>(),
        clones_exactly::<T>(),
    ensures
        filled@ == filled_cells(grid@, (row as int, col as int), value),
        filled.width() == grid.width(),
        filled.rectangular(),
        row >= grid@.len() || col >= grid.width() ==> filled == *grid,
        row < grid@.len() && col < grid.width() && grid@[row as int][col as int] == value
            ==> filled == *grid,
        filled@ == grid@ ==> filled == *grid,
{
    let rows = grid.rows();
    let cols = grid.cols();
    let ghost start = (row as int, col as int);
    let ghost cells = grid@;
    let target = match grid.get(row, col) {
        Some(target) => target,
        None => {
            proof {
                lemma_fill_nothing(cells, start, value);
            }
            return grid.clone();
        },
    };
    let mut working = grid.clone();
    let mut frontier: Vec<(usize, usize)> = Vec::new();
    frontier.push((row, col));
    proof {
        reveal(obeys_concrete_eq);
        assert(frontier@ =~= seq![(row, col)]);
        lemma_progress_start(cells, (row, col), value);
    }
    while frontier.len() > 0
        invariant
            cells == grid@,
            start == (row as int, col as int),
            in_grid(cells, start),
            *target == cells[start.0][start.1],
            rows == cells.len(),
            cols == grid.width(),
            grid.rectangular(),
            working.width() == grid.width(),
            working.rectangular(),
            fill_progress(cells, working@, frontier@, start, value),
            value == *target ==> working == *grid,
            T::obeys_eq_spec(),
            forall|a: T, b: T| #[trigger] a.eq_spec(&b) <==> (a == b),
            clones_exactly::<T>(),
        decreases others(working@, value), frontier@.len(),
    {
        let ghost before = frontier@;
        let (r, c) = frontier.pop().unwrap();
        assert(frontier@ == before.drop_last());
        let holds_target = match grid.get(r, c) {
            Some(cell) => *target == *cell,
            None => false,
        };
        if holds_target {
            let new_value = value.clone();
            assert(cloned::<T>(value, new_value));
            match working.assign(r, c, new_value) {
                Some((next, replaced)) => {
                    if replaced {
                        push_neighbours(&mut frontier, r, c);
                        proof {
                            assert(fill_step(cells, working@, next@, before, frontier@, value));
                            lemma_progress_fill(
                                cells,
                                working@,
                                next@,
                                before,
                                frontier@,
                                start,
                                value,
                            );
                        }
                    } else {
                        proof {
                            lemma_progress_drop(cells, working@, before, start, value);
                        }
                    }
                    working = next;
                },
                None => {
                    proof {
                        lemma_progress_drop(cells, working@, before, start, value);
                    }
                },
            }
        } else {
            proof {
                lemma_progress_drop(cells, working@, before, start, value);
            }
        }
    }
    proof {
        assert(frontier@ =~= Seq::empty());
        lemma_progress_done(cells, working@, start, value);
    }
    working
}

} // verus!
