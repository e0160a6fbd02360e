//! An editing session: the plan under edit with its history, the tool in hand, and what
//! each gesture of the pointer does with them.
//!
//! A cell of the plan is empty or holds the number of a room. The session decides; what
//! surrounds it turns events into rows and columns and draws what the session holds.
use crate::fill::{filled_cells, lemma_fill_nothing, lemma_fill_shape, region_fill};
use crate::grid::{row_major, with_cell, Grid};
use crate::history::{HistoryStack, HistoryState};
use crate::list::{clones_exactly, is_default};
use crate::room::Rooms;
use crate::tile::Material;
use vstd::laws_eq::obeys_concrete_eq;
use vstd::prelude::*;

verus! {

/// What the pointer does where it is pressed.
#[derive(Copy, Clone, Debug, PartialEq, Eq, Structural)]
pub enum ToolMode {
    /// Puts the selected room into the cell.
    Brush,
    /// Empties the cell.
    Erasor,
    /// Fills the region of the cell with the selected room.
    Fill,
}

/// A cell of the plan: empty, or the number of a room.
pub type Cell = Option<usize>;

/// The plan: a grid of cells.
pub type Cells = Grid<Cell>;

/// Some cell of `cells` holds a room.
pub open spec fn has_room(cells: Seq<Seq<Cell>>) -> bool {
    exists|r: int, c: int|
        0 <= r < cells.len() && 0 <= c < cells[r].len() && (#[trigger] cells[r][c]) is Some
}

/// The plan that a press of the pointer at `row` and `col` leads to, with `tool` in hand
/// and the room `room` selected: the plan itself where the press falls outside it.
pub open spec fn pressed_plan(
    cells: Seq<Seq<Cell>>,
    tool: ToolMode,
    room: usize,
    row: int,
    col: int,
) -> Seq<Seq<Cell>> {
    if 0 <= row < cells.len() && 0 <= col < cells[row].len() {
        match tool {
            ToolMode::Brush => with_cell(cells, row, col, Some(room)),
            ToolMode::Erasor => with_cell(cells, row, col, None),
            ToolMode::Fill => filled_cells(cells, (row, col), Some(room)),
        }
    } else {
        cells
    }
}

/// What a tool puts into a cell while the room `room` is selected: the erasor nothing,
/// the brush and the fill the room.
pub open spec fn tool_cell(tool: ToolMode, room: usize) -> Cell {
    match tool {
        ToolMode::Erasor => None,
        _ => Some(room),
    }
}

/// A session as contracts see it.
pub struct EditorState {
    pub history: HistoryState<Cell>,
    pub cursor_position: Option<(usize, usize)>,
    pub current_tool: ToolMode,
    pub rooms: Rooms,
    pub selected_room: usize,
}

/// What to draw where the pointer is.
#[derive(Debug)]
pub enum Cursor<'a> {
    /// The pointer is not over the plan.
    Hidden,
    /// An outline around the cell at this row and column.
    Outline(usize, usize),
    /// The cell at this row and column, drawn with this material.
    Material(usize, usize, &'a Material),
}

/// An editing session.
#[derive(Debug)]
pub struct Editor {
    history: HistoryStack<Cell>,
    cursor_position: Option<(usize, usize)>,
    current_tool: ToolMode,
    rooms: Rooms,
    selected_room: usize,
}

impl View for Editor {
    type V = EditorState;

    closed spec fn view(&self) -> EditorState {
        EditorState {
            history: self.history@,
            cursor_position: self.cursor_position,
            current_tool: self.current_tool,
            rooms: self.rooms,
            selected_room: self.selected_room,
        }
    }
}

/// Cells are compared by what they hold, and a clone of a cell holds what the cell holds.
pub proof fn lemma_cells_are_plain()
    ensures
        obeys_concrete_eq::<Cell>(),
        clones_exactly::<Cell>(),
{
    broadcast use vstd::laws_eq::group_laws_eq;

}

impl Editor {
    /// A session over an empty plan of `rows` by `cols` cells, with the brush in hand
    /// and the first room selected.
    pub fn new(rows: usize, cols: usize, rooms: Rooms) -> (editor: Self)
        ensures
            editor@.history.undo.len() == 0,
            editor@.history.redo.len() == 0,
            editor@.history.current@.len() == rows,
            editor@.history.current.width() == cols,
            editor@.history.current.rectangular(),
            !has_room(editor@.history.current@),
            editor@.cursor_position is None,
            editor@.current_tool == ToolMode::Brush,
            editor@.rooms == rooms,
            editor@.selected_room == 0,
    {
        let cells: Cells = Grid::with_dimensions(rows, cols);
        assert forall|r: int, c: int| 0 <= r < rows && 0 <= c < cols implies (
        #[trigger] cells@[r][c]) is None by {
            assert(is_default(cells@[r][c]));
        }
        Editor {
            history: HistoryStack::new(cells),
            cursor_position: None,
            current_tool: ToolMode::Brush,
            rooms,
            selected_room: 0,
        }
    }

    /// The plan under edit.
    pub fn cells(&self) -> (cells: &Cells)
        ensures
            *cells == self@.history.current,
    {
        self.history.current()
    }

    /// The cell that the pointer is over, by row and column.
    pub fn cursor_position(&self) -> (position: Option<(usize, usize)>)
        ensures
            position == self@.cursor_position,
    {
        self.cursor_position
    }

    /// The tool in hand.
    pub fn current_tool(&self) -> (tool: ToolMode)
        ensures
            tool == self@.current_tool,
    {
        self.current_tool
    }

    /// The rooms of the plan.
    pub fn rooms(&self) -> (rooms: &Rooms)
        ensures
            *rooms == self@.rooms,
    {
        &self.rooms
    }

    /// The number of the room that the brush and the fill put into cells.
    pub fn selected_room(&self) -> (room: usize)
        ensures
            room == self@.selected_room,
    {
        self.selected_room
    }

    /// Takes `tool` in hand.
    pub fn select_tool(&mut self, tool: ToolMode)
        ensures
            final(self)@ == (EditorState { current_tool: tool, ..old(self)@ }),
    {
        self.current_tool = tool;
    }

    /// Selects the room with the number `room`.
    pub fn select_room(&mut self, room: usize)
        ensures
            final(self)@ == (EditorState { selected_room: room, ..old(self)@ }),
    {
        self.selected_room = room;
    }

    /// Replaces the rooms of the plan.
    pub fn set_rooms(&mut self, rooms: Rooms)
        ensures
            final(self)@ == (EditorState { rooms, ..old(self)@ }),
    {
        self.rooms = rooms;
    }

    /// The pointer has left the plan.
    pub fn pointer_left(&mut self)
        ensures
            final(self)@ == (EditorState { cursor_position: None, ..old(self)@ }),
    {
        self.cursor_position = None;
    }

    /// `Some("selected")` for the tool in hand, `None` for any other.
    pub fn button_class(&self, tool: ToolMode) -> (class: Option<&'static str>)
        ensures
            class is Some <==> tool == self@.current_tool,
            class matches Some(name) ==> name@ == "selected"@,
    {
        if self.current_tool == tool {
            Some("selected")
        } else {
            None
        }
    }

    /// The material that a cell is drawn with: that of the room whose number the cell
    /// holds. `None` for an empty cell and for a number that no room has.
    pub fn material_of(&self, cell: Cell) -> (material: Option<&Material>)
        ensures
            material == match cell {
                Some(room) if room < self@.rooms@.len() => Some(&self@.rooms@[room as int].tile_material),
                _ => None,
            },
    {
        match cell {
            Some(index) => match self.rooms.get(index) {
                Some(room) => Some(&room.tile_material),
                None => None,
            },
            None => None,
        }
    }

    /// What to draw where the pointer is: nothing while it is away from the plan; the
    /// selected room's material unless the erasor is in hand; an outline with the erasor,
    /// and where no room has the selected number.
    pub fn cursor(&self) -> (cursor: Cursor<'_>)
        ensures
            cursor == match self@.cursor_position {
                None => Cursor::Hidden,
                Some((row, col)) => if self@.current_tool != ToolMode::Erasor
                    && self@.selected_room < self@.rooms@.len() {
                    Cursor::Material(
                        row,
                        col,
                        &self@.rooms@[self@.selected_room as int].tile_material,
                    )
                } else {
                    Cursor::Outline(row, col)
                },
            },
    {
        match self.cursor_position {
            Some((row, col)) => {
                if self.current_tool != ToolMode::Erasor {
                    match self.rooms.get(self.selected_room) {
                        Some(room) => {
                            return Cursor::Material(row, col, &room.tile_material);
                        },
                        None => {},
                    }
                }
                Cursor::Outline(row, col)
            },
            None => Cursor::Hidden,
        }
    }

    /// Puts `cell` at `row` and `col` of the plan, and tells whether that changed it.
    ///
    /// Out of range, and where the cell already holds `cell`, nothing changes: the plan
    /// and the history stay as they are. Otherwise the changed plan is recorded as an
    /// edit.
    pub fn set_cell(&mut self, row: usize, col: usize, cell: Cell) -> (changed: bool)
        ensures
            changed == (row < old(self)@.history.current@.len() && col < old(
                self,
            )@.history.current.width() && old(self)@.history.current@[row as int][col as int]
                != cell),
            !changed ==> final(self)@ == old(self)@,
            changed ==> {
                &&& final(self)@ == (EditorState {
                    history: old(self)@.history.recorded(final(self)@.history.current),
                    ..old(self)@
                })
                &&& final(self)@.history.current@ == with_cell(
                    old(self)@.history.current@,
                    row as int,
                    col as int,
                    cell,
                )
                &&& final(self)@.history.current.width() == old(self)@.history.current.width()
            },
    {
        proof {
            lemma_cells_are_plain();
        }
        match self.history.current().assign(row, col, cell) {
            Some((cells, replaced)) => {
                if replaced {
                    self.history.mutate(cells)
                } else {
                    false
                }
            },
            None => false,
        }
    }

    /// Fills the region of the cell at `row` and `col` with `cell`, and tells whether
    /// that changed the plan.
    ///
    /// Out of range, and where the cell already holds `cell`, nothing changes: the plan
    /// and the history stay as they are. Otherwise the filled plan is recorded as an edit.
    pub fn fill(&mut self, row: usize, col: usize, cell: Cell) -> (changed: bool)
        ensures
            changed == (row < old(self)@.history.current@.len() && col < old(
                self,
            )@.history.current.width() && old(self)@.history.current@[row as int][col as int]
                != cell),
            !changed ==> final(self)@ == old(self)@,
            changed ==> {
                &&& final(self)@ == (EditorState {
                    history: old(self)@.history.recorded(final(self)@.history.current),
                    ..old(self)@
                })
                &&& final(self)@.history.current@ == filled_cells(
                    old(self)@.history.current@,
                    (row as int, col as int),
                    cell,
                )
                &&& final(self)@.history.current.width() == old(self)@.history.current.width()
            },
    {
        proof {
            lemma_cells_are_plain();
        }
        let differs = match self.history.current().get(row, col) {
            Some(held) => *held != cell,
            None => false,
        };
        if differs {
            let filled = region_fill(self.history.current(), row, col, cell);
            proof {
                lemma_fill_shape(
                    old(self)@.history.current@,
                    (row as int, col as int),
                    cell,
                );
            }
            self.history.mutate(filled)
        } else {
            false
        }
    }

    /// The pointer is over the cell at `row` and `col`, with its button pressed or not.
    /// Tells whether that changed the plan.
    ///
    /// The cursor moves to the cell. Where the button is pressed, the tool in hand is
    /// put to the cell: the brush puts the selected room there, the erasor empties it,
    /// the fill fills its region with the selected room. An edit that changes the plan is
    /// recorded; one that changes nothing leaves plan and history as they are.
    pub fn pointer(&mut self, row: usize, col: usize, pressed: bool) -> (changed: bool)
        ensures
            final(self)@.cursor_position == Some((row, col)),
            final(self)@.current_tool == old(self)@.current_tool,
            final(self)@.rooms == old(self)@.rooms,
            final(self)@.selected_room == old(self)@.selected_room,
            changed == (pressed && row < old(self)@.history.current@.len() && col < old(
                self,
            )@.history.current.width() && old(self)@.history.current@[row as int][col as int]
                != tool_cell(old(self)@.current_tool, old(self)@.selected_room)),
            !changed ==> final(self)@.history == old(self)@.history,
            changed ==> {
                &&& final(self)@.history == old(self)@.history.recorded(
                    final(self)@.history.current,
                )
                &&& final(self)@.history.current@ == pressed_plan(
                    old(self)@.history.current@,
                    old(self)@.current_tool,
                    old(self)@.selected_room,
                    row as int,
                    col as int,
                )
                &&& final(self)@.history.current.width() == old(self)@.history.current.width()
            },
    {
        self.cursor_position = Some((row, col));
        if !pressed {
            return false;
        }
        let rows = self.history.current().rows();
        let ghost cells = self@.history.current@;
        proof {
            if row < rows && col < self@.history.current.width() {
                let here = (row as int, col as int);
                let held = cells[row as int][col as int];
                assert(with_cell(cells, here.0, here.1, held) =~= cells) by {
                    assert(cells[here.0].update(here.1, held) =~= cells[here.0]);
                }
                assert forall|cell: Cell| cell != held implies #[trigger] with_cell(
                    cells,
                    here.0,
                    here.1,
                    cell,
                ) != cells by {
                    assert(with_cell(cells, here.0, here.1, cell)[here.0][here.1] == cell);
                }
                lemma_fill_shape(cells, here, Some(self.selected_room));
                if held == Some(self.selected_room) {
                    lemma_fill_nothing(cells, here, Some(self.selected_room));
                }
            }
        }
        match self.current_tool {
            ToolMode::Brush => self.set_cell(row, col, Some(self.selected_room)),
            ToolMode::Erasor => self.set_cell(row, col, None),
            ToolMode::Fill => self.fill(row, col, Some(self.selected_room)),
        }
    }

    /// Empties the plan, and tells whether that changed it.
    ///
    /// Where some cell holds a room, an empty plan of the same size is recorded as an
    /// edit. An empty plan stays as it is, and so does the history.
    pub fn clear(&mut self) -> (changed: bool)
        ensures
            changed == has_room(old(self)@.history.current@),
            !changed ==> final(self)@ == old(self)@,
            changed ==> {
                &&& final(self)@ == (EditorState {
                    history: old(self)@.history.recorded(final(self)@.history.current),
                    ..old(self)@
                })
                &&& final(self)@.history.current@.len() == old(self)@.history.current@.len()
                &&& final(self)@.history.current.width() == old(self)@.history.current.width()
                &&& final(self)@.history.current.rectangular()
                &&& !has_room(final(self)@.history.current@)
            },
    {
        let rows = self.history.current().rows();
        let cols = self.history.current().cols();
        let ghost before = self@.history.current@;
        let cells = self.history.current().iter();
        let mut found = false;
        let mut i: usize = 0;
        while i < cells.len() && !found
            invariant
                i <= cells@.len(),
                found ==> has_room(before),
                !found ==> forall|k: int| 0 <= k < i ==> (*(#[trigger] cells@[k]).2) is None,
                forall|k: int|
                    0 <= k < cells@.len() ==> {
                        let cell = #[trigger] cells@[k];
                        &&& cell.0 < before.len()
                        &&& cell.1 < cols
                        &&& *cell.2 == before[cell.0 as int][cell.1 as int]
                    },
                forall|r: int| 0 <= r < before.len() ==> (#[trigger] before[r]).len() == cols,
            decreases
                    cells@.len() - i + if found {
                        0int
                    } else {
                        1int
                    },
        {
            if cells[i].2.is_some() {
                found = true;
                proof {
                    let cell = cells@[i as int];
                    assert(before[cell.0 as int][cell.1 as int] is Some);
                }
            } else {
                i += 1;
            }
        }
        if found {
            let empty: Cells = Grid::with_dimensions(rows, cols);
            proof {
                assert forall|r: int, c: int| 0 <= r < rows && 0 <= c < cols implies (
                #[trigger] empty@[r][c]) is None by {
                    assert(is_default(empty@[r][c]));
                }
                let (r, c) = choose|r: int, c: int|
                    0 <= r < before.len() && 0 <= c < before[r].len() && (
                    #[trigger] before[r][c]) is Some;
                assert(empty@[r][c] is None);
            }
            self.history.mutate(empty)
        } else {
            proof {
                assert forall|r: int, c: int|
                    0 <= r < before.len() && 0 <= c < before[r].len() implies !((
                #[trigger] before[r][c]) is Some) by {
                    let k = row_major(r, c, cols as int);
                    assert(cells@[k].0 == r && cells@[k].1 == c);
                }
            }
            false
        }
    }

    /// Goes back one edit, and tells whether there was one to go back.
    pub fn undo(&mut self) -> (changed: bool)
        ensures
            final(self)@ == (EditorState { history: old(self)@.history.undone(), ..old(self)@ }),
            changed == (old(self)@.history.undo.len() > 0),
    {
        self.history.undo()
    }

    /// Goes forward one edit that an undo took back, and tells whether there was one.
    pub fn redo(&mut self) -> (changed: bool)
        ensures
            final(self)@ == (EditorState { history: old(self)@.history.redone(), ..old(self)@ }),
            changed == (old(self)@.history.redo.len() > 0),
    {
        self.history.redo()
    }
}

} // verus!
