//! Undo and redo over grid snapshots.
//!
//! A history holds the grid that is being edited and two stacks of earlier grids. An
//! edit puts the grid it replaces on the undo stack and empties the redo stack; undo and
//! redo move the current grid from one stack to the other. A snapshot is a handle to rows
//! shared with its neighbours in time, so keeping it costs little.
use crate::grid::Grid;
use vstd::prelude::*;

verus! {

/// A history as contracts see it: the current grid and the two stacks, each with its
/// most recent grid last.
#[verifier::ext_equal]
pub struct HistoryState<T> {
    pub current: Grid<T>,
    pub undo: Seq<Grid<T>>,
    pub redo: Seq<Grid<T>>,
}

impl<T> HistoryState<T> {
    /// The history of a session that starts with `grid`.
    pub open spec fn fresh(grid: Grid<T>) -> Self {
        HistoryState { current: grid, undo: Seq::empty(), redo: Seq::empty() }
    }

    /// The history after an edit that led to `grid`: the grid that was current is on top
    /// of the undo stack, and nothing is left to redo.
    pub open spec fn recorded(self, grid: Grid<T>) -> Self {
        HistoryState { current: grid, undo: self.undo.push(self.current), redo: Seq::empty() }
    }

    /// The history after `grid` was handed in as the outcome of an edit: unchanged where
    /// `grid` is the current grid, recorded where it is another.
    pub open spec fn mutated(self, grid: Grid<T>) -> Self {
        if grid == self.current {
            self
        } else {
            self.recorded(grid)
        }
    }

    /// The history after an undo: the top of the undo stack is current and the grid that
    /// was current is on top of the redo stack. Unchanged where there is nothing to undo.
    pub open spec fn undone(self) -> Self {
        if self.undo.len() == 0 {
            self
        } else {
            HistoryState {
                current: self.undo.last(),
                undo: self.undo.drop_last(),
                redo: self.redo.push(self.current),
            }
        }
    }

    /// The history after a redo: the top of the redo stack is current and the grid that
    /// was current is on top of the undo stack. Unchanged where there is nothing to redo.
    pub open spec fn redone(self) -> Self {
        if self.redo.len() == 0 {
            self
        } else {
            HistoryState {
                current: self.redo.last(),
                undo: self.undo.push(self.current),
                redo: self.redo.drop_last(),
            }
        }
    }
}

/// An edit followed by an undo leads back to the grid before the edit, with the undo
/// stack as it was; a redo after that leads to the edited grid again, and to the very
/// history that the edit had left.
pub proof fn lemma_undo_then_redo<T>(history: HistoryState<T>, edited: Grid<T>)
    requires
        edited != history.current,
    ensures
        history.mutated(edited).undone().current == history.current,
        history.mutated(edited).undone().undo == history.undo,
        history.mutated(edited).undone().redone().current == edited,
        history.mutated(edited).undone().redone() == history.mutated(edited),
{
    let after_edit = history.mutated(edited);
    let after_undo = after_edit.undone();
    assert(after_undo.undo =~= history.undo);
    assert(after_undo.redo =~= seq![edited]);
    assert(after_undo.redone() =~= after_edit);
}

/// An edit after an undo leaves nothing to redo: the grid that the undo had set aside is
/// gone, and a redo changes nothing.
pub proof fn lemma_edit_forgets_redo<T>(history: HistoryState<T>, first: Grid<T>, second: Grid<T>)
    requires
        first != history.current,
        second != history.current,
        second != first,
    ensures
        history.mutated(first).undone().mutated(second).redo.len() == 0,
        history.mutated(first).undone().mutated(second).redone() == history.mutated(
            first,
        ).undone().mutated(second),
        history.mutated(first).undone().mutated(second).current == second,
{
}

/// A redo takes back an undo, and an undo takes back a redo, wherever the first of the
/// two had something to work on.
pub proof fn lemma_undo_redo_inverse<T>(history: HistoryState<T>)
    ensures
        history.undo.len() > 0 ==> history.undone().redone() == history,
        history.redo.len() > 0 ==> history.redone().undone() == history,
{
    if history.undo.len() > 0 {
        assert(history.undone().redone() =~= history);
    }
    if history.redo.len() > 0 {
        assert(history.redone().undone() =~= history);
    }
}

/// The grid under edit with its undo and redo stacks.
#[derive(Debug)]
pub struct HistoryStack<T> {
    current: Grid<T>,
    undo: Vec<Grid<T>>,
    redo: Vec<Grid<T>>,
}

impl<T> View for HistoryStack<T> {
    type V = HistoryState<T>;

    closed spec fn view(&self) -> HistoryState<T> {
        HistoryState { current: self.current, undo: self.undo@, redo: self.redo@ }
    }
}

impl<T> HistoryStack<T> {
    /// A history that starts with `grid` and has nothing to undo or redo.
    pub fn new(grid: Grid<T>) -> (history: Self)
        ensures
            history@ == HistoryState::fresh(grid),
    {
        HistoryStack { current: grid, undo: Vec::new(), redo: Vec::new() }
    }

    /// The grid under edit.
    pub fn current(&self) -> (grid: &Grid<T>)
        ensures
            *grid == self@.current,
    {
        &self.current
    }

    /// How many grids an undo can go back.
    pub fn undo_depth(&self) -> (depth: usize)
        ensures
            depth == self@.undo.len(),
    {
        self.undo.len()
    }

    /// How many grids a redo can go forward.
    pub fn redo_depth(&self) -> (depth: usize)
        ensures
            depth == self@.redo.len(),
    {
        self.redo.len()
    }

    /// Makes `grid` the current grid as the outcome of an edit: the grid that was
    /// current goes on top of the undo stack, and the redo stack is emptied.
    pub fn record(&mut self, grid: Grid<T>)
        ensures
            final(self)@ == old(self)@.recorded(grid),
    {
        let mut previous = grid;
        std::mem::swap(&mut self.current, &mut previous);
        self.undo.push(previous);
        self.redo = Vec::new();
    }

    /// Takes `grid` as the outcome of an edit, and tells whether the history changed.
    ///
    /// Where `grid` is found to be the current grid itself, the edit changed nothing and
    /// neither does this call. Otherwise `grid` is recorded. The test is [`Grid::same`];
    /// a grid that differs from the current one in any respect is always recorded.
    pub fn mutate(&mut self, grid: Grid<T>) -> (changed: bool)
        ensures
            changed ==> final(self)@ == old(self)@.recorded(grid),
            !changed ==> final(self)@ == old(self)@ && grid == old(self)@.current,
            grid != old(self)@.current ==> final(self)@ == old(self)@.mutated(grid),
    {
        if self.current.same(&grid) {
            false
        } else {
            self.record(grid);
            true
        }
    }

    /// Goes back one edit, and tells whether there was one to go back.
    pub fn undo(&mut self) -> (changed: bool)
        ensures
            final(self)@ == old(self)@.undone(),
            changed == (old(self)@.undo.len() > 0),
    {
        match self.undo.pop() {
            Some(grid) => {
                let mut previous = grid;
                std::mem::swap(&mut self.current, &mut previous);
                self.redo.push(previous);
                true
            },
            None => false,
        }
    }

    /// Goes forward one edit that an undo took back, and tells whether there was one.
    pub fn redo(&mut self) -> (changed: bool)
        ensures
            final(self)@ == old(self)@.redone(),
            changed == (old(self)@.redo.len() > 0),
    {
        match self.redo.pop() {
            Some(grid) => {
                let mut previous = grid;
                std::mem::swap(&mut self.current, &mut previous);
                self.undo.push(previous);
                true
            },
            None => false,
        }
    }
}

} // verus!
