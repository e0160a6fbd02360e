use tile_editor::grid::Grid;
use tile_editor::history::HistoryStack;

fn blank() -> Grid<u32> {
    Grid::with_dimensions(2, 2)
}

#[test]
fn fresh_history_has_nothing_to_undo_or_redo() {
    let g0 = blank();
    let mut history = HistoryStack::new(g0.clone());
    assert!(*history.current() == g0);
    assert_eq!(history.undo_depth(), 0);
    assert_eq!(history.redo_depth(), 0);
    assert!(!history.undo());
    assert!(*history.current() == g0);
    assert!(!history.redo());
    assert!(*history.current() == g0);
    assert_eq!(history.undo_depth(), 0);
    assert_eq!(history.redo_depth(), 0);
}

#[test]
fn mutate_records_the_grid_before_the_edit() {
    let g0 = blank();
    let g1 = g0.set(0, 0, 1).unwrap();
    let mut history = HistoryStack::new(g0.clone());
    assert!(history.mutate(g1.clone()));
    assert!(*history.current() == g1);
    assert_eq!(history.undo_depth(), 1);
    assert_eq!(history.redo_depth(), 0);
}

#[test]
fn mutate_with_the_current_grid_changes_nothing() {
    let g0 = blank();
    let g1 = g0.set(0, 0, 1).unwrap();
    let mut history = HistoryStack::new(g0.clone());
    history.mutate(g1.clone());
    assert!(!history.mutate(g1.clone()));
    assert!(!history.mutate(g1.set(0, 0, 1).unwrap()));
    assert!(*history.current() == g1);
    assert_eq!(history.undo_depth(), 1);
    assert_eq!(history.redo_depth(), 0);
}

#[test]
fn mutate_with_the_current_grid_keeps_the_redo_stack() {
    let g0 = blank();
    let g1 = g0.set(0, 0, 1).unwrap();
    let mut history = HistoryStack::new(g0.clone());
    history.mutate(g1.clone());
    history.undo();
    assert!(!history.mutate(g0.clone()));
    assert_eq!(history.redo_depth(), 1);
    assert!(history.redo());
    assert!(*history.current() == g1);
}

#[test]
fn undo_then_redo_round_trip() {
    let g0 = blank();
    let g1 = g0.set(0, 0, 1).unwrap();
    assert!(g1 != g0);
    let mut history = HistoryStack::new(g0.clone());
    history.mutate(g1.clone());
    assert!(history.undo());
    assert!(*history.current() == g0);
    assert_eq!(history.undo_depth(), 0);
    assert_eq!(history.redo_depth(), 1);
    assert!(history.redo());
    assert!(*history.current() == g1);
    assert_eq!(history.undo_depth(), 1);
    assert_eq!(history.redo_depth(), 0);
}

#[test]
fn new_edit_after_undo_forgets_redo() {
    let g0 = blank();
    let g1 = g0.set(0, 0, 1).unwrap();
    let g2 = g0.set(1, 1, 2).unwrap();
    let mut history = HistoryStack::new(g0.clone());
    history.mutate(g1.clone());
    history.undo();
    assert!(history.mutate(g2.clone()));
    assert_eq!(history.redo_depth(), 0);
    assert!(!history.redo());
    assert!(*history.current() == g2);
    assert_eq!(history.undo_depth(), 1);
    assert!(history.undo());
    assert!(*history.current() == g0);
}

#[test]
fn undo_walks_back_through_several_edits() {
    let g0 = blank();
    let g1 = g0.set(0, 0, 1).unwrap();
    let g2 = g1.set(0, 1, 2).unwrap();
    let g3 = g2.set(1, 0, 3).unwrap();
    let mut history = HistoryStack::new(g0.clone());
    history.mutate(g1.clone());
    history.mutate(g2.clone());
    history.mutate(g3.clone());
    assert_eq!(history.undo_depth(), 3);
    assert!(history.undo());
    assert!(*history.current() == g2);
    assert!(history.undo());
    assert!(*history.current() == g1);
    assert!(history.undo());
    assert!(*history.current() == g0);
    assert!(!history.undo());
    assert_eq!(history.redo_depth(), 3);
    assert!(history.redo());
    assert!(*history.current() == g1);
    assert!(history.redo());
    assert!(*history.current() == g2);
    assert!(history.redo());
    assert!(*history.current() == g3);
    assert!(!history.redo());
}

#[test]
fn record_always_pushes() {
    let g0 = blank();
    let mut history = HistoryStack::new(g0.clone());
    history.record(g0.clone());
    assert_eq!(history.undo_depth(), 1);
    assert!(*history.current() == g0);
    history.undo();
    assert_eq!(history.redo_depth(), 1);
    history.record(g0.set(0, 0, 1).unwrap());
    assert_eq!(history.redo_depth(), 0);
    assert_eq!(history.undo_depth(), 1);
}
