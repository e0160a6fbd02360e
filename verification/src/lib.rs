//! The data model of a tile editor: persistent sequences and grids, an undo history of
//! grid snapshots, and the flood fill of a connected region.
pub mod editor;
pub mod fill;
pub mod grid;
pub mod history;
pub mod list;
pub mod room;
mod shared;
pub mod tile;
