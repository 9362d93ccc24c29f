//! Conway's Game of Life on the plane of `i32` coordinates: the sparse board
//! and its generation rule, the scrolling viewport with its cursor and
//! live-cell search, and the named snapshots kept in an SQLite file.

pub mod board;
pub mod viewport;
pub mod store;
pub mod game;
