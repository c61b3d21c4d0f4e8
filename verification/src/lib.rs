//! Core rules engine of a falling-block puzzle game: the grid of settled
//! cells, the seven piece kinds with their rotation tables, the collision
//! validator, and the lock-and-clear machinery that commits a landed piece
//! and removes completed rows.

pub mod board;
pub mod tetrimino;
