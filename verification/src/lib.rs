//! Conway's Game of Life on a fixed-size square grid whose edges wrap around.
//!
//! The grid engine ([`matrix::Matrix`]) is executable code; what it computes is
//! stated over the mathematical model in [`torus`] and [`pattern`], and proved.

pub mod point;
pub mod search;
pub mod torus;
pub mod matrix;
pub mod pattern;
mod scan;
pub mod config;
pub mod game;
