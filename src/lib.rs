//! A cellular-automaton cave generator with a flood simulation on top.
//!
//! The grid is a flat row-major buffer of cells. A smoothing rule turns a
//! random fill into caves, and a flood spreads water from a chosen cell
//! through the open space that is 4-connected to it.

pub mod grid;
pub mod neighbors;
pub mod generator;
pub mod flood;
pub mod controller;
pub mod fill;
