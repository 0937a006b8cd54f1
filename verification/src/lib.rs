//! A discrete-time simulation of ships on a toroidal grid.
//!
//! Ships live on a board, at most one per cell. Each tick every ship first
//! decides what it wants to do, looking only at its own counters; afterwards
//! the moves that were asked for are carried out one by one, in ascending
//! order of the cell they start from. A move into an occupied cell is dropped.
//!
//! * [`position`]: cells, their order, and moving round the edges of a grid.
//! * [`action`], [`periodic`], [`ship_ai`], [`ship`]: what a ship can ask for,
//!   and the kinds of ship that ask.
//! * [`board`]: the board itself, with the ships keyed by their cell.
//! * [`tick`]: the two phases of a tick.
//! * [`model`]: boards and ticks as the contracts see them.
//! * [`order`], [`phases`], [`laws`]: what is proved of them.

pub mod action;
mod arith;
pub mod board;
pub mod error;
pub mod laws;
pub mod model;
pub mod order;
pub mod periodic;
pub mod phases;
pub mod position;
pub mod ship;
pub mod ship_ai;
pub mod tick;
