//! A verified core for a Conway's Game of Life simulation.
//!
//! The simulation state lives in [`sim`]: a fixed-size grid of alive/dead
//! flags advanced one generation at a time under the classic B3/S23 rule,
//! together with the translation of alive cells into screen rectangles.
//! [`events`] holds the pure decision logic of the render loop: which input
//! events end the run.  The grid container itself comes from the `grid`
//! crate, reached through the trusted declarations in [`grid_ext`].

pub mod grid_ext;
pub mod sim;
pub mod events;
