//! Conway's Game of Life on a fixed 8 x 16 torus, stepped in place with one
//! spare bit per cell, rendered into a brightness framebuffer, and driven by a
//! cooperative frame countdown.

pub mod grid;
pub mod neighbors;
pub mod render;
pub mod scheduler;
pub mod step;
