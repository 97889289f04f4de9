//! The simulation grid and what the solver decides on it.

pub mod advection;
pub mod cell;
pub mod grid;
pub mod grid_stencil;
pub mod integration;
pub mod layout;
pub mod parallel;
pub mod projection;
pub mod timestepper;
