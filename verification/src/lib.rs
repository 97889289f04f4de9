//! Grid kernel of a two-dimensional Eulerian fluid solver on a staggered
//! (MAC) grid that carries smoke through an incompressible flow around solid
//! obstacles.
//!
//! The library holds the cell records and the padded row-major grid with its
//! index arithmetic, builds the disjoint positive stencils on which the
//! projection can work in parallel, and runs the phases of a time step:
//! integration of body forces, projection, advection. It decides which cells
//! a phase visits, in which order, and what each visit may read and write.
//!
//! The library is generic over the scalar type `S` of the physical fields.
//! It stores, copies and hands out such values but never computes with
//! them: the formulas of the solver are functions that the caller passes
//! in.

pub mod log;
pub mod math;
pub mod scene;
pub mod types;
