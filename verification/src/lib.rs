//! A uniform spatial hash grid for broad-phase overlap queries among
//! axis-aligned bounding boxes in the plane.
//!
//! Entities are inserted with an integer id, a position and an extent. The
//! grid registers each entity in every cell that its bounding box touches
//! and answers, for a query rectangle, which entities might overlap it.
//!
//! - [`cell`]: cell coordinates and their folding into one integer.
//! - [`model`]: what a grid holds, what an insertion adds and what a query
//!   reports, as mathematical definitions.
//! - [`grid`]: the grid itself, with insertion and query proved against the
//!   model.
//! - [`laws`]: what follows for every grid.

pub mod cell;
pub mod model;
pub mod grid;
pub mod laws;
