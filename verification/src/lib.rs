//! Discrete core of a particle fluid simulation: the spatial hash that answers
//! neighbour queries, the cell grid with its counting sort, the order of the
//! passes of a simulation step, the layout of a recording, and the small
//! value types of the compute layer.

pub mod backend;
pub mod binding;
pub mod computer;
pub mod fluids;
pub mod general;
pub mod grid;
pub mod lattice;
pub mod particles_system;
pub mod sequences;
pub mod simulation;
