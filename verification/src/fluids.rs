//! The particle side of the simulation: what a particle is to the neighbour
//! search, the spatial hash table, and the order of the passes of one step.

pub mod particle;
pub mod neighborhoods;
pub mod table;
pub mod solver;
