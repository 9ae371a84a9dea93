//! Building blocks for coordination-free dataflow: a catalog of
//! join-semilattice merge operators with the partial order they induce,
//! wrapper types that restrict lattice-valued state to merge-only mutation,
//! and a push-based pipe framework with a dynamically growing fan-out stage.

pub mod domains;
pub mod lattice;
pub mod laws;
pub mod merge;
pub mod pipes;
pub mod semilattice;
