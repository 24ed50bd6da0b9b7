//! Neuroevolution engine: genomes of dense layers, their recombination
//! operators, the per-generation selection and breeding step, migration between
//! islands, and the naming and listing of checkpoint records. Parameters are of
//! any `Copy` type; the arithmetic on them (noise, means) is supplied by the
//! caller as closures, and every result is stated in terms of what those
//! closures may return.
pub mod amplitude;
pub mod chance;
pub mod checkpoint;
pub mod error;
pub mod fitness;
pub mod generation;
pub mod genome;
pub mod islands;
pub mod networks;
pub mod operators;
pub mod reproduction;
pub mod sorting;
