use vstd::prelude::*;

verus! {

/// Why an evolution step could not be carried out: the run's invariants are
/// broken, and the run ends.
#[derive(Clone, Copy, Debug, PartialEq, Eq, Structural)]
pub enum EngineError {
    /// Two genomes that were to be recombined have different topologies.
    ShapeMismatch,
    /// A fitness score is negative, infinite or not a number.
    NonFiniteFitness,
    /// The elites and the fresh genomes do not fit in the population.
    TooManyRandoms,
}

} // verus!
