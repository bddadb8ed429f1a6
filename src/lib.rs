//! Evolution of feed-forward network brains by a generational genetic
//! algorithm: the chromosome container, the network's shape and its flat
//! weight encoding, the selection and crossover strategies, generation
//! statistics and the generation clock of the simulation stepper.
//!
//! Genes and weights are generic: the library fixes their order and
//! bookkeeping, the arithmetic on them belongs to the caller.
pub mod chromosome;
pub mod genetic;
pub mod network;
pub mod random;
pub mod simulation;
