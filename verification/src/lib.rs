//! A NEAT-style neuroevolution engine: genomes made of neuron and link genes,
//! a run-wide innovation history that gives structural mutations stable
//! identities, speciation with fitness sharing, a per-generation reproduction
//! algorithm, and a feed-forward/recurrent network evaluator.
//!
//! All real-valued quantities (weights, fitness scores, activation responses,
//! layout coordinates, probabilities) are fixed-point integers scaled by
//! `params::SCALE`.
use vstd::prelude::*;

pub mod ga;
pub mod genes;
pub mod genome;
pub mod params;
pub mod phenotype;
pub mod species;
pub mod utils;

verus! {

pub fn test() {
}

} // verus!
