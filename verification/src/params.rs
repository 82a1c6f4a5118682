//! Tunable constants of the engine.
//!
//! Real-valued quantities are fixed-point: an `i64` value `v` stands for the
//! real number `v / SCALE`. Probabilities and rates live in `[0, SCALE]`.
use vstd::prelude::*;

verus! {

/// Fixed-point unit: the representation of 1.0.
pub const SCALE: i64 = 1048576;

/// The representation of 0.5.
pub const HALF: i64 = 524288;

/// Largest magnitude a link weight may take.
pub const WEIGHT_CAP: i64 = 16777216;

/// Smallest activation response (sigmoid curvature) a neuron may take.
pub const RESP_MIN: i64 = 65536;

/// Largest activation response a neuron may take.
pub const RESP_CAP: i64 = 16777216;

/// Largest fitness score the engine accepts from the host.
pub const FIT_CAP: i64 = 1099511627776;

/// Largest adjusted fitness that fitness sharing can produce.
pub const ADJ_CAP: i64 = 2199023255552;

/// Largest per-genome spawn amount.
pub const SPAWN_CAP: i64 = 2305843009213693952;

/// Largest population size.
pub const POP_CAP: usize = 100000;

/// Largest number of inputs plus outputs of a genome.
pub const IO_CAP: usize = 1000;

/// Probability that reproduction mates two distinct parents.
pub const CROSSOVER_RATE: i64 = 734003;

/// Probability that a link weight is mutated at all.
pub const MUTATION_RATE: i64 = 209715;

/// Probability that a mutated weight is replaced instead of perturbed.
pub const PROBABILITY_WEIGHT_REPLACED: i64 = 104857;

/// Largest perturbation applied to a mutated weight.
pub const MAX_WEIGHT_PERTURBATION: i64 = 524288;

/// Probability that a neuron's activation response is mutated.
pub const ACTIVATION_MUTATION_RATE: i64 = 104857;

/// Largest perturbation applied to a mutated activation response.
pub const MAX_ACTIVATION_PERTURBATION: i64 = 104857;

/// Probability that `add_link` runs on a genome.
pub const CHANCE_ADD_LINK: i64 = 73401;

/// Probability that `add_neuron` runs on a genome.
pub const CHANCE_ADD_NODE: i64 = 41943;

/// Probability that a new link is a self-loop.
pub const CHANCE_ADD_RECURRENT_LINK: i64 = 52428;

/// Compatibility scores at or under this threshold join an existing species.
pub const COMPATIBILITY_THRESHOLD: i64 = 272629;

/// Species younger than this get the youth fitness bonus.
pub const YOUNG_AGE_THRESHOLD: i64 = 10;

/// Species older than this get the old-age fitness penalty.
pub const OLD_AGE_THRESHOLD: i64 = 50;

/// A species may stagnate this many generations before it is purged.
pub const NUM_GENS_ALLOWED_NO_IMPROVEMENT: i64 = 15;

/// `add_neuron` is skipped once a genome holds this many neurons.
pub const MAX_PERMITTED_NEURONS: usize = 100;

/// Attempts to find two unconnected neurons in `add_link`.
pub const NUM_ADD_LINK_ATTEMPTS: i64 = 5;

/// Attempts to find a loop host or an old link.
pub const NUM_TRYS_TO_FIND_LOOPED_LINK: i64 = 5;

/// How many of the fittest genomes are cached each generation.
pub const NUM_BEST_SPRITE: usize = 4;

/// Largest depth stored in the split-depth lookup table.
pub const MAX_SPLIT_DEPTH: i64 = 8;

} // verus!
