//! End-to-end checks of the neuroevolution engine on concrete populations.
use neat::ga::GA;
use neat::genes::{Genome, LinkGene, NeuronGene, NeuronType};
use neat::params::{SCALE, HALF, FIT_CAP};
use neat::phenotype::RunType;

#[test]
fn population_size_is_exact_after_epoch() {
    let mut ga = GA::new(10, 2, 1);
    assert_eq!(ga.num_genomes(), 10);
    for i in 0..10 {
        ga.set_fitness_score(i, (i as i64 + 1) * SCALE);
    }
    ga.epoch();
    assert_eq!(ga.num_genomes(), 10);
    assert_eq!(ga.pop_size(), 10);
    for i in 0..10 {
        ga.set_fitness_score(i, (10 - i as i64) * SCALE);
    }
    ga.epoch();
    assert_eq!(ga.num_genomes(), 10);
}

#[test]
fn constant_fitness_epoch_keeps_best_ever() {
    let mut ga = GA::new(8, 2, 1);
    let constant = 5 * SCALE;
    for i in 0..8 {
        ga.set_fitness_score(i, constant);
    }
    ga.epoch();
    let b1 = ga.best_ever_fitness();
    assert_eq!(b1, constant);
    for i in 0..8 {
        ga.set_fitness_score(i, constant);
    }
    ga.epoch();
    let b2 = ga.best_ever_fitness();
    assert_eq!(b2, b1);
}

#[test]
fn average_fitness_of_equal_scores() {
    let mut ga = GA::new(4, 1, 1);
    for i in 0..4 {
        ga.set_fitness_score(i, 2 * SCALE);
    }
    ga.epoch();
    assert_eq!(ga.average_fitness(), 2 * SCALE);
}

#[test]
fn every_phenotype_answers_in_sigmoid_range() {
    let mut ga = GA::new(10, 2, 1);
    ga.create_phenotypes();
    let inputs = vec![HALF, HALF];
    for i in 0..10 {
        let nn = ga.get_phenotype(i);
        let out = nn.update(&inputs, RunType::Active);
        assert_eq!(out.len(), 1);
        assert!(out[0] > 0 && out[0] < SCALE);
    }
}

#[test]
fn snapshot_update_resets_outputs_and_active_keeps_them() {
    let mut ga = GA::new(4, 2, 1);
    ga.create_phenotypes();
    let inputs = vec![HALF, -HALF];
    let nn = ga.get_phenotype(0);
    let _ = nn.update(&inputs, RunType::Snapshot);
    for k in 0..nn.outputs.len() {
        assert_eq!(nn.outputs[k], 0);
    }
    let _ = nn.update(&inputs, RunType::Active);
    let mut any_nonzero = false;
    for k in 0..nn.outputs.len() {
        if nn.outputs[k] != 0 {
            any_nonzero = true;
        }
    }
    assert!(any_nonzero);
}

#[test]
fn snapshot_evaluation_is_repeatable() {
    let mut ga = GA::new(4, 3, 2);
    ga.create_phenotypes();
    let inputs = vec![HALF, SCALE / 4, -HALF];
    let nn = ga.get_phenotype(1);
    let first = nn.update(&inputs, RunType::Snapshot);
    let second = nn.update(&inputs, RunType::Snapshot);
    assert_eq!(first, second);
    assert_eq!(first.len(), 2);
}

#[test]
fn best_genome_cache_is_kept() {
    let mut ga = GA::new(6, 2, 2);
    for i in 0..6 {
        ga.set_fitness_score(i, (i as i64) * SCALE);
    }
    ga.epoch();
    assert_eq!(ga.num_best_genomes(), 4);
    let brains = ga.get_best_phenotypes_from_last_generation();
    assert_eq!(brains.len(), 4);
    for (k, b) in brains.iter().enumerate() {
        assert_eq!(*b, k);
    }
}

#[test]
fn scores_above_the_cap_are_refused_by_the_host_shim() {
    // the engine takes scores in [0, FIT_CAP]; the host checks before writing
    let mut ga = GA::new(4, 1, 1);
    let score = FIT_CAP;
    ga.set_fitness_score(0, score);
    assert_eq!(ga.fitness_scores()[0], FIT_CAP);
}

#[test]
fn species_appear_after_an_epoch() {
    let mut ga = GA::new(5, 2, 1);
    for i in 0..5 {
        ga.set_fitness_score(i, SCALE);
    }
    ga.epoch();
    assert!(ga.num_species() >= 1);
}

#[test]
fn a_self_loop_gives_active_mode_memory() {
    let neurons = vec![
        NeuronGene::new(NeuronType::Input, 0, 0, HALF, false),
        NeuronGene::new(NeuronType::Bias, 1, 0, HALF, false),
        NeuronGene::new(NeuronType::Output, 2, SCALE, HALF, true),
    ];
    let links = vec![
        LinkGene::new(0, 2, true, 4, SCALE),
        LinkGene::create(2, 2, true, 5, SCALE, true),
    ];
    let mut g = Genome::from(0, neurons, links, 1, 1);
    g.create_phenotype(2);
    let inputs = vec![HALF];
    let nn = &mut g.phenotype;
    let first = nn.update(&inputs, RunType::Active);
    let second = nn.update(&inputs, RunType::Active);
    // the self-loop feeds the previous output back in, so the second step
    // sees a different weighted sum than the first
    assert_ne!(first, second);
}

#[test]
fn generations_accumulate() {
    let mut ga = GA::new(6, 2, 1);
    for gen in 0..3 {
        for i in 0..6 {
            ga.set_fitness_score(i, (i as i64 + gen) * SCALE / 2);
        }
        ga.epoch();
        assert_eq!(ga.num_genomes(), 6);
    }
}
