//! Checks of the genome model: gene uniqueness, mutation operators, the
//! compatibility distance and crossover.
use neat::ga::GA;
use neat::genes::{Genome, Innovation, InnovationType, LinkGene, NeuronGene, NeuronType};
use neat::params::SCALE;

fn no_duplicate_edges(g: &Genome) -> bool {
    let links = g.genes();
    for i in 0..links.len() {
        for j in (i + 1)..links.len() {
            if links[i].from_neuron() == links[j].from_neuron()
                && links[i].to_neuron() == links[j].to_neuron()
            {
                return false;
            }
        }
    }
    true
}

#[test]
fn minimal_genome_has_full_connectivity_and_unique_edges() {
    let g = Genome::minimal(7, 3, 2);
    assert_eq!(g.num_inputs(), 3);
    assert_eq!(g.num_outputs(), 2);
    assert_eq!(g.num_neurons(), 6);
    assert_eq!(g.num_genes(), 8);
    assert!(no_duplicate_edges(&g));
    assert_eq!(g.id(), 7);
    assert_eq!(g.fitness(), 0);
}

#[test]
fn add_link_preserves_edge_uniqueness_and_gene_count() {
    let mut g = Genome::minimal(0, 2, 2);
    let mut innov = Innovation::new(g.genes(), g.neurons());
    for _ in 0..50 {
        let before = g.num_genes();
        g.add_link(SCALE, SCALE / 4, &mut innov, 5, 5);
        assert!(g.num_genes() >= before);
        assert!(g.num_genes() <= before + 1);
        assert!(no_duplicate_edges(&g));
    }
}

#[test]
fn add_neuron_disables_but_never_removes_genes() {
    let mut g = Genome::minimal(0, 4, 3);
    let mut innov = Innovation::new(g.genes(), g.neurons());
    for _ in 0..30 {
        let genes_before = g.num_genes();
        let neurons_before = g.num_neurons();
        g.add_neuron(SCALE, &mut innov, 8);
        assert!(g.num_genes() >= genes_before);
        assert!(g.num_neurons() >= neurons_before);
        assert!(no_duplicate_edges(&g));
    }
}

#[test]
fn add_neuron_with_no_attempts_on_a_small_genome_is_a_no_op() {
    let mut g = Genome::minimal(0, 2, 1);
    let mut innov = Innovation::new(g.genes(), g.neurons());
    assert!(g.num_genes() < 2 + 1 + 5);
    let records_before = innov.innovs.len();
    g.add_neuron(SCALE, &mut innov, 0);
    assert_eq!(g.num_genes(), 3);
    assert_eq!(g.num_neurons(), 4);
    assert_eq!(innov.innovs.len(), records_before);
}

#[test]
fn compatibility_with_itself_is_zero() {
    let g = Genome::minimal(0, 2, 2);
    assert_eq!(g.get_compatibility_score(&g), 0);
    let h = Genome::minimal(1, 5, 3);
    assert_eq!(h.get_compatibility_score(&h), 0);
}

#[test]
fn compatibility_counts_excess_and_disjoint_genes() {
    // neurons 0 (input), 1 (bias), 2 and 3 (outputs)
    let neurons = vec![
        NeuronGene::new(NeuronType::Input, 0, 0, SCALE / 2, false),
        NeuronGene::new(NeuronType::Bias, 1, 0, SCALE / 4, false),
        NeuronGene::new(NeuronType::Output, 2, SCALE, SCALE / 2, false),
        NeuronGene::new(NeuronType::Output, 3, SCALE, SCALE / 2, false),
    ];
    let neurons_b = neurons.clone();
    let a = Genome::from(
        0,
        neurons,
        vec![
            LinkGene::new(0, 2, true, 10, 0),
            LinkGene::new(0, 3, true, 20, 0),
            LinkGene::new(1, 2, true, 30, 0),
        ],
        1,
        2,
    );
    let b = Genome::from(
        1,
        neurons_b,
        vec![
            LinkGene::new(0, 2, true, 10, 0),
            LinkGene::new(0, 3, true, 20, 0),
            LinkGene::new(1, 3, true, 40, 0),
        ],
        1,
        2,
    );
    // ids 10 and 20 match with zero weight difference; 30 is disjoint, 40 excess
    let expected = SCALE / 3 + SCALE / 3;
    assert_eq!(a.get_compatibility_score(&b), expected);
}

#[test]
fn matched_genes_contribute_their_weight_difference() {
    let mk_neurons = || {
        vec![
            NeuronGene::new(NeuronType::Input, 0, 0, SCALE / 2, false),
            NeuronGene::new(NeuronType::Bias, 1, 0, SCALE / 4, false),
            NeuronGene::new(NeuronType::Output, 2, SCALE, SCALE / 2, false),
        ]
    };
    let a = Genome::from(0, mk_neurons(), vec![LinkGene::new(0, 2, true, 5, SCALE)], 1, 1);
    let b = Genome::from(1, mk_neurons(), vec![LinkGene::new(0, 2, true, 5, -SCALE)], 1, 1);
    // one matched gene, |1.0 - (-1.0)| = 2.0; score = 0.4 * 2.0
    let expected = (2 * (2 * SCALE)) / 5;
    assert_eq!(a.get_compatibility_score(&b), expected);
}

#[test]
fn self_crossover_yields_a_subset_of_the_parent() {
    let mut ga = GA::new(4, 2, 2);
    let parent = Genome::minimal(99, 2, 2);
    let child = ga.crossover(&parent, &parent);
    // every child gene appears in the parent
    for c in child.genes().iter() {
        let mut found = false;
        for p in parent.genes().iter() {
            if c == p {
                found = true;
            }
        }
        assert!(found);
    }
    // every child neuron id appears among the parent's neuron ids
    for cn in child.neurons().iter() {
        let mut found = false;
        for pn in parent.neurons().iter() {
            if cn.id == pn.id {
                found = true;
            }
        }
        assert!(found);
    }
    assert_eq!(child.fitness(), 0);
}

#[test]
fn sort_genes_orders_by_innovation_id_descending() {
    let mut g = Genome::minimal(0, 3, 2);
    let mut innov = Innovation::new(g.genes(), g.neurons());
    for _ in 0..10 {
        g.add_neuron(SCALE, &mut innov, 8);
        g.add_link(SCALE, 0, &mut innov, 5, 5);
    }
    g.sort_genes();
    let links = g.genes();
    for i in 1..links.len() {
        assert!(links[i - 1].innovation_id() >= links[i].innovation_id());
    }
}

#[test]
fn weight_mutation_touches_only_weights() {
    let mut g = Genome::minimal(0, 2, 2);
    let before: Vec<(i64, i64, i64, bool)> = g
        .genes()
        .iter()
        .map(|l| (l.from_neuron(), l.to_neuron(), l.innovation_id(), l.enabled))
        .collect();
    g.mutate_weights(SCALE, SCALE / 2, SCALE / 2);
    let after: Vec<(i64, i64, i64, bool)> = g
        .genes()
        .iter()
        .map(|l| (l.from_neuron(), l.to_neuron(), l.innovation_id(), l.enabled))
        .collect();
    assert_eq!(before, after);
}

#[test]
fn activation_mutation_keeps_responses_in_range() {
    let mut g = Genome::minimal(0, 2, 2);
    for _ in 0..20 {
        g.mutate_activation_response(SCALE, SCALE / 10);
    }
    for n in g.neurons().iter() {
        assert!(n.activation_response >= neat::params::RESP_MIN);
        assert!(n.activation_response <= neat::params::RESP_CAP);
    }
}

#[test]
fn create_phenotype_builds_one_neuron_per_gene() {
    let mut g = Genome::minimal(0, 2, 1);
    g.create_phenotype(3);
    assert_eq!(g.phenotype.neurons.len(), 4);
    assert_eq!(g.phenotype.depth, 3);
    for o in g.phenotype.outputs.iter() {
        assert_eq!(*o, 0);
    }
    g.delete_phenotype();
    assert_eq!(g.phenotype.neurons.len(), 0);
}
