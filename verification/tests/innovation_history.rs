//! Checks of the innovation history: stable ids, first-match lookup, and
//! neuron reconstruction.
use neat::genes::{Genome, Innovation, InnovationType, NeuronType};
use neat::params::SCALE;

#[test]
fn lookup_finds_the_oldest_matching_record() {
    let g = Genome::minimal(0, 2, 1);
    let mut innov = Innovation::new(g.genes(), g.neurons());
    // the seeded history: 4 neurons then 3 links, numbered from 0
    assert_eq!(innov.next_number(), 7);
    assert_eq!(innov.check_innovation(0, 2, InnovationType::NewLink), -1);
    assert_eq!(innov.check_innovation(0, 3, InnovationType::NewLink), 4);
    assert_eq!(innov.check_innovation(1, 3, InnovationType::NewLink), 5);
    assert_eq!(innov.check_innovation(2, 3, InnovationType::NewLink), 6);
}

#[test]
fn identical_structural_events_share_one_innovation_id() {
    let g = Genome::minimal(0, 2, 1);
    let mut innov = Innovation::new(g.genes(), g.neurons());
    // a first genome records a split of the link from 0 to 3
    innov.create_new_innovation_with_pos(0, 3, InnovationType::NewNeuron, NeuronType::Hidden, SCALE / 2, SCALE / 2);
    let id_first = innov.check_innovation(0, 3, InnovationType::NewNeuron);
    assert!(id_first >= 0);
    // later events pile up behind it
    innov.create_new_innovation(7, 3, InnovationType::NewLink);
    innov.create_new_innovation(0, 7, InnovationType::NewLink);
    // a second genome asking for the same split converges to the same id
    let id_second = innov.check_innovation(0, 3, InnovationType::NewNeuron);
    assert_eq!(id_second, id_first);
}

#[test]
fn new_neuron_events_allocate_increasing_neuron_ids() {
    let g = Genome::minimal(0, 1, 1);
    let mut innov = Innovation::new(g.genes(), g.neurons());
    let n1 = innov.create_new_innovation_with_pos(0, 2, InnovationType::NewNeuron, NeuronType::Hidden, 0, 0);
    let n2 = innov.create_new_innovation_with_pos(1, 2, InnovationType::NewNeuron, NeuronType::Hidden, 0, 0);
    assert_eq!(n1, 3);
    assert_eq!(n2, 4);
    assert_eq!(innov.get_neuron_id(innov.check_innovation(0, 2, InnovationType::NewNeuron)), n1);
}

#[test]
fn neurons_are_rebuilt_from_their_records() {
    let g = Genome::minimal(0, 2, 1);
    let innov = Innovation::new(g.genes(), g.neurons());
    let input0 = innov.create_neuron_from_id(0);
    assert_eq!(input0.id, 0);
    assert!(matches!(input0.neuron_type, NeuronType::Input));
    let bias = innov.create_neuron_from_id(2);
    assert_eq!(bias.id, 2);
    assert!(matches!(bias.neuron_type, NeuronType::Bias));
    let out = innov.create_neuron_from_id(3);
    assert_eq!(out.id, 3);
    assert!(matches!(out.neuron_type, NeuronType::Output));
    assert_eq!(out.activation_response, SCALE);
}

#[test]
fn flush_clears_the_whole_history() {
    let g = Genome::minimal(0, 1, 1);
    let mut innov = Innovation::new(g.genes(), g.neurons());
    assert!(innov.innovs.len() > 0);
    innov.flush();
    assert_eq!(innov.innovs.len(), 0);
}
