//! The atomic units of a genome — link genes and neuron genes — together with
//! the run-wide innovation history that gives every structural change a stable
//! identity.
use vstd::prelude::*;

pub use crate::genome::Genome;

verus! {

use crate::params::{SCALE, RESP_MIN, RESP_CAP, WEIGHT_CAP};

/// The role of a neuron inside a network.
#[derive(Clone, Copy, PartialEq, Eq, Structural, Debug)]
pub enum NeuronType {
    Input,
    Hidden,
    Output,
    Bias,
}

/// The kind of structural event an innovation records.
#[derive(Clone, Copy, PartialEq, Eq, Structural, Debug)]
pub enum InnovationType {
    NewNeuron,
    NewLink,
}

/// A directed, weighted connection between two neuron genes, identified
/// across genomes by its innovation id.
#[derive(Clone, Copy, PartialEq, Eq, Structural, Debug)]
pub struct LinkGene {
    pub from_neuron: i64,
    pub to_neuron: i64,
    pub weight: i64,
    pub enabled: bool,
    pub recurrent: bool,
    pub innovation_id: i64,
}

impl LinkGene {
    /// A placeholder gene.
    pub fn temp() -> (r: LinkGene)
        ensures
            r == (LinkGene {
                from_neuron: 0,
                to_neuron: 0,
                weight: 0,
                enabled: false,
                recurrent: false,
                innovation_id: -1i64,
            }),
    {
        LinkGene { from_neuron: 0, to_neuron: 0, weight: 0, enabled: false, recurrent: false, innovation_id: -1 }
    }

    pub fn new(_in: i64, out: i64, enable: bool, tag: i64, w: i64) -> (r: LinkGene)
        ensures
            r == (LinkGene {
                from_neuron: _in,
                to_neuron: out,
                weight: w,
                enabled: enable,
                recurrent: false,
                innovation_id: tag,
            }),
    {
        LinkGene { from_neuron: _in, to_neuron: out, weight: w, enabled: enable, recurrent: false, innovation_id: tag }
    }

    pub fn create(_in: i64, out: i64, enable: bool, tag: i64, w: i64, rec: bool) -> (r: LinkGene)
        ensures
            r == (LinkGene {
                from_neuron: _in,
                to_neuron: out,
                weight: w,
                enabled: enable,
                recurrent: rec,
                innovation_id: tag,
            }),
    {
        LinkGene { from_neuron: _in, to_neuron: out, weight: w, enabled: enable, recurrent: rec, innovation_id: tag }
    }

    pub fn innovation_id(&self) -> (r: i64)
        ensures
            r == self.innovation_id,
    {
        self.innovation_id
    }

    pub fn from_neuron(&self) -> (r: i64)
        ensures
            r == self.from_neuron,
    {
        self.from_neuron
    }

    pub fn to_neuron(&self) -> (r: i64)
        ensures
            r == self.to_neuron,
    {
        self.to_neuron
    }
}

/// A neuron gene: an identity, a role, a sigmoid curvature, and two layout
/// coordinates used for depth computation and display.
#[derive(Clone, Copy, PartialEq, Eq, Structural, Debug)]
pub struct NeuronGene {
    pub id: i64,
    pub neuron_type: NeuronType,
    pub recurrent: bool,
    pub activation_response: i64,
    pub split_y: i64,
    pub split_x: i64,
}

impl NeuronGene {
    pub fn new(neuron_type: NeuronType, id: i64, y: i64, x: i64, r: bool) -> (g: NeuronGene)
        ensures
            g == (NeuronGene {
                id: id,
                neuron_type: neuron_type,
                recurrent: r,
                activation_response: SCALE,
                split_y: y,
                split_x: x,
            }),
    {
        NeuronGene { id, neuron_type, recurrent: r, activation_response: SCALE, split_y: y, split_x: x }
    }
}

/// The role a neuron id denotes: ids are handed out in blocks, inputs first,
/// then the bias, then the outputs, and every later id is a hidden neuron.
pub open spec fn type_for_id(id: int, n_in: int, n_out: int) -> NeuronType {
    if id < n_in {
        NeuronType::Input
    } else if id == n_in {
        NeuronType::Bias
    } else if id <= n_in + n_out {
        NeuronType::Output
    } else {
        NeuronType::Hidden
    }
}

/// One recorded structural event: a new link or a new neuron, keyed by the
/// endpoint ids it was derived from.
#[derive(Clone, Copy, PartialEq, Eq, Structural, Debug)]
pub struct SInnovation {
    pub innovation_type: InnovationType,
    pub innovation_id: i64,
    pub neuron_in: i64,
    pub neuron_out: i64,
    pub neuron_id: i64,
    pub neuron_type: NeuronType,
    pub split_x: i64,
    pub split_y: i64,
}

impl SInnovation {
    pub fn new(_in: i64, out: i64, t: InnovationType, inov_id: i64) -> (r: SInnovation)
        ensures
            r == (SInnovation {
                innovation_type: t,
                innovation_id: inov_id,
                neuron_in: _in,
                neuron_out: out,
                neuron_id: 0,
                neuron_type: NeuronType::Hidden,
                split_x: 0,
                split_y: 0,
            }),
    {
        SInnovation {
            innovation_type: t,
            innovation_id: inov_id,
            neuron_in: _in,
            neuron_out: out,
            neuron_id: 0,
            neuron_type: NeuronType::Hidden,
            split_x: 0,
            split_y: 0,
        }
    }

    pub fn with_split(
        _in: i64,
        out: i64,
        t: InnovationType,
        inov_id: i64,
        neuron_type: NeuronType,
        x: i64,
        y: i64,
    ) -> (r: SInnovation)
        ensures
            r == (SInnovation {
                innovation_type: t,
                innovation_id: inov_id,
                neuron_in: _in,
                neuron_out: out,
                neuron_id: 0,
                neuron_type: neuron_type,
                split_x: x,
                split_y: y,
            }),
    {
        SInnovation {
            innovation_type: t,
            innovation_id: inov_id,
            neuron_in: _in,
            neuron_out: out,
            neuron_id: 0,
            neuron_type,
            split_x: x,
            split_y: y,
        }
    }

    /// The record of a pre-existing neuron gene.
    pub fn from(neuron: &NeuronGene, innov_id: i64, neuron_id: i64) -> (r: SInnovation)
        ensures
            r == (SInnovation {
                innovation_type: InnovationType::NewNeuron,
                innovation_id: innov_id,
                neuron_in: -1i64,
                neuron_out: -1i64,
                neuron_id: neuron_id,
                neuron_type: neuron.neuron_type,
                split_x: neuron.split_x,
                split_y: neuron.split_y,
            }),
    {
        SInnovation {
            innovation_type: InnovationType::NewNeuron,
            innovation_id: innov_id,
            neuron_in: -1i64,
            neuron_out: -1i64,
            neuron_id,
            neuron_type: neuron.neuron_type,
            split_x: neuron.split_x,
            split_y: neuron.split_y,
        }
    }
}

/// Whether a record matches a queried structural event.
pub open spec fn rec_matches(r: SInnovation, _in: int, out: int, ty: InnovationType) -> bool {
    r.neuron_in == _in && r.neuron_out == out && r.innovation_type == ty
}

/// The innovation id of the first record at or after index `i` that matches
/// `(_in, out, ty)`, or `-1` when none does.
pub open spec fn check_from(s: Seq<SInnovation>, i: int, _in: int, out: int, ty: InnovationType) -> int
    decreases s.len() - i,
{
    if i < 0 || i >= s.len() {
        -1
    } else if rec_matches(s[i], _in, out, ty) {
        s[i].innovation_id as int
    } else {
        check_from(s, i + 1, _in, out, ty)
    }
}

/// The innovation id the history assigns to a structural event: first match
/// wins, so the oldest recorded event decides.
pub open spec fn check_spec(s: Seq<SInnovation>, _in: int, out: int, ty: InnovationType) -> int {
    check_from(s, 0, _in, out, ty)
}

/// The index of the first record at or after `i` whose neuron id is `id`,
/// or `-1` when none carries it.
pub open spec fn first_rec_idx(s: Seq<SInnovation>, i: int, id: int) -> int
    decreases s.len() - i,
{
    if i < 0 || i >= s.len() {
        -1
    } else if s[i].neuron_id == id {
        i
    } else {
        first_rec_idx(s, i + 1, id)
    }
}

/// How many new-neuron records the prefix `s[..i]` holds.
pub open spec fn neurons_before(s: Seq<SInnovation>, i: int) -> int
    decreases i,
{
    if i <= 0 {
        0
    } else {
        neurons_before(s, i - 1) + if s[i - 1].innovation_type == InnovationType::NewNeuron {
            1int
        } else {
            0int
        }
    }
}

/// Well-formedness of a single record within a history for a population with
/// `n_in` inputs and `n_out` outputs.
pub open spec fn rec_ok(r: SInnovation, n_in: int, n_out: int) -> bool {
    &&& -1 <= r.neuron_in
    &&& -1 <= r.neuron_out
    &&& match r.innovation_type {
        InnovationType::NewNeuron => {
            &&& 0 <= r.neuron_id
            &&& r.neuron_type == type_for_id(r.neuron_id as int, n_in, n_out)
            &&& 0 <= r.split_x <= SCALE
            &&& 0 <= r.split_y <= SCALE
        },
        InnovationType::NewLink => r.neuron_id == 0,
    }
}

/// The append-only history of every structural event of a run.
pub struct Innovation {
    pub innovs: Vec<SInnovation>,
    pub next_neuron_id: i64,
    pub next_innovation_num: i64,
}

impl Innovation {
    pub open spec fn records(self) -> Seq<SInnovation> {
        self.innovs@
    }

    pub open spec fn next_neuron(self) -> int {
        self.next_neuron_id as int
    }

    pub open spec fn next_innovation(self) -> int {
        self.next_innovation_num as int
    }

    /// The history's invariant: records are numbered by position, new-neuron
    /// records hand out neuron ids in order with the role the id denotes, and
    /// the very first record is the neuron gene with id 0.
    pub open spec fn wf(self, n_in: int, n_out: int) -> bool {
        &&& self.innovs@.len() == self.next_innovation_num
        &&& self.innovs@.len() < 0x1000_0000_0000_0000
        &&& 1 <= n_in
        &&& 1 <= n_out
        &&& n_in + n_out + 1 <= self.next_neuron_id
        &&& forall|i: int|
            0 <= i < self.innovs@.len() ==> (#[trigger] self.innovs@[i]).innovation_id == i
        &&& forall|i: int| 0 <= i < self.innovs@.len() ==> rec_ok(#[trigger] self.innovs@[i], n_in, n_out)
        &&& forall|i: int|
            0 <= i < self.innovs@.len()
                && (#[trigger] self.innovs@[i]).innovation_type == InnovationType::NewNeuron
                ==> self.innovs@[i].neuron_id == neurons_before(self.innovs@, i)
        &&& self.next_neuron_id == neurons_before(self.innovs@, self.innovs@.len() as int)
        &&& forall|i: int|
            0 <= i < self.innovs@.len()
                && (#[trigger] self.innovs@[i]).innovation_type == InnovationType::NewNeuron
                && self.innovs@[i].neuron_id <= n_in + n_out ==> self.innovs@[i].neuron_in == -1
                && self.innovs@[i].neuron_out == -1
        &&& self.innovs@.len() > 0
        &&& self.innovs@[0].innovation_type == InnovationType::NewNeuron
        &&& self.innovs@[0].neuron_id == 0
    }

    /// Builds the history of a fresh run from the starting genes and neurons
    /// of a minimal genome.
    pub fn new(start_genes: &Vec<LinkGene>, start_neurons: &Vec<NeuronGene>) -> (r: Innovation)
        requires
            1 <= start_neurons@.len() < 0x1000_0000,
            start_genes@.len() < 0x1000_0000,
            forall|i: int|
                0 <= i < start_neurons@.len() ==> (#[trigger] start_neurons@[i]).id == i,
            forall|i: int|
                0 <= i < start_neurons@.len() ==> 0 <= (#[trigger] start_neurons@[i]).split_x
                    <= SCALE && 0 <= start_neurons@[i].split_y <= SCALE,
            forall|i: int|
                0 <= i < start_genes@.len() ==> 0 <= (#[trigger] start_genes@[i]).from_neuron
                    && 0 <= start_genes@[i].to_neuron,
        ensures
            r.records().len() == start_neurons@.len() + start_genes@.len(),
            r.next_neuron() == start_neurons@.len(),
            r.next_innovation() == start_neurons@.len() + start_genes@.len(),
            forall|i: int|
                0 <= i < start_neurons@.len() ==> #[trigger] r.records()[i] == (SInnovation {
                    innovation_type: InnovationType::NewNeuron,
                    innovation_id: i as i64,
                    neuron_in: -1i64,
                    neuron_out: -1i64,
                    neuron_id: i as i64,
                    neuron_type: start_neurons@[i].neuron_type,
                    split_x: start_neurons@[i].split_x,
                    split_y: start_neurons@[i].split_y,
                }),
            forall|j: int|
                0 <= j < start_genes@.len() ==> #[trigger] r.records()[start_neurons@.len() + j]
                    == (SInnovation {
                    innovation_type: InnovationType::NewLink,
                    innovation_id: (start_neurons@.len() + j) as i64,
                    neuron_in: start_genes@[j].from_neuron,
                    neuron_out: start_genes@[j].to_neuron,
                    neuron_id: 0,
                    neuron_type: NeuronType::Hidden,
                    split_x: 0,
                    split_y: 0,
                }),
            forall|a: int, b: int|
                1 <= a && 1 <= b && start_neurons@.len() == a + b + 1 && (forall|i: int|
                    0 <= i < start_neurons@.len() ==> (#[trigger] start_neurons@[i]).neuron_type
                        == type_for_id(i, a, b)) ==> r.wf(a, b),
    {
        let mut innovs: Vec<SInnovation> = Vec::new();
        let mut next_neuron_id: i64 = 0;
        let mut next_innovation_num: i64 = 0;
        let mut k: usize = 0;
        while k < start_neurons.len()
            invariant
                0 <= k <= start_neurons@.len(),
                start_neurons@.len() < 0x1000_0000,
                innovs@.len() == k,
                next_neuron_id == k,
                next_innovation_num == k,
                forall|i: int|
                    0 <= i < k ==> #[trigger] innovs@[i] == (SInnovation {
                        innovation_type: InnovationType::NewNeuron,
                        innovation_id: i as i64,
                        neuron_in: -1i64,
                        neuron_out: -1i64,
                        neuron_id: i as i64,
                        neuron_type: start_neurons@[i].neuron_type,
                        split_x: start_neurons@[i].split_x,
                        split_y: start_neurons@[i].split_y,
                    }),
            decreases start_neurons@.len() - k,
        {
            let nd = &start_neurons[k];
            innovs.push(SInnovation::from(nd, next_innovation_num, next_neuron_id));
            next_innovation_num = next_innovation_num + 1;
            next_neuron_id = next_neuron_id + 1;
            k = k + 1;
        }
        let mut j: usize = 0;
        while j < start_genes.len()
            invariant
                0 <= j <= start_genes@.len(),
                start_genes@.len() < 0x1000_0000,
                start_neurons@.len() < 0x1000_0000,
                innovs@.len() == start_neurons@.len() + j,
                next_neuron_id == start_neurons@.len(),
                next_innovation_num == start_neurons@.len() + j,
                forall|i: int|
                    0 <= i < start_neurons@.len() ==> #[trigger] innovs@[i] == (SInnovation {
                        innovation_type: InnovationType::NewNeuron,
                        innovation_id: i as i64,
                        neuron_in: -1i64,
                        neuron_out: -1i64,
                        neuron_id: i as i64,
                        neuron_type: start_neurons@[i].neuron_type,
                        split_x: start_neurons@[i].split_x,
                        split_y: start_neurons@[i].split_y,
                    }),
                forall|i: int|
                    0 <= i < j ==> #[trigger] innovs@[start_neurons@.len() + i] == (SInnovation {
                        innovation_type: InnovationType::NewLink,
                        innovation_id: (start_neurons@.len() + i) as i64,
                        neuron_in: start_genes@[i].from_neuron,
                        neuron_out: start_genes@[i].to_neuron,
                        neuron_id: 0,
                        neuron_type: NeuronType::Hidden,
                        split_x: 0,
                        split_y: 0,
                    }),
            decreases start_genes@.len() - j,
        {
            let gen = &start_genes[j];
            innovs.push(SInnovation::new(
                gen.from_neuron,
                gen.to_neuron,
                InnovationType::NewLink,
                next_innovation_num,
            ));
            next_innovation_num = next_innovation_num + 1;
            j = j + 1;
        }
        let r = Innovation { innovs, next_neuron_id, next_innovation_num };
        proof {
            assert forall|a: int, b: int|
                1 <= a && 1 <= b && start_neurons@.len() == a + b + 1 && (forall|i2: int|
                    0 <= i2 < start_neurons@.len()
                        ==> (#[trigger] start_neurons@[i2]).neuron_type == type_for_id(
                        i2,
                        a,
                        b,
                    )) implies r.wf(a, b) by {
                let sq = r.innovs@;
                let nn = start_neurons@.len() as int;
                assert forall|k: int| 0 <= k < nn implies (#[trigger] sq[k]).innovation_type
                    == InnovationType::NewNeuron by {
                    assert(r.records()[k] == (SInnovation {
                        innovation_type: InnovationType::NewNeuron,
                        innovation_id: k as i64,
                        neuron_in: -1i64,
                        neuron_out: -1i64,
                        neuron_id: k as i64,
                        neuron_type: start_neurons@[k].neuron_type,
                        split_x: start_neurons@[k].split_x,
                        split_y: start_neurons@[k].split_y,
                    }));
                }
                assert forall|k: int| nn <= k < sq.len() implies (#[trigger] sq[k]).innovation_type
                    != InnovationType::NewNeuron by {
                    let j = k - nn;
                    assert(r.records()[nn + j] == (SInnovation {
                        innovation_type: InnovationType::NewLink,
                        innovation_id: (nn + j) as i64,
                        neuron_in: start_genes@[j].from_neuron,
                        neuron_out: start_genes@[j].to_neuron,
                        neuron_id: 0,
                        neuron_type: NeuronType::Hidden,
                        split_x: 0,
                        split_y: 0,
                    }));
                }
                assert forall|k: int| 0 <= k < sq.len() implies (#[trigger] sq[k]).innovation_id
                    == k && rec_ok(sq[k], a, b) by {
                    if k < nn {
                        assert(sq[k].innovation_id == k && sq[k].neuron_in == -1
                            && sq[k].neuron_out == -1 && sq[k].neuron_id == k && sq[k].neuron_type
                            == start_neurons@[k].neuron_type && sq[k].split_x
                            == start_neurons@[k].split_x && sq[k].split_y
                            == start_neurons@[k].split_y);
                        assert(start_neurons@[k].neuron_type == type_for_id(k, a, b));
                    } else {
                        let j = k - nn;
                        assert(r.records()[nn + j] == (SInnovation {
                            innovation_type: InnovationType::NewLink,
                            innovation_id: (nn + j) as i64,
                            neuron_in: start_genes@[j].from_neuron,
                            neuron_out: start_genes@[j].to_neuron,
                            neuron_id: 0,
                            neuron_type: NeuronType::Hidden,
                            split_x: 0,
                            split_y: 0,
                        }));
                    }
                }
                lemma_neurons_before_all(sq, nn);
                lemma_neurons_before_flat(sq, nn, sq.len() as int);
                assert forall|i2: int|
                    0 <= i2 < sq.len() && (#[trigger] sq[i2]).innovation_type
                        == InnovationType::NewNeuron implies sq[i2].neuron_id == neurons_before(
                    sq,
                    i2,
                ) by {
                    lemma_neurons_before_all(sq, i2);
                }
            }
        }
        r
    }

    /// Whether this structural event has happened before; returns the id of
    /// the oldest matching record, or a negative value when none matches.
    pub fn check_innovation(&self, _in: i64, out: i64, iv_type: InnovationType) -> (r: i64)
        ensures
            r == check_spec(self.records(), _in as int, out as int, iv_type),
    {
        let mut k: usize = 0;
        while k < self.innovs.len()
            invariant
                0 <= k <= self.innovs@.len(),
                check_spec(self.innovs@, _in as int, out as int, iv_type) == check_from(
                    self.innovs@,
                    k as int,
                    _in as int,
                    out as int,
                    iv_type,
                ),
            decreases self.innovs@.len() - k,
        {
            let inv = &self.innovs[k];
            if inv.neuron_in == _in && inv.neuron_out == out && inv.innovation_type == iv_type {
                return inv.innovation_id;
            }
            k = k + 1;
        }
        -1
    }

    /// Records a new structural event and returns the id of the neuron it
    /// allocated (new-neuron events allocate the next neuron id; new-link
    /// events return one less than the allocator's current value).
    pub fn create_new_innovation(&mut self, _in: i64, out: i64, iv_type: InnovationType) -> (r: i64)
        requires
            0 <= old(self).next_innovation(),
            old(self).next_innovation() + 1 < 0x1000_0000_0000_0000,
            0 <= old(self).next_neuron(),
            old(self).next_neuron() + 1 < 0x1000_0000_0000_0000,
            -1 <= _in,
            -1 <= out,
        ensures
            final(self).records() == old(self).records().push(SInnovation {
                innovation_type: iv_type,
                innovation_id: old(self).next_innovation() as i64,
                neuron_in: _in,
                neuron_out: out,
                neuron_id: if iv_type == InnovationType::NewNeuron {
                    old(self).next_neuron() as i64
                } else {
                    0
                },
                neuron_type: NeuronType::Hidden,
                split_x: 0,
                split_y: 0,
            }),
            final(self).next_innovation() == old(self).next_innovation() + 1,
            final(self).next_neuron() == old(self).next_neuron() + if iv_type
                == InnovationType::NewNeuron {
                1int
            } else {
                0int
            },
            r == final(self).next_neuron() - 1,
            forall|a: int, b: int| old(self).wf(a, b) ==> final(self).wf(a, b),
    {
        let new_neuron = iv_type == InnovationType::NewNeuron;
        let mut new_innov = SInnovation::new(_in, out, iv_type, self.next_innovation_num);
        if new_neuron {
            new_innov.neuron_id = self.next_neuron_id;
            self.next_neuron_id = self.next_neuron_id + 1;
        }
        self.innovs.push(new_innov);
        self.next_innovation_num = self.next_innovation_num + 1;
        proof {
            assert forall|a: int, b: int| old(self).wf(a, b) implies self.wf(a, b) by {
                lemma_wf_push(*old(self), *self, a, b);
            }
        }
        self.next_neuron_id - 1
    }

    /// Records a new structural event together with the layout coordinates of
    /// the neuron it produces, so the neuron can later be rebuilt from the
    /// history alone.
    pub fn create_new_innovation_with_pos(
        &mut self,
        from: i64,
        to: i64,
        iv_type: InnovationType,
        neuron_type: NeuronType,
        x: i64,
        y: i64,
    ) -> (r: i64)
        requires
            0 <= old(self).next_innovation(),
            old(self).next_innovation() + 1 < 0x1000_0000_0000_0000,
            0 <= old(self).next_neuron(),
            old(self).next_neuron() + 1 < 0x1000_0000_0000_0000,
            -1 <= from,
            -1 <= to,
        ensures
            final(self).records() == old(self).records().push(SInnovation {
                innovation_type: iv_type,
                innovation_id: old(self).next_innovation() as i64,
                neuron_in: from,
                neuron_out: to,
                neuron_id: if iv_type == InnovationType::NewNeuron {
                    old(self).next_neuron() as i64
                } else {
                    0
                },
                neuron_type: neuron_type,
                split_x: x,
                split_y: y,
            }),
            final(self).next_innovation() == old(self).next_innovation() + 1,
            final(self).next_neuron() == old(self).next_neuron() + if iv_type
                == InnovationType::NewNeuron {
                1int
            } else {
                0int
            },
            r == final(self).next_neuron() - 1,
            forall|a: int, b: int|
                old(self).wf(a, b) && (iv_type == InnovationType::NewNeuron ==> neuron_type
                    == type_for_id(old(self).next_neuron(), a, b) && 0 <= x <= SCALE && 0 <= y
                    <= SCALE) ==> final(self).wf(a, b),
    {
        let new_neuron = iv_type == InnovationType::NewNeuron;
        let mut new_innov = SInnovation::with_split(
            from,
            to,
            iv_type,
            self.next_innovation_num,
            neuron_type,
            x,
            y,
        );
        if new_neuron {
            new_innov.neuron_id = self.next_neuron_id;
            self.next_neuron_id = self.next_neuron_id + 1;
        }
        self.innovs.push(new_innov);
        self.next_innovation_num = self.next_innovation_num + 1;
        proof {
            assert forall|a: int, b: int|
                old(self).wf(a, b) && (iv_type == InnovationType::NewNeuron ==> neuron_type
                    == type_for_id(old(self).next_neuron(), a, b) && 0 <= x <= SCALE && 0 <= y
                    <= SCALE) implies self.wf(a, b) by {
                lemma_wf_push(*old(self), *self, a, b);
            }
        }
        self.next_neuron_id - 1
    }

    /// The id the next recorded event will receive.
    pub fn next_number(&self) -> (r: i64)
        ensures
            r == self.next_innovation(),
    {
        self.next_innovation_num
    }

    /// The neuron id stored on record `inv`.
    pub fn get_neuron_id(&self, inv: i64) -> (r: i64)
        requires
            0 <= inv < self.records().len(),
        ensures
            r == self.records()[inv as int].neuron_id,
    {
        let n = self.innovs.len();
        proof {
            assert(inv < n);
        }
        self.innovs[inv as usize].neuron_id
    }

    /// Rebuilds a neuron gene from the oldest record that carries its id; a
    /// hidden placeholder with id 0 when no record does.
    pub fn create_neuron_from_id(&self, neuron_id: i64) -> (r: NeuronGene)
        ensures
            r.recurrent == false,
            r.activation_response == SCALE,
            forall|n_in: int, n_out: int|
                self.wf(n_in, n_out) && 0 <= neuron_id < self.next_neuron() ==> {
                    let w = first_rec_idx(self.records(), 0, neuron_id as int);
                    &&& 0 <= w < self.records().len()
                    &&& r == (NeuronGene {
                        id: neuron_id,
                        neuron_type: self.records()[w].neuron_type,
                        recurrent: false,
                        activation_response: SCALE,
                        split_y: self.records()[w].split_y,
                        split_x: self.records()[w].split_x,
                    })
                    &&& r.neuron_type == type_for_id(neuron_id as int, n_in, n_out)
                    &&& 0 <= r.split_x <= SCALE
                    &&& 0 <= r.split_y <= SCALE
                },
    {
        let mut temp = NeuronGene::new(NeuronType::Hidden, 0, 0, 0, false);
        let mut k: usize = 0;
        let mut found: bool = false;
        while k < self.innovs.len() && !found
            invariant
                0 <= k <= self.innovs@.len(),
                !found ==> forall|i: int|
                    0 <= i < k ==> (#[trigger] self.innovs@[i]).neuron_id != neuron_id,
                !found ==> temp == (NeuronGene {
                    id: 0,
                    neuron_type: NeuronType::Hidden,
                    recurrent: false,
                    activation_response: SCALE,
                    split_y: 0,
                    split_x: 0,
                }),
                found ==> exists|i: int|
                    0 <= i < k && (#[trigger] self.innovs@[i]).neuron_id == neuron_id
                        && (forall|j: int| 0 <= j < i ==> (#[trigger] self.innovs@[j]).neuron_id != neuron_id)
                        && temp == (NeuronGene {
                        id: self.innovs@[i].neuron_id,
                        neuron_type: self.innovs@[i].neuron_type,
                        recurrent: false,
                        activation_response: SCALE,
                        split_y: self.innovs@[i].split_y,
                        split_x: self.innovs@[i].split_x,
                    }),
            decreases self.innovs@.len() - k,
        {
            let inv = &self.innovs[k];
            if inv.neuron_id == neuron_id {
                temp.neuron_type = inv.neuron_type;
                temp.id = inv.neuron_id;
                temp.split_x = inv.split_x;
                temp.split_y = inv.split_y;
                found = true;
                proof {
                    assert(0 <= k < self.innovs@.len() && self.innovs@[k as int].neuron_id
                        == neuron_id && (forall|j: int|
                        0 <= j < k ==> (#[trigger] self.innovs@[j]).neuron_id != neuron_id));
                }
            }
            k = k + 1;
        }
        proof {
            assert forall|n_in: int, n_out: int|
                self.wf(n_in, n_out) && 0 <= neuron_id < self.next_neuron() implies {
                let w = first_rec_idx(self.records(), 0, neuron_id as int);
                &&& 0 <= w < self.records().len()
                &&& temp == (NeuronGene {
                    id: neuron_id,
                    neuron_type: self.records()[w].neuron_type,
                    recurrent: false,
                    activation_response: SCALE,
                    split_y: self.records()[w].split_y,
                    split_x: self.records()[w].split_x,
                })
                &&& temp.neuron_type == type_for_id(neuron_id as int, n_in, n_out)
                &&& 0 <= temp.split_x <= SCALE
                &&& 0 <= temp.split_y <= SCALE
            } by {
                lemma_neuron_record_exists(self.innovs@, self.innovs@.len() as int, neuron_id as int);
                let w = choose|w: int|
                    0 <= w < self.innovs@.len() && (#[trigger] self.innovs@[w]).innovation_type
                        == InnovationType::NewNeuron && self.innovs@[w].neuron_id == neuron_id;
                assert(found) by {
                    if !found {
                        assert(self.innovs@[w].neuron_id != neuron_id);
                    }
                }
                let i = choose|i: int|
                    0 <= i < self.innovs@.len() && (#[trigger] self.innovs@[i]).neuron_id
                        == neuron_id && (forall|j: int|
                        0 <= j < i ==> (#[trigger] self.innovs@[j]).neuron_id != neuron_id)
                        && temp == (NeuronGene {
                        id: self.innovs@[i].neuron_id,
                        neuron_type: self.innovs@[i].neuron_type,
                        recurrent: false,
                        activation_response: SCALE,
                        split_y: self.innovs@[i].split_y,
                        split_x: self.innovs@[i].split_x,
                    });
                lemma_first_rec_idx_found(self.innovs@, 0, i, neuron_id as int);
                // The first record carrying this id is a new-neuron record:
                // new-link records all carry neuron id 0, and for id 0 the
                // very first record of the history is the neuron itself.
                if self.innovs@[i].innovation_type == InnovationType::NewLink {
                    assert(self.innovs@[i].neuron_id == 0);
                    assert(neuron_id == 0);
                    assert(self.innovs@[0].neuron_id == 0);
                    assert(i == 0);
                    assert(false);
                }
                assert(rec_ok(self.innovs@[i], n_in, n_out));
            }
        }
        temp
    }

    /// Clears the whole history, for a restarted run.
    pub fn flush(&mut self)
        ensures
            final(self).records().len() == 0,
            final(self).next_neuron() == old(self).next_neuron(),
            final(self).next_innovation() == old(self).next_innovation(),
    {
        self.innovs.clear();
    }
}


/// At most one neuron id is handed out per record.
pub proof fn lemma_neurons_before_le(s: Seq<SInnovation>, i: int)
    requires
        0 <= i <= s.len(),
    ensures
        neurons_before(s, i) <= i,
    decreases i,
{
    if i > 0 {
        lemma_neurons_before_le(s, i - 1);
    }
}

/// The new-neuron count grows with the prefix length.
pub proof fn lemma_neurons_before_mono(s: Seq<SInnovation>, i: int, j: int)
    requires
        0 <= i <= j <= s.len(),
    ensures
        neurons_before(s, i) <= neurons_before(s, j),
    decreases j - i,
{
    if i < j {
        lemma_neurons_before_mono(s, i, j - 1);
    }
}

/// Over a prefix of new-neuron records the count equals the length.
proof fn lemma_neurons_before_all(s: Seq<SInnovation>, i: int)
    requires
        0 <= i <= s.len(),
        forall|k: int|
            0 <= k < i ==> (#[trigger] s[k]).innovation_type == InnovationType::NewNeuron,
    ensures
        neurons_before(s, i) == i,
    decreases i,
{
    if i > 0 {
        lemma_neurons_before_all(s, i - 1);
    }
}

/// A stretch without new-neuron records leaves the count unchanged.
proof fn lemma_neurons_before_flat(s: Seq<SInnovation>, j: int, i: int)
    requires
        0 <= j <= i <= s.len(),
        forall|k: int|
            j <= k < i ==> (#[trigger] s[k]).innovation_type != InnovationType::NewNeuron,
    ensures
        neurons_before(s, i) == neurons_before(s, j),
    decreases i - j,
{
    if j < i {
        lemma_neurons_before_flat(s, j, i - 1);
    }
}

/// Appending one correctly numbered record keeps a history well-formed.
proof fn lemma_wf_push(t1: Innovation, t2: Innovation, a: int, b: int)
    requires
        t1.wf(a, b),
        t2.records().len() == t1.records().len() + 1,
        t2.records() == t1.records().push(t2.records().last()),
        t2.records().last().innovation_id == t1.records().len(),
        rec_ok(t2.records().last(), a, b),
        t2.records().last().innovation_type == InnovationType::NewNeuron
            ==> t2.records().last().neuron_id == t1.next_neuron(),
        t2.next_innovation() == t1.next_innovation() + 1,
        t2.next_neuron() == t1.next_neuron() + if t2.records().last().innovation_type
            == InnovationType::NewNeuron {
            1int
        } else {
            0int
        },
        t2.records().len() < 0x1000_0000_0000_0000,
    ensures
        t2.wf(a, b),
{
    let s1 = t1.records();
    let s2 = t2.records();
    let n = s1.len() as int;
    assert(s2.subrange(0, n) =~= s1);
    assert forall|i: int| 0 <= i <= n implies neurons_before(s2, i) == neurons_before(s1, i) by {
        lemma_neurons_before_prefix(s1, s2, i);
    }
    assert(neurons_before(s2, n + 1) == neurons_before(s2, n) + if s2[n].innovation_type
        == InnovationType::NewNeuron {
        1int
    } else {
        0int
    });
    assert forall|i: int|
        0 <= i < s2.len() && (#[trigger] s2[i]).innovation_type == InnovationType::NewNeuron
            implies s2[i].neuron_id == neurons_before(s2, i) by {
        if i < n {
            assert(s2[i] == s1[i]);
        }
    }
    assert forall|i: int|
        0 <= i < s2.len() && (#[trigger] s2[i]).innovation_type == InnovationType::NewNeuron
            && s2[i].neuron_id <= a + b implies s2[i].neuron_in == -1 && s2[i].neuron_out
        == -1 by {
        if i < n {
            assert(s2[i] == s1[i]);
        }
    }
}

/// A first match with no earlier match is what `first_rec_idx` returns.
proof fn lemma_first_rec_idx_found(s: Seq<SInnovation>, i: int, w: int, id: int)
    requires
        0 <= i <= w < s.len(),
        s[w].neuron_id == id,
        forall|j: int| i <= j < w ==> (#[trigger] s[j]).neuron_id != id,
    ensures
        first_rec_idx(s, i, id) == w,
    decreases w - i,
{
    if i < w {
        lemma_first_rec_idx_found(s, i + 1, w, id);
    }
}

/// Every neuron id below the allocator's next value has a new-neuron record.
proof fn lemma_neuron_record_exists(s: Seq<SInnovation>, n: int, id: int)
    requires
        0 <= n <= s.len(),
        forall|i: int|
            0 <= i < s.len() && (#[trigger] s[i]).innovation_type == InnovationType::NewNeuron
                ==> s[i].neuron_id == neurons_before(s, i),
        0 <= id < neurons_before(s, n),
    ensures
        exists|i: int|
            0 <= i < n && (#[trigger] s[i]).innovation_type == InnovationType::NewNeuron
                && s[i].neuron_id == id,
    decreases n,
{
    if n > 0 {
        if s[n - 1].innovation_type == InnovationType::NewNeuron && neurons_before(s, n - 1) == id {
            assert(s[n - 1].neuron_id == id);
        } else {
            assert(neurons_before(s, n - 1) > id || s[n - 1].innovation_type
                != InnovationType::NewNeuron);
            lemma_neuron_record_exists(s, n - 1, id);
        }
    }
}

/// Appending records never changes the id the history assigns to an event it
/// already knows: structurally identical mutations made by different genomes
/// in the same generation converge to one innovation id.
pub proof fn lemma_check_stable(s1: Seq<SInnovation>, s2: Seq<SInnovation>, _in: int, out: int, ty: InnovationType)
    requires
        s1.len() <= s2.len(),
        s2.subrange(0, s1.len() as int) == s1,
        check_spec(s1, _in, out, ty) != -1,
    ensures
        check_spec(s2, _in, out, ty) == check_spec(s1, _in, out, ty),
{
    lemma_check_from_stable(s1, s2, 0, _in, out, ty);
}

proof fn lemma_check_from_stable(
    s1: Seq<SInnovation>,
    s2: Seq<SInnovation>,
    i: int,
    _in: int,
    out: int,
    ty: InnovationType,
)
    requires
        s1.len() <= s2.len(),
        s2.subrange(0, s1.len() as int) == s1,
        0 <= i,
        check_from(s1, i, _in, out, ty) != -1,
    ensures
        check_from(s2, i, _in, out, ty) == check_from(s1, i, _in, out, ty),
    decreases s1.len() - i,
{
    if i < s1.len() {
        assert(s2[i] == s2.subrange(0, s1.len() as int)[i]);
        if rec_matches(s1[i], _in, out, ty) {
        } else {
            lemma_check_from_stable(s1, s2, i + 1, _in, out, ty);
        }
    }
}

/// A freshly recorded event is found by a later lookup: recording appends a
/// matching record, and when no older record matched, the lookup returns
/// exactly the id the recording handed out.
pub proof fn lemma_check_finds_created(s: Seq<SInnovation>, r: SInnovation, _in: int, out: int, ty: InnovationType)
    requires
        forall|k: int| 0 <= k < s.len() ==> (#[trigger] s[k]).innovation_id == k,
        check_spec(s, _in, out, ty) == -1,
        rec_matches(r, _in, out, ty),
    ensures
        check_spec(s.push(r), _in, out, ty) == r.innovation_id,
{
    lemma_check_from_finds(s, r, 0, _in, out, ty);
}

proof fn lemma_check_from_finds(
    s: Seq<SInnovation>,
    r: SInnovation,
    i: int,
    _in: int,
    out: int,
    ty: InnovationType,
)
    requires
        forall|k: int| 0 <= k < s.len() ==> (#[trigger] s[k]).innovation_id == k,
        0 <= i <= s.len(),
        check_from(s, i, _in, out, ty) == -1,
        rec_matches(r, _in, out, ty),
    ensures
        check_from(s.push(r), i, _in, out, ty) == r.innovation_id,
    decreases s.len() - i,
{
    if i < s.len() {
        assert(s.push(r)[i] == s[i]);
        lemma_check_from_finds(s, r, i + 1, _in, out, ty);
    } else {
        assert(s.push(r)[i] == r);
    }
}

/// A non-negative lookup names a matching record at that very index.
pub proof fn lemma_check_found(s: Seq<SInnovation>, _in: int, out: int, ty: InnovationType)
    requires
        forall|i: int| 0 <= i < s.len() ==> (#[trigger] s[i]).innovation_id == i,
        check_spec(s, _in, out, ty) != -1,
    ensures
        0 <= check_spec(s, _in, out, ty) < s.len(),
        rec_matches(s[check_spec(s, _in, out, ty)], _in, out, ty),
{
    lemma_check_from_found(s, 0, _in, out, ty);
}

proof fn lemma_check_from_found(s: Seq<SInnovation>, i: int, _in: int, out: int, ty: InnovationType)
    requires
        forall|k: int| 0 <= k < s.len() ==> (#[trigger] s[k]).innovation_id == k,
        0 <= i,
        check_from(s, i, _in, out, ty) != -1,
    ensures
        0 <= check_from(s, i, _in, out, ty) < s.len(),
        rec_matches(s[check_from(s, i, _in, out, ty)], _in, out, ty),
    decreases s.len() - i,
{
    if i < s.len() {
        if rec_matches(s[i], _in, out, ty) {
        } else {
            lemma_check_from_found(s, i + 1, _in, out, ty);
        }
    }
}

/// A prefix sees the same new-neuron count however the longer history goes on.
pub proof fn lemma_neurons_before_prefix(s1: Seq<SInnovation>, s2: Seq<SInnovation>, i: int)
    requires
        s1.len() <= s2.len(),
        s2.subrange(0, s1.len() as int) == s1,
        0 <= i <= s1.len(),
    ensures
        neurons_before(s2, i) == neurons_before(s1, i),
    decreases i,
{
    if i > 0 {
        assert(s2[i - 1] == s2.subrange(0, s1.len() as int)[i - 1]);
        lemma_neurons_before_prefix(s1, s2, i - 1);
    }
}

} // verus!
