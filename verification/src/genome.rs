//! The genotype: an individual's neuron and link genes, its fitness records,
//! its mutation operators and its compatibility distance.
use vstd::prelude::*;

verus! {

use crate::genes::{LinkGene, NeuronGene, NeuronType, InnovationType, Innovation, type_for_id,
    lemma_check_found};
use crate::params::{SCALE, RESP_MIN, RESP_CAP, WEIGHT_CAP, FIT_CAP, ADJ_CAP, SPAWN_CAP, IO_CAP};
use crate::phenotype::{NeuralNet, Neuron, Link, net_neuron_ok, link_pos_ok, leading_inputs, is_leading, lemma_leading};
use crate::utils::{random_unit, random_clamped, random_usize, random_int, clamp, clamp_spec, sqrt_usize};
use vstd::multiset::Multiset;

/// No two link genes of one genome may connect the same ordered pair of
/// neurons.
pub open spec fn edge_unique(links: Seq<LinkGene>) -> bool {
    forall|i: int, j: int|
        0 <= i < j < links.len() ==> !((#[trigger] links[i]).from_neuron == (#[trigger] links[j]).from_neuron
            && links[i].to_neuron == links[j].to_neuron)
}

/// Whether some neuron gene carries the id.
pub open spec fn has_neuron_id(ns: Seq<NeuronGene>, id: int) -> bool {
    exists|i: int| 0 <= i < ns.len() && (#[trigger] ns[i]).id == id
}

/// All neuron gene ids are distinct.
pub open spec fn neuron_ids_distinct(ns: Seq<NeuronGene>) -> bool {
    forall|i: int, j: int| 0 <= i < j < ns.len() ==> (#[trigger] ns[i]).id != (#[trigger] ns[j]).id
}

/// Validity of one link gene: endpoints are neuron ids, the target is never
/// an input or the bias, weight and innovation id are bounded.
pub open spec fn link_gene_ok(l: LinkGene, n_in: int) -> bool {
    &&& 0 <= l.from_neuron
    &&& n_in < l.to_neuron
    &&& -WEIGHT_CAP <= l.weight <= WEIGHT_CAP
    &&& 0 <= l.innovation_id
}

/// Validity of one neuron gene: its role is the one its id denotes, and its
/// response and layout coordinates are bounded.
pub open spec fn neuron_gene_ok(n: NeuronGene, n_in: int, n_out: int) -> bool {
    &&& 0 <= n.id
    &&& n.neuron_type == type_for_id(n.id as int, n_in, n_out)
    &&& RESP_MIN <= n.activation_response <= RESP_CAP
    &&& 0 <= n.split_x <= SCALE
    &&& 0 <= n.split_y <= SCALE
}

/// An individual: its id, its genes, its fitness records, and an optionally
/// materialized phenotype.
pub struct Genome {
    pub genome_id: i64,
    pub neurons: Vec<NeuronGene>,
    pub links: Vec<LinkGene>,
    pub phenotype: NeuralNet,
    pub fitness: i64,
    pub adjusted_fitness: i64,
    pub amount_to_spawn: i64,
    pub num_inputs: usize,
    pub num_outputs: usize,
    pub species: i64,
}

impl Genome {
    /// The genome's invariant, preserved by every mutation operator.
    pub open spec fn wf(self) -> bool {
        &&& 1 <= self.num_inputs
        &&& 1 <= self.num_outputs
        &&& self.num_inputs + self.num_outputs <= IO_CAP
        &&& 1 <= self.links@.len() < 0x1000_0000_0000_0000
        &&& 1 <= self.neurons@.len() < 0x1000_0000_0000_0000
        &&& edge_unique(self.links@)
        &&& neuron_ids_distinct(self.neurons@)
        &&& forall|i: int|
            0 <= i < self.links@.len() ==> link_gene_ok(
                #[trigger] self.links@[i],
                self.num_inputs as int,
            )
        &&& forall|i: int|
            0 <= i < self.links@.len() ==> has_neuron_id(
                self.neurons@,
                (#[trigger] self.links@[i]).from_neuron as int,
            ) && has_neuron_id(self.neurons@, self.links@[i].to_neuron as int)
        &&& forall|i: int|
            0 <= i < self.neurons@.len() ==> neuron_gene_ok(
                #[trigger] self.neurons@[i],
                self.num_inputs as int,
                self.num_outputs as int,
            )
        &&& 0 <= self.fitness <= FIT_CAP
        &&& 0 <= self.adjusted_fitness <= ADJ_CAP
        &&& 0 <= self.amount_to_spawn <= SPAWN_CAP
    }

    /// Every neuron id of the genome lies below `nn` (the innovation
    /// history's neuron id allocator).
    pub open spec fn ids_below(self, nn: int) -> bool {
        forall|i: int| 0 <= i < self.neurons@.len() ==> (#[trigger] self.neurons@[i]).id < nn
    }

    /// Everything but the gene lists and the phenotype.
    pub open spec fn same_scalars(self, other: Genome) -> bool {
        &&& self.genome_id == other.genome_id
        &&& self.fitness == other.fitness
        &&& self.adjusted_fitness == other.adjusted_fitness
        &&& self.amount_to_spawn == other.amount_to_spawn
        &&& self.num_inputs == other.num_inputs
        &&& self.num_outputs == other.num_outputs
        &&& self.species == other.species
    }

    /// An empty placeholder genome (not a valid individual).
    pub fn new() -> (g: Genome)
        ensures
            g.genome_id == 0,
            g.neurons@.len() == 0,
            g.links@.len() == 0,
            g.fitness == 0,
            g.adjusted_fitness == 0,
            g.amount_to_spawn == 0,
            g.num_inputs == 0,
            g.num_outputs == 0,
            g.species == 0,
            g.phenotype.neurons@.len() == 0,
    {
        Genome {
            genome_id: 0,
            neurons: Vec::new(),
            links: Vec::new(),
            phenotype: NeuralNet::empty(),
            fitness: 0,
            adjusted_fitness: 0,
            amount_to_spawn: 0,
            num_inputs: 0,
            num_outputs: 0,
            species: 0,
        }
    }

    /// A minimal genome: input, bias and output neurons, and a link with a
    /// random weight in `(-1, 1)` from every input and from the bias to every
    /// output.
    pub fn minimal(id: i64, inputs: usize, outputs: usize) -> (g: Genome)
        requires
            1 <= inputs,
            1 <= outputs,
            inputs + outputs <= IO_CAP,
        ensures
            g.wf(),
            g.genome_id == id,
            g.num_inputs == inputs,
            g.num_outputs == outputs,
            g.fitness == 0,
            g.adjusted_fitness == 0,
            g.amount_to_spawn == 0,
            g.species == 0,
            g.phenotype.neurons@.len() == 0,
            g.phenotype.outputs@.len() == 0,
            g.phenotype.depth == 0,
            g.neurons@.len() == inputs + outputs + 1,
            g.links@.len() == (inputs + 1) * (outputs as int),
            forall|i: int| 0 <= i < g.neurons@.len() ==> (#[trigger] g.neurons@[i]).id == i,
            forall|i: int|
                0 <= i < inputs ==> #[trigger] g.neurons@[i] == (NeuronGene {
                    id: i as i64,
                    neuron_type: NeuronType::Input,
                    recurrent: false,
                    activation_response: SCALE,
                    split_y: 0,
                    split_x: ((i + 2) * (SCALE as int / (inputs + 2))) as i64,
                }),
            g.neurons@[inputs as int] == (NeuronGene {
                id: inputs as i64,
                neuron_type: NeuronType::Bias,
                recurrent: false,
                activation_response: SCALE,
                split_y: 0,
                split_x: (SCALE as int / (inputs + 2)) as i64,
            }),
            forall|j: int|
                0 <= j < outputs ==> #[trigger] g.neurons@[inputs + 1 + j] == (NeuronGene {
                    id: (inputs + 1 + j) as i64,
                    neuron_type: NeuronType::Output,
                    recurrent: false,
                    activation_response: SCALE,
                    split_y: SCALE,
                    split_x: ((j + 1) * (SCALE as int / (outputs + 1))) as i64,
                }),
            forall|k: int|
                0 <= k < g.links@.len() ==> {
                    let l = #[trigger] g.links@[k];
                    &&& l.from_neuron == k / (outputs as int)
                    &&& l.to_neuron == inputs + 1 + k % (outputs as int)
                    &&& l.enabled == true
                    &&& l.recurrent == false
                    &&& l.innovation_id == inputs + outputs + 1 + k
                    &&& -SCALE < l.weight < SCALE
                },
            g.ids_below(inputs + outputs + 1),
    {
        let mut neurons: Vec<NeuronGene> = Vec::new();
        let input_row_slice: i64 = SCALE / (inputs as i64 + 2);
        proof {
            assert(0 <= input_row_slice <= SCALE) by (nonlinear_arith)
                requires
                    input_row_slice == SCALE as int / (inputs + 2),
                    inputs >= 1,
                    SCALE == 1048576,
            ;
        }
        let mut i: usize = 0;
        while i < inputs
            invariant
                0 <= i <= inputs,
                1 <= inputs,
                inputs + outputs <= IO_CAP,
                neurons@.len() == i,
                input_row_slice == SCALE as int / (inputs + 2),
                0 <= input_row_slice <= SCALE,
                forall|k: int|
                    0 <= k < i ==> #[trigger] neurons@[k] == (NeuronGene {
                        id: k as i64,
                        neuron_type: NeuronType::Input,
                        recurrent: false,
                        activation_response: SCALE,
                        split_y: 0,
                        split_x: ((k + 2) * input_row_slice) as i64,
                    }),
                forall|k: int| 0 <= k < i ==> 0 <= (#[trigger] neurons@[k]).split_x <= SCALE,
            decreases inputs - i,
        {
            proof {
                assert(0 <= ((i + 2) as int) * input_row_slice <= SCALE) by (nonlinear_arith)
                    requires
                        input_row_slice == SCALE as int / (inputs + 2),
                        0 <= i < inputs,
                        inputs + 2 <= 0x10_0000,
                        SCALE == 1048576,
                ;
            }
            neurons.push(NeuronGene::new(
                NeuronType::Input,
                i as i64,
                0,
                (i as i64 + 2) * input_row_slice,
                false,
            ));
            i = i + 1;
        }
        neurons.push(NeuronGene::new(NeuronType::Bias, inputs as i64, 0, input_row_slice, false));
        let output_row_slice: i64 = SCALE / (outputs as i64 + 1);
        proof {
            assert(0 <= output_row_slice <= SCALE) by (nonlinear_arith)
                requires
                    output_row_slice == SCALE as int / (outputs + 1),
                    outputs >= 1,
                    SCALE == 1048576,
            ;
        }
        let mut j: usize = 0;
        while j < outputs
            invariant
                0 <= j <= outputs,
                1 <= inputs,
                1 <= outputs,
                inputs + outputs <= IO_CAP,
                neurons@.len() == inputs + 1 + j,
                input_row_slice == SCALE as int / (inputs + 2),
                output_row_slice == SCALE as int / (outputs + 1),
                0 <= output_row_slice <= SCALE,
                forall|k: int| 0 <= k < inputs + 1 + j ==> (#[trigger] neurons@[k]).id == k,
                forall|k: int|
                    0 <= k < inputs + 1 + j ==> neuron_gene_ok(
                        #[trigger] neurons@[k],
                        inputs as int,
                        outputs as int,
                    ),
                forall|k: int|
                    0 <= k < inputs ==> #[trigger] neurons@[k] == (NeuronGene {
                        id: k as i64,
                        neuron_type: NeuronType::Input,
                        recurrent: false,
                        activation_response: SCALE,
                        split_y: 0,
                        split_x: ((k + 2) * input_row_slice) as i64,
                    }),
                neurons@[inputs as int] == (NeuronGene {
                    id: inputs as i64,
                    neuron_type: NeuronType::Bias,
                    recurrent: false,
                    activation_response: SCALE,
                    split_y: 0,
                    split_x: input_row_slice as i64,
                }),
                forall|k: int|
                    0 <= k < j ==> #[trigger] neurons@[inputs + 1 + k] == (NeuronGene {
                        id: (inputs + 1 + k) as i64,
                        neuron_type: NeuronType::Output,
                        recurrent: false,
                        activation_response: SCALE,
                        split_y: SCALE,
                        split_x: ((k + 1) * output_row_slice) as i64,
                    }),
            decreases outputs - j,
        {
            proof {
                assert(0 <= ((j + 1) as int) * output_row_slice <= SCALE) by (nonlinear_arith)
                    requires
                        output_row_slice == SCALE as int / (outputs + 1),
                        0 <= j < outputs,
                        outputs + 1 <= 0x10_0000,
                        SCALE == 1048576,
                ;
            }
            neurons.push(NeuronGene::new(
                NeuronType::Output,
                (j + inputs + 1) as i64,
                SCALE,
                (j as i64 + 1) * output_row_slice,
                false,
            ));
            j = j + 1;
        }
        let mut links: Vec<LinkGene> = Vec::new();
        let mut a: usize = 0;
        while a < inputs + 1
            invariant
                0 <= a <= inputs + 1,
                1 <= inputs,
                1 <= outputs,
                inputs + outputs <= IO_CAP,
                neurons@.len() == inputs + outputs + 1,
                forall|k: int| 0 <= k < neurons@.len() ==> (#[trigger] neurons@[k]).id == k,
                links@.len() == a * (outputs as int),
                forall|k: int|
                    0 <= k < links@.len() ==> {
                        let l = #[trigger] links@[k];
                        &&& l.from_neuron == k / (outputs as int)
                        &&& l.to_neuron == inputs + 1 + k % (outputs as int)
                        &&& l.enabled == true
                        &&& l.recurrent == false
                        &&& l.innovation_id == inputs + outputs + 1 + k
                        &&& -SCALE < l.weight < SCALE
                    },
            decreases inputs + 1 - a,
        {
            let mut b: usize = 0;
            while b < outputs
                invariant
                    0 <= b <= outputs,
                    0 <= a <= inputs,
                    1 <= inputs,
                    1 <= outputs,
                    inputs + outputs <= IO_CAP,
                    neurons@.len() == inputs + outputs + 1,
                    forall|k: int| 0 <= k < neurons@.len() ==> (#[trigger] neurons@[k]).id == k,
                    links@.len() == a * (outputs as int) + b,
                    forall|k: int|
                        0 <= k < links@.len() ==> {
                            let l = #[trigger] links@[k];
                            &&& l.from_neuron == k / (outputs as int)
                            &&& l.to_neuron == inputs + 1 + k % (outputs as int)
                            &&& l.enabled == true
                            &&& l.recurrent == false
                            &&& l.innovation_id == inputs + outputs + 1 + k
                            &&& -SCALE < l.weight < SCALE
                        },
                decreases outputs - b,
            {
                proof {
                    assert(a * (outputs as int) + b < (inputs + 1) * (outputs as int)
                        && (inputs + 1) * (outputs as int) <= 0x100_0000) by (nonlinear_arith)
                        requires
                            0 <= a <= inputs,
                            0 <= b < outputs,
                            inputs + outputs <= IO_CAP,
                            IO_CAP == 1000,
                    ;
                }
                let k = links.len();
                let w = random_clamped();
                links.push(LinkGene::new(
                    a as i64,
                    (inputs + b + 1) as i64,
                    true,
                    (inputs + outputs + 1 + k) as i64,
                    w,
                ));
                proof {
                    vstd::arithmetic::div_mod::lemma_fundamental_div_mod_converse(
                        k as int,
                        outputs as int,
                        a as int,
                        b as int,
                    );
                }
                b = b + 1;
            }
            proof {
                assert((a as int) * (outputs as int) + (outputs as int) == ((a + 1) as int) * (
                outputs as int)) by (nonlinear_arith);
            }
            a = a + 1;
        }
        let g = Genome {
            genome_id: id,
            neurons,
            links,
            phenotype: NeuralNet::empty(),
            fitness: 0,
            adjusted_fitness: 0,
            amount_to_spawn: 0,
            num_inputs: inputs,
            num_outputs: outputs,
            species: 0,
        };
        proof {
            assert forall|x: int, y: int| 0 <= x < y < g.links@.len() implies !((#[trigger] g.links@[x]).from_neuron
                == (#[trigger] g.links@[y]).from_neuron && g.links@[x].to_neuron
                == g.links@[y].to_neuron) by {
                if g.links@[x].from_neuron == g.links@[y].from_neuron && g.links@[x].to_neuron
                    == g.links@[y].to_neuron {
                    vstd::arithmetic::div_mod::lemma_fundamental_div_mod(x, outputs as int);
                    vstd::arithmetic::div_mod::lemma_fundamental_div_mod(y, outputs as int);
                }
            }
            assert forall|i2: int| 0 <= i2 < g.links@.len() implies has_neuron_id(
                g.neurons@,
                (#[trigger] g.links@[i2]).from_neuron as int,
            ) && has_neuron_id(g.neurons@, g.links@[i2].to_neuron as int) by {
                let f = g.links@[i2].from_neuron as int;
                let t = g.links@[i2].to_neuron as int;
                assert(0 <= f < g.neurons@.len()) by (nonlinear_arith)
                    requires
                        f == i2 / (outputs as int),
                        0 <= i2 < (inputs + 1) * (outputs as int),
                        1 <= outputs,
                        g.neurons@.len() == inputs + outputs + 1,
                ;
                assert(g.neurons@[f].id == f);
                assert(0 <= t < g.neurons@.len()) by (nonlinear_arith)
                    requires
                        t == inputs + 1 + i2 % (outputs as int),
                        0 <= i2,
                        1 <= outputs,
                        g.neurons@.len() == inputs + outputs + 1,
                ;
                assert(g.neurons@[t].id == t);
            }
            assert(1 <= (inputs + 1) * (outputs as int) <= 0x100_0000) by (nonlinear_arith)
                requires
                    1 <= inputs,
                    1 <= outputs,
                    inputs + outputs <= 1000,
            ;
            assert forall|i2: int| 0 <= i2 < g.links@.len() implies link_gene_ok(
                #[trigger] g.links@[i2],
                inputs as int,
            ) by {
                assert(0 <= i2 / (outputs as int) && 0 <= i2 % (outputs as int))
                    by (nonlinear_arith)
                    requires
                        0 <= i2,
                        1 <= outputs,
                ;
            }
        }
        g
    }


    /// A genome assembled from prepared neuron and link gene lists.
    pub fn from(
        id: i64,
        neurons: Vec<NeuronGene>,
        genes: Vec<LinkGene>,
        inputs: usize,
        outputs: usize,
    ) -> (g: Genome)
        ensures
            g.genome_id == id,
            g.neurons@ == neurons@,
            g.links@ == genes@,
            g.fitness == 0,
            g.adjusted_fitness == 0,
            g.amount_to_spawn == 0,
            g.num_inputs == inputs,
            g.num_outputs == outputs,
            g.species == 0,
            g.phenotype.neurons@.len() == 0,
            g.phenotype.outputs@.len() == 0,
            g.phenotype.depth == 0,
    {
        Genome {
            genome_id: id,
            neurons,
            links: genes,
            phenotype: NeuralNet::empty(),
            fitness: 0,
            adjusted_fitness: 0,
            amount_to_spawn: 0,
            num_inputs: inputs,
            num_outputs: outputs,
            species: 0,
        }
    }

    /// The layout depth of the neuron at position `val`.
    pub fn split_y(&self, val: i64) -> (r: i64)
        requires
            0 <= val < self.neurons@.len(),
        ensures
            r == self.neurons@[val as int].split_y,
    {
        let n = self.neurons.len();
        self.neurons[val as usize].split_y
    }

    pub fn amount_to_spawn(&self) -> (r: i64)
        ensures
            r == self.amount_to_spawn,
    {
        self.amount_to_spawn
    }

    pub fn genes(&self) -> (r: &Vec<LinkGene>)
        ensures
            r@ == self.links@,
    {
        &self.links
    }

    pub fn neurons(&self) -> (r: &Vec<NeuronGene>)
        ensures
            r@ == self.neurons@,
    {
        &self.neurons
    }

    pub fn num_genes(&self) -> (r: usize)
        ensures
            r == self.links@.len(),
    {
        self.links.len()
    }

    pub fn fitness(&self) -> (r: i64)
        ensures
            r == self.fitness,
    {
        self.fitness
    }

    pub fn set_fitness(&mut self, score: i64)
        requires
            0 <= score <= FIT_CAP,
        ensures
            *final(self) == (Genome { fitness: score, ..*old(self) }),
    {
        self.fitness = score;
    }

    pub fn num_inputs(&self) -> (r: usize)
        ensures
            r == self.num_inputs,
    {
        self.num_inputs
    }

    pub fn num_neurons(&self) -> (r: usize)
        ensures
            r == self.neurons@.len(),
    {
        self.neurons.len()
    }

    pub fn num_outputs(&self) -> (r: usize)
        ensures
            r == self.num_outputs,
    {
        self.num_outputs
    }

    pub fn set_adj_fitness(&mut self, num: i64)
        requires
            0 <= num <= ADJ_CAP,
        ensures
            *final(self) == (Genome { adjusted_fitness: num, ..*old(self) }),
    {
        self.adjusted_fitness = num;
    }

    pub fn get_adj_fitness(&self) -> (r: i64)
        ensures
            r == self.adjusted_fitness,
    {
        self.adjusted_fitness
    }

    pub fn set_amount_to_spawn(&mut self, num: i64)
        requires
            0 <= num <= SPAWN_CAP,
        ensures
            *final(self) == (Genome { amount_to_spawn: num, ..*old(self) }),
    {
        self.amount_to_spawn = num;
    }

    pub fn id(&self) -> (r: i64)
        ensures
            r == self.genome_id,
    {
        self.genome_id
    }

    pub fn set_id(&mut self, id: i64)
        ensures
            *final(self) == (Genome { genome_id: id, ..*old(self) }),
    {
        self.genome_id = id;
    }

    pub fn set_species(&mut self, species: i64)
        ensures
            *final(self) == (Genome { species: species, ..*old(self) }),
    {
        self.species = species;
    }

    pub fn get_species(&self) -> (r: i64)
        ensures
            r == self.species,
    {
        self.species
    }

    /// Whether a link with exactly this direction already exists.
    fn duplicate_link(&self, neuron_in: i64, neuron_out: i64) -> (r: bool)
        ensures
            r == exists|i: int|
                0 <= i < self.links@.len() && (#[trigger] self.links@[i]).from_neuron == neuron_in
                    && self.links@[i].to_neuron == neuron_out,
    {
        let n = self.links.len();
        let mut k: usize = 0;
        while k < n
            invariant
                0 <= k <= n,
                n == self.links@.len(),
                forall|i: int|
                    0 <= i < k ==> !((#[trigger] self.links@[i]).from_neuron == neuron_in
                        && self.links@[i].to_neuron == neuron_out),
            decreases n - k,
        {
            if self.links[k].from_neuron == neuron_in && self.links[k].to_neuron == neuron_out {
                return true;
            }
            k = k + 1;
        }
        false
    }

    /// The position of the neuron gene carrying `neuron_id`.
    fn get_element_pos(&self, neuron_id: i64) -> (r: usize)
        requires
            has_neuron_id(self.neurons@, neuron_id as int),
        ensures
            r < self.neurons@.len(),
            self.neurons@[r as int].id == neuron_id,
    {
        let n = self.neurons.len();
        let mut k: usize = 0;
        while k < n
            invariant
                0 <= k <= n,
                n == self.neurons@.len(),
                has_neuron_id(self.neurons@, neuron_id as int),
                forall|i: int| 0 <= i < k ==> (#[trigger] self.neurons@[i]).id != neuron_id,
            decreases n - k,
        {
            if self.neurons[k].id == neuron_id {
                return k;
            }
            k = k + 1;
        }
        proof {
            assert(false);
        }
        0
    }

    /// Whether the genome already holds a neuron gene with this id.
    fn alerady_have_this_neuron_id(&self, id: i64) -> (r: bool)
        ensures
            r == has_neuron_id(self.neurons@, id as int),
    {
        let n = self.neurons.len();
        let mut k: usize = 0;
        while k < n
            invariant
                0 <= k <= n,
                n == self.neurons@.len(),
                forall|i: int| 0 <= i < k ==> (#[trigger] self.neurons@[i]).id != id,
            decreases n - k,
        {
            if self.neurons[k].id == id {
                return true;
            }
            k = k + 1;
        }
        false
    }
}


/// Link genes in non-increasing innovation-id order.
pub open spec fn sorted_desc(links: Seq<LinkGene>) -> bool {
    forall|i: int, j: int|
        0 <= i < j < links.len() ==> (#[trigger] links[i]).innovation_id
            >= (#[trigger] links[j]).innovation_id
}

/// Two distinct positions share a value exactly when the multiset holds it
/// at least twice.
proof fn lemma_two_indices(s: Seq<LinkGene>, v: LinkGene)
    requires
        s.to_multiset().count(v) >= 2,
    ensures
        exists|i: int, j: int| 0 <= i < j < s.len() && #[trigger] s[i] == v && #[trigger] s[j] == v,
{
    broadcast use vstd::seq_lib::group_to_multiset_ensures;

    assert(s.contains(v));
    let i = choose|i: int| 0 <= i < s.len() && s[i] == v;
    assert(s.remove(i).to_multiset() =~= s.to_multiset().remove(v));
    assert(s.remove(i).to_multiset().count(v) >= 1);
    assert(s.remove(i).contains(v));
    let k = choose|k: int| 0 <= k < s.remove(i).len() && s.remove(i)[k] == v;
    if k < i {
        assert(s[k] == v && s[i] == v);
    } else {
        assert(s[k + 1] == v && s[i] == v);
    }
}

/// Two distinct positions holding one value put it twice in the multiset.
proof fn lemma_count_two(s: Seq<LinkGene>, i: int, j: int)
    requires
        0 <= i < j < s.len(),
        s[i] == s[j],
    ensures
        s.to_multiset().count(s[i]) >= 2,
{
    broadcast use vstd::seq_lib::group_to_multiset_ensures;

    assert(s.remove(j).to_multiset() =~= s.to_multiset().remove(s[j]));
    assert(s.remove(j)[i] == s[i]);
    assert(s.remove(j).contains(s[i]));
    assert(s.remove(j).to_multiset().count(s[i]) >= 1);
}

/// Edge uniqueness, per-gene validity and endpoint existence survive any
/// permutation of the gene list.
proof fn lemma_links_wf_perm(s1: Seq<LinkGene>, s2: Seq<LinkGene>, ns: Seq<NeuronGene>, n_in: int)
    requires
        s1.to_multiset() == s2.to_multiset(),
        edge_unique(s1),
        forall|i: int| 0 <= i < s1.len() ==> link_gene_ok(#[trigger] s1[i], n_in),
        forall|i: int|
            0 <= i < s1.len() ==> has_neuron_id(ns, (#[trigger] s1[i]).from_neuron as int)
                && has_neuron_id(ns, s1[i].to_neuron as int),
    ensures
        edge_unique(s2),
        forall|i: int| 0 <= i < s2.len() ==> link_gene_ok(#[trigger] s2[i], n_in),
        forall|i: int|
            0 <= i < s2.len() ==> has_neuron_id(ns, (#[trigger] s2[i]).from_neuron as int)
                && has_neuron_id(ns, s2[i].to_neuron as int),
{
    broadcast use vstd::seq_lib::group_to_multiset_ensures;

    assert forall|i: int| 0 <= i < s2.len() implies link_gene_ok(#[trigger] s2[i], n_in)
        && has_neuron_id(ns, s2[i].from_neuron as int) && has_neuron_id(
        ns,
        s2[i].to_neuron as int,
    ) by {
        assert(s2.contains(s2[i]));
        assert(s1.to_multiset().count(s2[i]) > 0);
        assert(s1.contains(s2[i]));
        let k = choose|k: int| 0 <= k < s1.len() && s1[k] == s2[i];
        assert(link_gene_ok(s1[k], n_in));
    }
    assert forall|i: int, j: int| 0 <= i < j < s2.len() implies !((#[trigger] s2[i]).from_neuron
        == (#[trigger] s2[j]).from_neuron && s2[i].to_neuron == s2[j].to_neuron) by {
        if s2[i].from_neuron == s2[j].from_neuron && s2[i].to_neuron == s2[j].to_neuron {
            if s2[i] == s2[j] {
                lemma_count_two(s2, i, j);
                lemma_two_indices(s1, s2[i]);
            } else {
                assert(s2.contains(s2[i]) && s2.contains(s2[j]));
                assert(s2.to_multiset().count(s2[i]) > 0 && s2.to_multiset().count(s2[j]) > 0);
                assert(s1.contains(s2[i]) && s1.contains(s2[j]));
                let a = choose|a: int| 0 <= a < s1.len() && s1[a] == s2[i];
                let b = choose|b: int| 0 <= b < s1.len() && s1[b] == s2[j];
                assert(a != b);
                if a < b {
                    assert(!(s1[a].from_neuron == s1[b].from_neuron && s1[a].to_neuron
                        == s1[b].to_neuron));
                } else {
                    assert(!(s1[b].from_neuron == s1[a].from_neuron && s1[b].to_neuron
                        == s1[a].to_neuron));
                }
            }
        }
    }
}

/// Copies a gene list element by element.
fn copy_link_vec(v: &Vec<LinkGene>) -> (r: Vec<LinkGene>)
    ensures
        r@ == v@,
{
    let n = v.len();
    let mut r: Vec<LinkGene> = Vec::new();
    let mut k: usize = 0;
    while k < n
        invariant
            0 <= k <= n,
            n == v@.len(),
            r@ == v@.subrange(0, k as int),
        decreases n - k,
    {
        r.push(v[k]);
        k = k + 1;
    }
    proof {
        assert(v@.subrange(0, n as int) =~= v@);
    }
    r
}

/// Copies a neuron gene list element by element.
fn copy_neuron_vec(v: &Vec<NeuronGene>) -> (r: Vec<NeuronGene>)
    ensures
        r@ == v@,
{
    let n = v.len();
    let mut r: Vec<NeuronGene> = Vec::new();
    let mut k: usize = 0;
    while k < n
        invariant
            0 <= k <= n,
            n == v@.len(),
            r@ == v@.subrange(0, k as int),
        decreases n - k,
    {
        r.push(v[k]);
        k = k + 1;
    }
    proof {
        assert(v@.subrange(0, n as int) =~= v@);
    }
    r
}

impl Clone for Genome {
    /// A clone copies the genes and every scalar record; the phenotype is
    /// derived data and starts out empty on the copy.
    fn clone(&self) -> (r: Self)
        ensures
            r.links@ == self.links@,
            r.neurons@ == self.neurons@,
            r.same_scalars(*self),
            r.phenotype.neurons@.len() == 0,
            r.phenotype.outputs@.len() == 0,
            r.phenotype.depth == 0,
            self.wf() ==> r.wf(),
            forall|nn: int| self.ids_below(nn) ==> r.ids_below(nn),
    {
        Genome {
            genome_id: self.genome_id,
            neurons: copy_neuron_vec(&self.neurons),
            links: copy_link_vec(&self.links),
            phenotype: NeuralNet::empty(),
            fitness: self.fitness,
            adjusted_fitness: self.adjusted_fitness,
            amount_to_spawn: self.amount_to_spawn,
            num_inputs: self.num_inputs,
            num_outputs: self.num_outputs,
            species: self.species,
        }
    }
}

impl Genome {
    /// Re-sorts the link genes by innovation id, largest first, for canonical
    /// storage; a permutation of the gene list and nothing else changes.
    pub fn sort_genes(&mut self)
        ensures
            final(self).links@.to_multiset() == old(self).links@.to_multiset(),
            final(self).links@.len() == old(self).links@.len(),
            sorted_desc(final(self).links@),
            final(self).neurons@ == old(self).neurons@,
            final(self).phenotype == old(self).phenotype,
            final(self).same_scalars(*old(self)),
            old(self).wf() ==> final(self).wf(),
            forall|nn: int| old(self).ids_below(nn) ==> final(self).ids_below(nn),
    {
        broadcast use vstd::seq_lib::group_to_multiset_ensures;

        let n = self.links.len();
        let mut rest = copy_link_vec(&self.links);
        let mut sorted: Vec<LinkGene> = Vec::new();
        while rest.len() > 0
            invariant
                sorted@.len() + rest@.len() == n,
                n == old(self).links@.len(),
                sorted@.to_multiset().add(rest@.to_multiset()) == old(self).links@.to_multiset(),
                sorted_desc(sorted@),
                forall|i: int, j: int|
                    0 <= i < sorted@.len() && 0 <= j < rest@.len() ==> (#[trigger] sorted@[i]).innovation_id
                        >= (#[trigger] rest@[j]).innovation_id,
            decreases rest@.len(),
        {
            let mut m: usize = 0;
            let mut k: usize = 1;
            while k < rest.len()
                invariant
                    0 <= m < rest@.len(),
                    1 <= k <= rest@.len(),
                    forall|i: int|
                        0 <= i < k ==> (#[trigger] rest@[i]).innovation_id
                            <= rest@[m as int].innovation_id,
                decreases rest@.len() - k,
            {
                if rest[k].innovation_id > rest[m].innovation_id {
                    m = k;
                }
                k = k + 1;
            }
            let ghost rest_before = rest@;
            let ghost sorted_before = sorted@;
            let g = rest.remove(m);
            sorted.push(g);
            proof {
                broadcast use vstd::multiset::group_multiset_axioms;

                rest_before.to_multiset_ensures();
                sorted_before.to_multiset_ensures();
                assert(sorted@.to_multiset() =~= sorted_before.to_multiset().insert(g));
                assert(rest_before.contains(g));
                assert(rest_before.remove(m as int).to_multiset() =~= rest_before.to_multiset()
                    .remove(g));
                assert(rest_before.to_multiset().count(g) > 0);
                assert(sorted@.to_multiset().add(rest@.to_multiset()) =~= old(self).links@
                    .to_multiset());
                assert forall|j: int| 0 <= j < rest@.len() implies g.innovation_id
                    >= (#[trigger] rest@[j]).innovation_id by {
                    if j < m {
                        assert(rest@[j] == rest_before[j]);
                    } else {
                        assert(rest@[j] == rest_before[j + 1]);
                    }
                }
            }
        }
        proof {
            assert(rest@.to_multiset() =~= Multiset::<LinkGene>::empty());
            assert(sorted@.to_multiset().add(Multiset::<LinkGene>::empty()) =~= sorted@
                .to_multiset());
        }
        self.links = sorted;
        proof {
            vstd::seq_lib::to_multiset_len(old(self).links@);
            vstd::seq_lib::to_multiset_len(self.links@);
            if old(self).wf() {
                lemma_links_wf_perm(
                    old(self).links@,
                    self.links@,
                    self.neurons@,
                    self.num_inputs as int,
                );
            }
        }
    }
}

/// The gene-walk tallies of the compatibility distance, from positions
/// `(i, j)` on: genes past the other genome's end are excess, unmatched
/// innovation ids are disjoint, matched ids tally the weight difference.
/// Returns `(excess, disjoint, matched, weight_difference)`.
pub open spec fn compat_counts(a: Seq<LinkGene>, b: Seq<LinkGene>, i: int, j: int) -> (int, int, int, int)
    decreases a.len() + b.len() - i - j,
{
    if i < 0 || j < 0 || i > a.len() || j > b.len() || (i == a.len() && j == b.len()) {
        (0, 0, 0, 0)
    } else if i == a.len() {
        let r = compat_counts(a, b, i, j + 1);
        (r.0 + 1, r.1, r.2, r.3)
    } else if j == b.len() {
        let r = compat_counts(a, b, i + 1, j);
        (r.0 + 1, r.1, r.2, r.3)
    } else if a[i].innovation_id == b[j].innovation_id {
        let r = compat_counts(a, b, i + 1, j + 1);
        let d = if a[i].weight >= b[j].weight {
            a[i].weight - b[j].weight
        } else {
            b[j].weight - a[i].weight
        };
        (r.0, r.1, r.2 + 1, r.3 + d)
    } else if a[i].innovation_id < b[j].innovation_id {
        let r = compat_counts(a, b, i + 1, j);
        (r.0, r.1 + 1, r.2, r.3)
    } else {
        let r = compat_counts(a, b, i, j + 1);
        (r.0, r.1 + 1, r.2, r.3)
    }
}

/// The compatibility distance of two gene lists:
/// `excess/N + disjoint/N + 0.4 * weight_difference/matched` with `N` the
/// longer list's length; the weight term is 0 when nothing matched.
pub open spec fn compat_score(a: Seq<LinkGene>, b: Seq<LinkGene>) -> int {
    let c = compat_counts(a, b, 0, 0);
    let longest: int = if a.len() >= b.len() {
        a.len() as int
    } else {
        b.len() as int
    };
    (c.0 * SCALE) / longest + (c.1 * SCALE) / longest + if c.2 > 0 {
        (2 * c.3) / (5 * c.2)
    } else {
        0
    }
}

/// Walking a genome against itself matches every gene with itself: no excess,
/// no disjoint genes, and no weight difference.
proof fn lemma_compat_diag(a: Seq<LinkGene>, i: int)
    requires
        0 <= i <= a.len(),
    ensures
        compat_counts(a, a, i, i) == (0int, 0int, a.len() - i, 0int),
    decreases a.len() - i,
{
    if i < a.len() {
        lemma_compat_diag(a, i + 1);
    }
}

/// A genome is fully compatible with itself: its self-distance is zero.
pub proof fn lemma_compat_self(a: Seq<LinkGene>)
    requires
        a.len() >= 1,
    ensures
        compat_score(a, a) == 0,
{
    lemma_compat_diag(a, 0);
    let n = a.len() as int;
    assert((0int * SCALE) / n == 0) by (nonlinear_arith)
        requires
            n >= 1,
    ;
    assert((2int * 0int) / (5 * n) == 0) by (nonlinear_arith)
        requires
            n >= 1,
    ;
}

impl Genome {
    /// The compatibility distance to another genome; zero against itself.
    pub fn get_compatibility_score(&self, genome: &Genome) -> (r: i64)
        requires
            self.wf(),
            genome.wf(),
        ensures
            r == compat_score(self.links@, genome.links@),
            0 <= r,
    {
        let la = self.links.len();
        let lb = genome.links.len();
        let ghost a = self.links@;
        let ghost b = genome.links@;
        let mut num_disjoint: i64 = 0;
        let mut num_excess: i64 = 0;
        let mut num_matched: i64 = 0;
        let mut weight_difference: i128 = 0;
        let mut g1: usize = 0;
        let mut g2: usize = 0;
        while g1 < la || g2 < lb
            invariant
                a == self.links@,
                b == genome.links@,
                la == a.len(),
                lb == b.len(),
                la < 0x1000_0000_0000_0000,
                lb < 0x1000_0000_0000_0000,
                0 <= g1 <= la,
                0 <= g2 <= lb,
                forall|i: int| 0 <= i < la ==> -WEIGHT_CAP <= (#[trigger] a[i]).weight <= WEIGHT_CAP,
                forall|i: int| 0 <= i < lb ==> -WEIGHT_CAP <= (#[trigger] b[i]).weight <= WEIGHT_CAP,
                0 <= num_excess,
                0 <= num_disjoint,
                0 <= num_matched,
                num_excess + num_disjoint + num_matched <= g1 + g2,
                0 <= weight_difference,
                weight_difference <= (num_matched as int) * (2 * WEIGHT_CAP),
                compat_counts(a, b, 0, 0) == {
                    let r = compat_counts(a, b, g1 as int, g2 as int);
                    (
                        num_excess + r.0,
                        num_disjoint + r.1,
                        num_matched + r.2,
                        weight_difference + r.3,
                    )
                },
            decreases la - g1 + lb - g2,
        {
            if g1 == la {
                g2 = g2 + 1;
                num_excess = num_excess + 1;
            } else if g2 == lb {
                g1 = g1 + 1;
                num_excess = num_excess + 1;
            } else {
                let id1 = self.links[g1].innovation_id;
                let id2 = genome.links[g2].innovation_id;
                if id1 == id2 {
                    let wa = self.links[g1].weight;
                    let wb = genome.links[g2].weight;
                    let d: i128 = if wa >= wb {
                        (wa as i128) - (wb as i128)
                    } else {
                        (wb as i128) - (wa as i128)
                    };
                    proof {
                        assert((num_matched as int) * (2 * WEIGHT_CAP) + 2 * WEIGHT_CAP == ((
                        num_matched + 1) as int) * (2 * WEIGHT_CAP)) by (nonlinear_arith);
                        assert(((num_matched + 1) as int) * (2 * WEIGHT_CAP)
                            <= 0x4000_0000_0000_0000 * (2 * WEIGHT_CAP)) by (nonlinear_arith)
                            requires
                                num_matched + 1 <= 0x4000_0000_0000_0000,
                        ;
                    }
                    g1 = g1 + 1;
                    g2 = g2 + 1;
                    num_matched = num_matched + 1;
                    weight_difference = weight_difference + d;
                } else if id1 < id2 {
                    num_disjoint = num_disjoint + 1;
                    g1 = g1 + 1;
                } else {
                    num_disjoint = num_disjoint + 1;
                    g2 = g2 + 1;
                }
            }
        }
        let longest: i64 = if la >= lb {
            la as i64
        } else {
            lb as i64
        };
        proof {
            assert(longest >= 1);
            assert(num_excess + num_disjoint <= 2 * longest);
        }
        let e_term: i128 = ((num_excess as i128) * (SCALE as i128)) / (longest as i128);
        let d_term: i128 = ((num_disjoint as i128) * (SCALE as i128)) / (longest as i128);
        let m_term: i128 = if num_matched > 0 {
            (2 * weight_difference) / (5 * (num_matched as i128))
        } else {
            0
        };
        proof {
            assert(0 <= e_term <= 2 * SCALE && 0 <= d_term <= 2 * SCALE) by (nonlinear_arith)
                requires
                    e_term == ((num_excess as int) * SCALE) / (longest as int),
                    d_term == ((num_disjoint as int) * SCALE) / (longest as int),
                    0 <= num_excess,
                    0 <= num_disjoint,
                    num_excess <= 2 * (longest as int),
                    num_disjoint <= 2 * (longest as int),
                    1 <= longest,
                    SCALE == 1048576,
            ;
            if num_matched > 0 {
                assert(0 <= m_term <= 2 * WEIGHT_CAP) by (nonlinear_arith)
                    requires
                        m_term == (2 * (weight_difference as int)) / (5 * (num_matched as int)),
                        0 <= weight_difference <= (num_matched as int) * (2 * WEIGHT_CAP),
                        1 <= num_matched,
                        WEIGHT_CAP == 16777216,
                ;
            }
        }
        (e_term + d_term + m_term) as i64
    }

    /// Mutates link weights: each gene independently keeps its weight with
    /// probability `1 - mut_rate`, is replaced by a fresh weight in `(-1, 1)`
    /// with probability `pro_new_mut`, and is otherwise perturbed by a random
    /// amount up to `max_pertubation`, clamped to the weight cap.
    pub fn mutate_weights(&mut self, mut_rate: i64, pro_new_mut: i64, max_pertubation: i64)
        requires
            old(self).wf(),
            0 <= max_pertubation <= SCALE,
        ensures
            final(self).wf(),
            final(self).links@.len() == old(self).links@.len(),
            forall|i: int|
                0 <= i < final(self).links@.len() ==> {
                    let l1 = #[trigger] old(self).links@[i];
                    let l2 = final(self).links@[i];
                    &&& l2.from_neuron == l1.from_neuron
                    &&& l2.to_neuron == l1.to_neuron
                    &&& l2.enabled == l1.enabled
                    &&& l2.recurrent == l1.recurrent
                    &&& l2.innovation_id == l1.innovation_id
                },
            forall|i: int|
                0 <= i < final(self).links@.len() ==> {
                    let w1 = (#[trigger] old(self).links@[i]).weight as int;
                    let w2 = final(self).links@[i].weight as int;
                    ||| w2 == w1
                    ||| -SCALE < w2 < SCALE
                    ||| exists|d: int|
                        -max_pertubation <= d <= max_pertubation && w2 == #[trigger] clamp_spec(
                            w1 + d,
                            -WEIGHT_CAP as int,
                            WEIGHT_CAP as int,
                        )
                },
            final(self).neurons@ == old(self).neurons@,
            final(self).phenotype == old(self).phenotype,
            final(self).same_scalars(*old(self)),
            forall|nn: int| old(self).ids_below(nn) ==> final(self).ids_below(nn),
    {
        let n = self.links.len();
        let mut k: usize = 0;
        while k < n
            invariant
                0 <= k <= n,
                n == self.links@.len(),
                n == old(self).links@.len(),
                0 <= max_pertubation <= SCALE,
                old(self).wf(),
                self.neurons@ == old(self).neurons@,
                self.phenotype == old(self).phenotype,
                self.same_scalars(*old(self)),
                self.num_inputs == old(self).num_inputs,
                forall|i: int|
                    0 <= i < n ==> {
                        let l1 = #[trigger] old(self).links@[i];
                        let l2 = self.links@[i];
                        &&& l2.from_neuron == l1.from_neuron
                        &&& l2.to_neuron == l1.to_neuron
                        &&& l2.enabled == l1.enabled
                        &&& l2.recurrent == l1.recurrent
                        &&& l2.innovation_id == l1.innovation_id
                    },
                forall|i: int|
                    0 <= i < n ==> -WEIGHT_CAP <= (#[trigger] self.links@[i]).weight <= WEIGHT_CAP,
                forall|i: int| k <= i < n ==> #[trigger] self.links@[i] == old(self).links@[i],
                forall|i: int|
                    0 <= i < n ==> {
                        let w1 = (#[trigger] old(self).links@[i]).weight as int;
                        let w2 = self.links@[i].weight as int;
                        ||| w2 == w1
                        ||| -SCALE < w2 < SCALE
                        ||| exists|d: int|
                            -max_pertubation <= d <= max_pertubation && w2 == #[trigger] clamp_spec(
                                w1 + d,
                                -WEIGHT_CAP as int,
                                WEIGHT_CAP as int,
                            )
                    },
            decreases n - k,
        {
            if random_unit() < mut_rate {
                let mut gene = self.links[k];
                if random_unit() < pro_new_mut {
                    gene.weight = random_clamped();
                } else {
                    let rc = random_clamped();
                    proof {
                        assert(-(SCALE as int) * SCALE <= (rc as int) * (max_pertubation as int)
                            <= (SCALE as int) * SCALE) by (nonlinear_arith)
                            requires
                                -SCALE < rc < SCALE,
                                0 <= max_pertubation <= SCALE,
                        ;
                        assert(-max_pertubation <= ((rc as int) * (max_pertubation as int)) / (
                        SCALE as int) <= max_pertubation) by (nonlinear_arith)
                            requires
                                -SCALE < rc < SCALE,
                                0 <= max_pertubation <= SCALE,
                                SCALE == 1048576,
                        ;
                    }
                    let delta: i128 = ((rc as i128) * (max_pertubation as i128)) / (SCALE as i128);
                    let mut w: i64 = gene.weight + (delta as i64);
                    clamp(&mut w, -WEIGHT_CAP, WEIGHT_CAP);
                    gene.weight = w;
                    proof {
                        assert(-max_pertubation <= delta as int <= max_pertubation && gene.weight
                            as int == clamp_spec(
                            old(self).links@[k as int].weight as int + delta as int,
                            -WEIGHT_CAP as int,
                            WEIGHT_CAP as int,
                        ));
                    }
                }
                self.links[k] = gene;
            }
            k = k + 1;
        }
        proof {
            assert forall|i: int, j: int| 0 <= i < j < self.links@.len() implies !((
            #[trigger] self.links@[i]).from_neuron == (#[trigger] self.links@[j]).from_neuron
                && self.links@[i].to_neuron == self.links@[j].to_neuron) by {
                assert(old(self).links@[i].from_neuron == self.links@[i].from_neuron);
                assert(old(self).links@[j].from_neuron == self.links@[j].from_neuron);
            }
            assert forall|i: int| 0 <= i < self.links@.len() implies link_gene_ok(
                #[trigger] self.links@[i],
                self.num_inputs as int,
            ) && has_neuron_id(self.neurons@, self.links@[i].from_neuron as int) && has_neuron_id(
                self.neurons@,
                self.links@[i].to_neuron as int,
            ) by {
                assert(link_gene_ok(old(self).links@[i], old(self).num_inputs as int));
                assert(has_neuron_id(old(self).neurons@, old(self).links@[i].from_neuron as int));
                assert(has_neuron_id(old(self).neurons@, old(self).links@[i].to_neuron as int));
            }
        }
    }

    /// Mutates activation responses: each neuron independently keeps its
    /// response with probability `1 - mut_rate` and is otherwise perturbed by
    /// a random amount up to `max_pertubation`, clamped to the response range.
    pub fn mutate_activation_response(&mut self, mut_rate: i64, max_pertubation: i64)
        requires
            old(self).wf(),
            0 <= max_pertubation <= SCALE,
        ensures
            final(self).wf(),
            final(self).neurons@.len() == old(self).neurons@.len(),
            forall|i: int|
                0 <= i < final(self).neurons@.len() ==> {
                    let n1 = #[trigger] old(self).neurons@[i];
                    let n2 = final(self).neurons@[i];
                    &&& n2.id == n1.id
                    &&& n2.neuron_type == n1.neuron_type
                    &&& n2.recurrent == n1.recurrent
                    &&& n2.split_y == n1.split_y
                    &&& n2.split_x == n1.split_x
                },
            forall|i: int|
                0 <= i < final(self).neurons@.len() ==> {
                    let r1 = (#[trigger] old(self).neurons@[i]).activation_response as int;
                    let r2 = final(self).neurons@[i].activation_response as int;
                    ||| r2 == r1
                    ||| exists|d: int|
                        -max_pertubation <= d <= max_pertubation && r2 == #[trigger] clamp_spec(
                            r1 + d,
                            RESP_MIN as int,
                            RESP_CAP as int,
                        )
                },
            final(self).links@ == old(self).links@,
            final(self).phenotype == old(self).phenotype,
            final(self).same_scalars(*old(self)),
            forall|nn: int| old(self).ids_below(nn) ==> final(self).ids_below(nn),
    {
        let n = self.neurons.len();
        let mut k: usize = 0;
        while k < n
            invariant
                0 <= k <= n,
                n == self.neurons@.len(),
                n == old(self).neurons@.len(),
                0 <= max_pertubation <= SCALE,
                old(self).wf(),
                self.links@ == old(self).links@,
                self.phenotype == old(self).phenotype,
                self.same_scalars(*old(self)),
                forall|i: int|
                    0 <= i < n ==> {
                        let n1 = #[trigger] old(self).neurons@[i];
                        let n2 = self.neurons@[i];
                        &&& n2.id == n1.id
                        &&& n2.neuron_type == n1.neuron_type
                        &&& n2.recurrent == n1.recurrent
                        &&& n2.split_y == n1.split_y
                        &&& n2.split_x == n1.split_x
                    },
                forall|i: int|
                    0 <= i < n ==> RESP_MIN <= (#[trigger] self.neurons@[i]).activation_response
                        <= RESP_CAP,
                forall|i: int| k <= i < n ==> #[trigger] self.neurons@[i] == old(self).neurons@[i],
                forall|i: int|
                    0 <= i < n ==> {
                        let r1 = (#[trigger] old(self).neurons@[i]).activation_response as int;
                        let r2 = self.neurons@[i].activation_response as int;
                        ||| r2 == r1
                        ||| exists|d: int|
                            -max_pertubation <= d <= max_pertubation && r2 == #[trigger] clamp_spec(
                                r1 + d,
                                RESP_MIN as int,
                                RESP_CAP as int,
                            )
                    },
            decreases n - k,
        {
            if random_unit() < mut_rate {
                let mut gene = self.neurons[k];
                let rc = random_clamped();
                proof {
                    assert(-(SCALE as int) * SCALE <= (rc as int) * (max_pertubation as int) <= (
                    SCALE as int) * SCALE) by (nonlinear_arith)
                        requires
                            -SCALE < rc < SCALE,
                            0 <= max_pertubation <= SCALE,
                    ;
                    assert(-max_pertubation <= ((rc as int) * (max_pertubation as int)) / (SCALE
                        as int) <= max_pertubation) by (nonlinear_arith)
                        requires
                            -SCALE < rc < SCALE,
                            0 <= max_pertubation <= SCALE,
                            SCALE == 1048576,
                    ;
                }
                let delta: i128 = ((rc as i128) * (max_pertubation as i128)) / (SCALE as i128);
                let mut resp: i64 = gene.activation_response + (delta as i64);
                clamp(&mut resp, RESP_MIN, RESP_CAP);
                gene.activation_response = resp;
                self.neurons[k] = gene;
                proof {
                    assert(-max_pertubation <= delta as int <= max_pertubation
                        && gene.activation_response as int == clamp_spec(
                        old(self).neurons@[k as int].activation_response as int + delta as int,
                        RESP_MIN as int,
                        RESP_CAP as int,
                    ));
                }
            }
            k = k + 1;
        }
        proof {
            assert forall|i: int, j: int| 0 <= i < j < self.neurons@.len() implies (
            #[trigger] self.neurons@[i]).id != (#[trigger] self.neurons@[j]).id by {
                assert(old(self).neurons@[i].id == self.neurons@[i].id);
                assert(old(self).neurons@[j].id == self.neurons@[j].id);
            }
            assert forall|i: int| 0 <= i < self.links@.len() implies has_neuron_id(
                self.neurons@,
                (#[trigger] self.links@[i]).from_neuron as int,
            ) && has_neuron_id(self.neurons@, self.links@[i].to_neuron as int) by {
                let f = self.links@[i].from_neuron as int;
                let t = self.links@[i].to_neuron as int;
                assert(has_neuron_id(old(self).neurons@, f));
                assert(has_neuron_id(old(self).neurons@, t));
                let fi = choose|fi: int|
                    0 <= fi < old(self).neurons@.len() && (#[trigger] old(self).neurons@[fi]).id
                        == f;
                assert(self.neurons@[fi].id == f);
                let ti = choose|ti: int|
                    0 <= ti < old(self).neurons@.len() && (#[trigger] old(self).neurons@[ti]).id
                        == t;
                assert(self.neurons@[ti].id == t);
            }
            assert forall|i: int| 0 <= i < self.neurons@.len() implies neuron_gene_ok(
                #[trigger] self.neurons@[i],
                self.num_inputs as int,
                self.num_outputs as int,
            ) by {
                assert(neuron_gene_ok(
                    old(self).neurons@[i],
                    old(self).num_inputs as int,
                    old(self).num_outputs as int,
                ));
            }
            assert forall|nn: int| old(self).ids_below(nn) implies self.ids_below(nn) by {
                assert forall|i: int| 0 <= i < self.neurons@.len() implies (
                #[trigger] self.neurons@[i]).id < nn by {
                    assert(old(self).neurons@[i].id < nn);
                }
            }
        }
    }
}


impl Genome {
    /// Adds one link gene, honoring the genome's edge-uniqueness invariant:
    /// with probability `chance_of_lopped` a self-loop on a hidden or output
    /// neuron not yet self-looped, otherwise a link between two distinct,
    /// unconnected neurons whose target is neither an input nor the bias.
    /// A no-op with probability `1 - mutation_rate` or when the bounded
    /// random search finds nothing eligible. The number of genes never
    /// shrinks, and existing genes keep their identity.
    pub fn add_link(
        &mut self,
        mutation_rate: i64,
        chance_of_lopped: i64,
        innovation: &mut Innovation,
        num_trys_to_find_loop: i64,
        num_trys_to_add_link: i64,
    )
        requires
            old(self).wf(),
            old(innovation).wf(old(self).num_inputs as int, old(self).num_outputs as int),
        ensures
            final(self).wf(),
            edge_unique(final(self).links@),
            final(innovation).wf(old(self).num_inputs as int, old(self).num_outputs as int),
            old(self).links@.len() <= final(self).links@.len() <= old(self).links@.len() + 1,
            final(self).links@.subrange(0, old(self).links@.len() as int) == old(self).links@,
            final(self).neurons@.len() == old(self).neurons@.len(),
            forall|i: int|
                0 <= i < old(self).neurons@.len() ==> {
                    let n1 = #[trigger] old(self).neurons@[i];
                    let n2 = final(self).neurons@[i];
                    n2 == n1 || n2 == (NeuronGene { recurrent: true, ..n1 })
                },
            final(self).phenotype == old(self).phenotype,
            final(self).same_scalars(*old(self)),
            final(innovation).records().subrange(0, old(innovation).records().len() as int)
                == old(innovation).records(),
            old(innovation).records().len() <= final(innovation).records().len(),
            final(innovation).next_neuron() == old(innovation).next_neuron(),
            old(innovation).next_innovation() <= final(innovation).next_innovation() <= old(
                innovation,
            ).next_innovation() + 1,
            forall|nn: int| old(self).ids_below(nn) ==> final(self).ids_below(nn),
    {
        let ghost n_in = old(self).num_inputs as int;
        let ghost n_out = old(self).num_outputs as int;
        if random_unit() > mutation_rate {
            proof {
                lemma_unchanged_prefixes(*self, *innovation);
            }
            return;
        }
        // Far from reachable in any real run; keeps every count representable.
        if (self.links.len() as u64) >= 0x0800_0000_0000_0000u64 || innovation.next_number()
            >= 0x0800_0000_0000_0000i64 {
            proof {
                lemma_unchanged_prefixes(*self, *innovation);
            }
            return;
        }
        let n_neurons = self.neurons.len();
        let mut id_neuron1: i64 = -1;
        let mut id_neuron2: i64 = -1;
        let mut recurrent = false;
        if random_unit() < chance_of_lopped {
            let mut trys = num_trys_to_find_loop;
            while trys > 0
                invariant
                    *innovation == *old(innovation),
                    self.links@ == old(self).links@,
                    self.phenotype == old(self).phenotype,
                    self.same_scalars(*old(self)),
                    self.wf(),
                    old(self).wf(),
                    n_in == self.num_inputs as int,
                    n_out == self.num_outputs as int,
                    old(self).links@.len() < 0x0800_0000_0000_0000,
                    innovation.next_innovation() < 0x0800_0000_0000_0000,
                    n_neurons == self.neurons@.len(),
                    self.neurons@.len() == old(self).neurons@.len(),
                    forall|i: int|
                        0 <= i < old(self).neurons@.len() ==> {
                            let n1 = #[trigger] old(self).neurons@[i];
                            let n2 = self.neurons@[i];
                            n2 == n1 || n2 == (NeuronGene { recurrent: true, ..n1 })
                        },
                    id_neuron1 == -1 && id_neuron2 == -1 && !recurrent || recurrent
                        && id_neuron1 == id_neuron2 && n_in < id_neuron1 && has_neuron_id(
                        self.neurons@,
                        id_neuron1 as int,
                    ) && !(exists|i: int|
                        0 <= i < self.links@.len() && (#[trigger] self.links@[i]).from_neuron
                            == id_neuron1 && self.links@[i].to_neuron == id_neuron2),
                decreases trys,
            {
                trys = trys - 1;
                let neuron_pos = random_usize(self.num_inputs + 1, n_neurons - 1);
                if neuron_pos < n_neurons && !self.neurons[neuron_pos].recurrent {
                    match self.neurons[neuron_pos].neuron_type {
                        NeuronType::Bias | NeuronType::Input => (),
                        _ => {
                            let cand = self.neurons[neuron_pos].id;
                            if !self.duplicate_link(cand, cand) {
                                id_neuron1 = cand;
                                id_neuron2 = cand;
                                let mut ng = self.neurons[neuron_pos];
                                ng.recurrent = true;
                                self.neurons[neuron_pos] = ng;
                                recurrent = true;
                                trys = 0;
                                proof {
                                    assert(neuron_gene_ok(
                                        old(self).neurons@[neuron_pos as int],
                                        n_in,
                                        n_out,
                                    ));
                                    assert(self.neurons@[neuron_pos as int].id == cand);
                                    assert forall|i: int, j: int|
                                        0 <= i < j < self.neurons@.len() implies (
                                    #[trigger] self.neurons@[i]).id != (
                                    #[trigger] self.neurons@[j]).id by {
                                        assert(old(self).neurons@[i].id == self.neurons@[i].id);
                                        assert(old(self).neurons@[j].id == self.neurons@[j].id);
                                    }
                                    assert forall|i: int|
                                        0 <= i < self.links@.len() implies has_neuron_id(
                                        self.neurons@,
                                        (#[trigger] self.links@[i]).from_neuron as int,
                                    ) && has_neuron_id(
                                        self.neurons@,
                                        self.links@[i].to_neuron as int,
                                    ) by {
                                        lemma_has_id_flags(
                                            old(self).neurons@,
                                            self.neurons@,
                                            self.links@[i].from_neuron as int,
                                        );
                                        lemma_has_id_flags(
                                            old(self).neurons@,
                                            self.neurons@,
                                            self.links@[i].to_neuron as int,
                                        );
                                    }
                                    assert forall|i: int|
                                        0 <= i < self.neurons@.len() implies neuron_gene_ok(
                                        #[trigger] self.neurons@[i],
                                        n_in,
                                        n_out,
                                    ) by {
                                        assert(neuron_gene_ok(old(self).neurons@[i], n_in, n_out));
                                    }
                                }
                            }
                        },
                    }
                }
            }
        } else {
            let mut trys = num_trys_to_add_link;
            while trys > 0
                invariant
                    *innovation == *old(innovation),
                    *self == *old(self),
                    self.wf(),
                    n_in == self.num_inputs as int,
                    n_out == self.num_outputs as int,
                    old(self).links@.len() < 0x0800_0000_0000_0000,
                    innovation.next_innovation() < 0x0800_0000_0000_0000,
                    n_neurons == self.neurons@.len(),
                    id_neuron1 == -1 && id_neuron2 == -1 || id_neuron1 >= 0 && id_neuron2 >= 0
                        && id_neuron1 != id_neuron2 && n_in < id_neuron2 && has_neuron_id(
                        self.neurons@,
                        id_neuron1 as int,
                    ) && has_neuron_id(self.neurons@, id_neuron2 as int) && !(exists|i: int|
                        0 <= i < self.links@.len() && (#[trigger] self.links@[i]).from_neuron
                            == id_neuron1 && self.links@[i].to_neuron == id_neuron2),
                    !recurrent,
                decreases trys,
            {
                trys = trys - 1;
                let p1 = random_usize(0, n_neurons - 1);
                let p2 = random_usize(self.num_inputs + 1, n_neurons - 1);
                if p1 < n_neurons && p2 < n_neurons {
                    let c1 = self.neurons[p1].id;
                    let c2 = self.neurons[p2].id;
                    match self.neurons[p2].neuron_type {
                        NeuronType::Bias | NeuronType::Input => {
                            id_neuron1 = -1;
                            id_neuron2 = -1;
                        },
                        _ => {
                            if !(self.duplicate_link(c1, c2) || c1 == c2) {
                                id_neuron1 = c1;
                                id_neuron2 = c2;
                                trys = 0;
                                proof {
                                    assert(neuron_gene_ok(self.neurons@[p2 as int], n_in, n_out));
                                }
                            } else {
                                id_neuron1 = -1;
                                id_neuron2 = -1;
                            }
                        },
                    }
                } else {
                    id_neuron1 = -1;
                    id_neuron2 = -1;
                }
            }
        }
        if id_neuron1 < 0 || id_neuron2 < 0 {
            proof {
                lemma_unchanged_prefixes(*self, *innovation);
                lemma_ids_below_flags(*old(self), *self);
            }
            return;
        }
        let id = innovation.check_innovation(id_neuron1, id_neuron2, InnovationType::NewLink);
        let pos1 = self.get_element_pos(id_neuron1);
        let pos2 = self.get_element_pos(id_neuron2);
        if self.neurons[pos1].split_y > self.neurons[pos2].split_y {
            recurrent = true;
        }
        let ghost links_before = self.links@;
        let ghost recs_before = innovation.records();
        proof {
            crate::genes::lemma_neurons_before_le(
                innovation.records(),
                innovation.records().len() as int,
            );
        }
        if id < 0 {
            innovation.create_new_innovation(id_neuron1, id_neuron2, InnovationType::NewLink);
            let tag = innovation.next_number() - 1;
            let new_gene = LinkGene::create(
                id_neuron1,
                id_neuron2,
                true,
                tag,
                random_clamped(),
                recurrent,
            );
            self.links.push(new_gene);
        } else {
            let new_gene = LinkGene::create(
                id_neuron1,
                id_neuron2,
                true,
                id,
                random_clamped(),
                recurrent,
            );
            proof {
                lemma_check_found(
                    innovation.records(),
                    id_neuron1 as int,
                    id_neuron2 as int,
                    InnovationType::NewLink,
                );
            }
            self.links.push(new_gene);
        }
        proof {
            assert(self.links@.subrange(0, links_before.len() as int) =~= links_before);
            assert(innovation.records().subrange(0, recs_before.len() as int) =~= recs_before);
            assert(self.links@.subrange(0, old(self).links@.len() as int) =~= old(self).links@);
            assert(innovation.records().subrange(0, old(innovation).records().len() as int)
                =~= old(innovation).records());
            let m = self.links@.len() - 1;
            assert forall|i: int, j: int| 0 <= i < j < self.links@.len() implies !((
            #[trigger] self.links@[i]).from_neuron == (#[trigger] self.links@[j]).from_neuron
                && self.links@[i].to_neuron == self.links@[j].to_neuron) by {
                if j < m {
                    assert(self.links@[i] == links_before[i] && self.links@[j] == links_before[j]);
                } else {
                    assert(self.links@[i] == links_before[i]);
                }
            }
            lemma_ids_below_flags(*old(self), *self);
        }
    }
}

/// A genome and a history trivially keep their own prefixes.
proof fn lemma_unchanged_prefixes(g: Genome, t: Innovation)
    ensures
        g.links@.subrange(0, g.links@.len() as int) == g.links@,
        t.records().subrange(0, t.records().len() as int) == t.records(),
{
    assert(g.links@.subrange(0, g.links@.len() as int) =~= g.links@);
    assert(t.records().subrange(0, t.records().len() as int) =~= t.records());
}

/// A genome whose neurons at most gained recurrent flags keeps every id bound.
proof fn lemma_ids_below_flags(g1: Genome, g2: Genome)
    requires
        g1.neurons@.len() == g2.neurons@.len(),
        forall|i: int|
            0 <= i < g1.neurons@.len() ==> {
                let n1 = #[trigger] g1.neurons@[i];
                let n2 = g2.neurons@[i];
                n2 == n1 || n2 == (NeuronGene { recurrent: true, ..n1 })
            },
    ensures
        forall|nn: int| g1.ids_below(nn) ==> g2.ids_below(nn),
{
    assert forall|nn: int| g1.ids_below(nn) implies g2.ids_below(nn) by {
        assert forall|i: int| 0 <= i < g2.neurons@.len() implies (#[trigger] g2.neurons@[i]).id
            < nn by {
            assert(g1.neurons@[i].id < nn);
        }
    }
}

/// Setting recurrent flags never changes which ids exist.
proof fn lemma_has_id_flags(ns1: Seq<NeuronGene>, ns2: Seq<NeuronGene>, id: int)
    requires
        ns1.len() == ns2.len(),
        forall|i: int|
            0 <= i < ns1.len() ==> (#[trigger] ns2[i]).id == (#[trigger] ns1[i]).id,
        has_neuron_id(ns1, id),
    ensures
        has_neuron_id(ns2, id),
{
    let i = choose|i: int| 0 <= i < ns1.len() && (#[trigger] ns1[i]).id == id;
    assert(ns2[i].id == id);
}


impl Genome {
    /// Splits an enabled, non-recurrent link whose source is not the bias:
    /// the link is disabled (never deleted), a hidden neuron is placed at the
    /// midpoint, and two links replace it, the incoming one with weight 1 and
    /// the outgoing one with the split link's weight. A prior identical split
    /// recorded in the history is reused verbatim unless the genome already
    /// holds that neuron. Small genomes search only among their older links;
    /// a no-op with probability `1 - mutation_rate` or when the bounded
    /// search finds nothing. The number of genes never shrinks.
    #[verifier::rlimit(80)]
    pub fn add_neuron(
        &mut self,
        mutation_rate: i64,
        innovations: &mut Innovation,
        num_trys_to_find_old_link: i64,
    )
        requires
            old(self).wf(),
            old(innovations).wf(old(self).num_inputs as int, old(self).num_outputs as int),
            old(self).ids_below(old(innovations).next_neuron()),
        ensures
            final(self).wf(),
            edge_unique(final(self).links@),
            final(innovations).wf(old(self).num_inputs as int, old(self).num_outputs as int),
            old(self).links@.len() <= final(self).links@.len() <= old(self).links@.len() + 2,
            forall|i: int|
                0 <= i < old(self).links@.len() ==> {
                    let l1 = #[trigger] old(self).links@[i];
                    let l2 = final(self).links@[i];
                    l2 == l1 || l2 == (LinkGene { enabled: false, ..l1 })
                },
            old(self).neurons@.len() <= final(self).neurons@.len() <= old(self).neurons@.len()
                + 1,
            final(self).neurons@.subrange(0, old(self).neurons@.len() as int) == old(
                self,
            ).neurons@,
            final(self).phenotype == old(self).phenotype,
            final(self).same_scalars(*old(self)),
            final(innovations).records().subrange(0, old(innovations).records().len() as int)
                == old(innovations).records(),
            old(innovations).records().len() <= final(innovations).records().len(),
            old(innovations).next_neuron() <= final(innovations).next_neuron(),
            final(self).ids_below(final(innovations).next_neuron()),
            (old(self).links@.len() < old(self).num_inputs + old(self).num_outputs + 5
                && num_trys_to_find_old_link <= 0) ==> *final(self) == *old(self)
                && *final(innovations) == *old(innovations),
    {
        let ghost n_in = old(self).num_inputs as int;
        let ghost n_out = old(self).num_outputs as int;
        if random_unit() > mutation_rate {
            proof {
                lemma_unchanged_prefixes_n(*self, *innovations);
            }
            return;
        }
        // Far from reachable in any real run; keeps every count representable.
        if (self.links.len() as u64) >= 0x0800_0000_0000_0000u64 || (self.neurons.len() as u64)
            >= 0x0800_0000_0000_0000u64 || innovations.next_number() >= 0x0800_0000_0000_0000i64 {
            proof {
                lemma_unchanged_prefixes_n(*self, *innovations);
            }
            return;
        }
        let mut done = false;
        let mut chosen_link: usize = 0;
        let size_threshold = self.num_inputs + self.num_outputs + 5;
        if self.links.len() < size_threshold {
            let mut trys = num_trys_to_find_old_link;
            while trys > 0
                invariant
                    *self == *old(self),
                    *innovations == *old(innovations),
                    self.wf(),
                    self.links@.len() < 0x0800_0000_0000_0000,
                    trys <= num_trys_to_find_old_link,
                    done ==> num_trys_to_find_old_link > 0,
                    done ==> chosen_link < self.links@.len() && self.links@[chosen_link as int].enabled
                        && !self.links@[chosen_link as int].recurrent,
                decreases trys,
            {
                trys = trys - 1;
                let ng = self.num_genes();
                let sq = sqrt_usize(&ng);
                proof {
                    assert(sq < 0x1_0000_0000) by (nonlinear_arith)
                        requires
                            (sq as int) * (sq as int) <= ng,
                            ng < 0x0800_0000_0000_0000,
                    ;
                }
                let hi: i64 = (ng as i64) - 1 - (sq as i64);
                let pick = random_int(0, hi);
                let cand: usize = if pick >= 0 {
                    pick as usize
                } else {
                    0
                };
                if cand < self.links.len() {
                    let from_neuron = self.links[cand].from_neuron;
                    let fpos = self.get_element_pos(from_neuron);
                    if self.links[cand].enabled && !self.links[cand].recurrent
                        && self.neurons[fpos].neuron_type != NeuronType::Bias {
                        chosen_link = cand;
                        done = true;
                        trys = 0;
                    }
                }
            }
            if !done {
                proof {
                    lemma_unchanged_prefixes_n(*self, *innovations);
                }
                return;
            }
        } else {
            let mut trys = num_trys_to_find_old_link;
            while !done && trys > 0
                invariant
                    *self == *old(self),
                    *innovations == *old(innovations),
                    self.wf(),
                    self.links@.len() < 0x0800_0000_0000_0000,
                    trys <= num_trys_to_find_old_link,
                    done ==> num_trys_to_find_old_link > 0,
                    done ==> chosen_link < self.links@.len() && self.links@[chosen_link as int].enabled
                        && !self.links@[chosen_link as int].recurrent,
                decreases trys,
            {
                trys = trys - 1;
                let cand = random_usize(0, self.num_genes() - 1);
                let from_neuron = self.links[cand].from_neuron;
                let fpos = self.get_element_pos(from_neuron);
                if self.links[cand].enabled && !self.links[cand].recurrent
                    && self.neurons[fpos].neuron_type != NeuronType::Bias {
                    chosen_link = cand;
                    done = true;
                }
            }
            if !done {
                proof {
                    lemma_unchanged_prefixes_n(*self, *innovations);
                }
                return;
            }
        }
        let mut chosen = self.links[chosen_link];
        chosen.enabled = false;
        self.links[chosen_link] = chosen;
        let original_weight = chosen.weight;
        let from = chosen.from_neuron;
        let to = chosen.to_neuron;
        let fpos = self.get_element_pos(from);
        let tpos = self.get_element_pos(to);
        let new_depth = (self.neurons[fpos].split_y + self.neurons[tpos].split_y) / 2;
        let new_width = (self.neurons[fpos].split_x + self.neurons[tpos].split_x) / 2;
        proof {
            assert(0 <= new_depth <= SCALE && 0 <= new_width <= SCALE);
        }
        let mut id = innovations.check_innovation(from, to, InnovationType::NewNeuron);
        proof {
            if id >= 0 {
                lemma_check_found(
                    innovations.records(),
                    from as int,
                    to as int,
                    InnovationType::NewNeuron,
                );
            }
        }
        if id >= 0 {
            let neuron_id = innovations.get_neuron_id(id);
            if self.alerady_have_this_neuron_id(neuron_id) {
                id = -1;
            }
        }
        let ghost links_mid = self.links@;
        let ghost neurons_mid = self.neurons@;
        let ghost recs_before = innovations.records();
        proof {
            crate::genes::lemma_neurons_before_le(recs_before, recs_before.len() as int);
        }
        if id < 0 {
            let new_neuron_id = innovations.create_new_innovation_with_pos(
                from,
                to,
                InnovationType::NewNeuron,
                NeuronType::Hidden,
                new_width,
                new_depth,
            );
            self.neurons.push(NeuronGene::new(
                NeuronType::Hidden,
                new_neuron_id,
                new_depth,
                new_width,
                false,
            ));
            let id_link1 = innovations.next_number();
            innovations.create_new_innovation(from, new_neuron_id, InnovationType::NewLink);
            self.links.push(LinkGene::new(from, new_neuron_id, true, id_link1, SCALE));
            let id_link2 = innovations.next_number();
            innovations.create_new_innovation(new_neuron_id, to, InnovationType::NewLink);
            self.links.push(LinkGene::new(new_neuron_id, to, true, id_link2, original_weight));
            proof {
                lemma_add_neuron_wf(
                    *old(self),
                    *self,
                    links_mid,
                    neurons_mid,
                    chosen_link as int,
                    new_neuron_id as int,
                    old(innovations).next_neuron(),
                );
                assert(innovations.records().subrange(0, recs_before.len() as int)
                    =~= recs_before);
                assert(self.neurons@.subrange(0, neurons_mid.len() as int) =~= neurons_mid);
            }
        } else {
            let new_neuron_id = innovations.get_neuron_id(id);
            proof {
                lemma_reused_neuron_id(*innovations, id as int, n_in, n_out);
            }
            let id_link1 = innovations.check_innovation(from, new_neuron_id, InnovationType::NewLink);
            let id_link2 = innovations.check_innovation(new_neuron_id, to, InnovationType::NewLink);
            if id_link1 < 0 || id_link2 < 0 {
                // the history should already hold both link innovations of a
                // recorded split; if not, skip the mutation entirely
                let mut restored = self.links[chosen_link];
                restored.enabled = true;
                self.links[chosen_link] = restored;
                proof {
                    assert(self.links@ =~= old(self).links@);
                    lemma_unchanged_prefixes_n(*self, *innovations);
                }
                return;
            }
            self.links.push(LinkGene::new(from, new_neuron_id, true, id_link1, SCALE));
            self.links.push(LinkGene::new(new_neuron_id, to, true, id_link2, original_weight));
            self.neurons.push(NeuronGene::new(
                NeuronType::Hidden,
                new_neuron_id,
                new_depth,
                new_width,
                false,
            ));
            proof {
                lemma_check_found(recs_before, from as int, new_neuron_id as int,
                    InnovationType::NewLink);
                lemma_check_found(recs_before, new_neuron_id as int, to as int,
                    InnovationType::NewLink);
                lemma_add_neuron_wf(
                    *old(self),
                    *self,
                    links_mid,
                    neurons_mid,
                    chosen_link as int,
                    new_neuron_id as int,
                    old(innovations).next_neuron(),
                );
                assert(innovations.records().subrange(0, recs_before.len() as int)
                    =~= recs_before);
                assert(self.neurons@.subrange(0, neurons_mid.len() as int) =~= neurons_mid);
            }
        }
    }
}

/// A genome and a history trivially keep their own prefixes (neuron lists
/// included).
proof fn lemma_unchanged_prefixes_n(g: Genome, t: Innovation)
    ensures
        g.links@.subrange(0, g.links@.len() as int) == g.links@,
        g.neurons@.subrange(0, g.neurons@.len() as int) == g.neurons@,
        t.records().subrange(0, t.records().len() as int) == t.records(),
{
    assert(g.links@.subrange(0, g.links@.len() as int) =~= g.links@);
    assert(g.neurons@.subrange(0, g.neurons@.len() as int) =~= g.neurons@);
    assert(t.records().subrange(0, t.records().len() as int) =~= t.records());
}

/// A reused split neuron has a fresh-style id: above the input, bias and
/// output block, and below the allocator's next value.
proof fn lemma_reused_neuron_id(t: Innovation, id: int, n_in: int, n_out: int)
    requires
        t.wf(n_in, n_out),
        0 <= id < t.records().len(),
        t.records()[id].innovation_type == InnovationType::NewNeuron,
        t.records()[id].neuron_in >= 0,
    ensures
        n_in + n_out < t.records()[id].neuron_id < t.next_neuron(),
        t.records()[id].neuron_type == NeuronType::Hidden,
{
    let s = t.records();
    let nid = s[id].neuron_id;
    assert(nid == crate::genes::neurons_before(s, id));
    crate::genes::lemma_neurons_before_mono(s, id + 1, s.len() as int);
    assert(crate::genes::neurons_before(s, id + 1) == nid + 1);
    assert(crate::genes::rec_ok(s[id], n_in, n_out));
    assert(nid > n_in + n_out) by {
        if nid <= n_in + n_out {
            assert(s[id].neuron_in == -1);
        }
    }
    assert(s[id].neuron_type == type_for_id(nid as int, n_in, n_out));
}

/// Re-establishes the genome invariant after a neuron split: one link was
/// disabled, a hidden neuron with a previously unused id was appended, and
/// the two replacement links were appended.
#[verifier::rlimit(80)]
proof fn lemma_add_neuron_wf(
    g1: Genome,
    g2: Genome,
    links_mid: Seq<LinkGene>,
    neurons_mid: Seq<NeuronGene>,
    chosen: int,
    new_id: int,
    next_before: int,
)
    requires
        g1.wf(),
        g1.ids_below(next_before),
        0 <= chosen < g1.links@.len(),
        links_mid == g1.links@.update(chosen, LinkGene { enabled: false, ..g1.links@[chosen] }),
        neurons_mid == g1.neurons@,
        g2.num_inputs == g1.num_inputs,
        g2.num_outputs == g1.num_outputs,
        g2.fitness == g1.fitness,
        g2.adjusted_fitness == g1.adjusted_fitness,
        g2.amount_to_spawn == g1.amount_to_spawn,
        g2.links@.len() == links_mid.len() + 2,
        g2.links@ == links_mid.push(g2.links@[links_mid.len() as int]).push(g2.links@[links_mid.len() as int + 1]),
        g2.links@[links_mid.len() as int] == (LinkGene {
            from_neuron: g1.links@[chosen].from_neuron,
            to_neuron: new_id as i64,
            weight: SCALE,
            enabled: true,
            recurrent: false,
            innovation_id: g2.links@[links_mid.len() as int].innovation_id,
        }),
        g2.links@[links_mid.len() as int + 1] == (LinkGene {
            from_neuron: new_id as i64,
            to_neuron: g1.links@[chosen].to_neuron,
            weight: g1.links@[chosen].weight,
            enabled: true,
            recurrent: false,
            innovation_id: g2.links@[links_mid.len() as int + 1].innovation_id,
        }),
        0 <= g2.links@[links_mid.len() as int].innovation_id,
        0 <= g2.links@[links_mid.len() as int + 1].innovation_id,
        g2.neurons@ == neurons_mid.push(NeuronGene {
            id: new_id as i64,
            neuron_type: NeuronType::Hidden,
            recurrent: false,
            activation_response: SCALE,
            split_y: g2.neurons@.last().split_y,
            split_x: g2.neurons@.last().split_x,
        }),
        0 <= g2.neurons@.last().split_y <= SCALE,
        0 <= g2.neurons@.last().split_x <= SCALE,
        g1.num_inputs + g1.num_outputs < new_id < 0x1000_0000_0000_0000,
        !has_neuron_id(g1.neurons@, new_id),
        next_before <= new_id || new_id < next_before && !has_neuron_id(g1.neurons@, new_id),
        g1.links@.len() + 2 < 0x1000_0000_0000_0000,
        g1.neurons@.len() + 1 < 0x1000_0000_0000_0000,
    ensures
        g2.wf(),
        forall|nn: int| nn > new_id && nn >= next_before ==> (g1.ids_below(next_before)
            ==> g2.ids_below(nn)),
{
    let n_in = g1.num_inputs as int;
    let n_out = g1.num_outputs as int;
    let la = links_mid.len() as int;
    assert forall|i: int| 0 <= i < g2.links@.len() implies link_gene_ok(
        #[trigger] g2.links@[i],
        n_in,
    ) by {
        if i < la {
            assert(g2.links@[i] == links_mid[i]);
            if i == chosen {
                assert(links_mid[i] == (LinkGene { enabled: false, ..g1.links@[chosen] }));
                assert(link_gene_ok(g1.links@[chosen], n_in));
            } else {
                assert(links_mid[i] == g1.links@[i]);
                assert(link_gene_ok(g1.links@[i], n_in));
            }
        } else {
            assert(link_gene_ok(g1.links@[chosen], n_in));
            if i == la {
                assert(g2.links@[i] == g2.links@[links_mid.len() as int]);
            } else {
                assert(i == la + 1);
                assert(g2.links@[i] == g2.links@[links_mid.len() as int + 1]);
            }
        }
    }
    assert forall|i: int, j: int| 0 <= i < j < g2.neurons@.len() implies (
    #[trigger] g2.neurons@[i]).id != (#[trigger] g2.neurons@[j]).id by {
        if j == g2.neurons@.len() - 1 {
            assert(g2.neurons@[i] == g1.neurons@[i]);
            if g2.neurons@[i].id == new_id {
                assert(has_neuron_id(g1.neurons@, new_id));
            }
        } else {
            assert(g2.neurons@[i] == g1.neurons@[i]);
            assert(g2.neurons@[j] == g1.neurons@[j]);
        }
    }
    // no existing link touches the new neuron id, since every endpoint names
    // an existing neuron gene
    assert forall|i: int| 0 <= i < la implies (#[trigger] links_mid[i]).from_neuron != new_id
        && links_mid[i].to_neuron != new_id by {
        let l0 = if i == chosen {
            g1.links@[chosen]
        } else {
            g1.links@[i]
        };
        assert(links_mid[i].from_neuron == l0.from_neuron && links_mid[i].to_neuron
            == l0.to_neuron);
        assert(has_neuron_id(g1.neurons@, g1.links@[i].from_neuron as int));
        assert(has_neuron_id(g1.neurons@, g1.links@[i].to_neuron as int));
        if l0.from_neuron == new_id || l0.to_neuron == new_id {
            assert(has_neuron_id(g1.neurons@, new_id));
        }
    }
    assert forall|i: int, j: int| 0 <= i < j < g2.links@.len() implies !((
    #[trigger] g2.links@[i]).from_neuron == (#[trigger] g2.links@[j]).from_neuron
        && g2.links@[i].to_neuron == g2.links@[j].to_neuron) by {
        if j < la {
            let a = if i == chosen { g1.links@[chosen] } else { g1.links@[i] };
            let b = if j == chosen { g1.links@[chosen] } else { g1.links@[j] };
            assert(g2.links@[i].from_neuron == a.from_neuron && g2.links@[i].to_neuron
                == a.to_neuron);
            assert(g2.links@[j].from_neuron == b.from_neuron && g2.links@[j].to_neuron
                == b.to_neuron);
        } else if j == la {
            if i < la {
                assert(links_mid[i].to_neuron != new_id);
            }
        } else {
            if i < la {
                assert(links_mid[i].from_neuron != new_id);
            } else {
                // (from, new) vs (new, to): from is an existing id, new is not
                assert(has_neuron_id(g1.neurons@, g1.links@[chosen].from_neuron as int));
                if g1.links@[chosen].from_neuron == new_id {
                    assert(has_neuron_id(g1.neurons@, new_id));
                }
            }
        }
    }
    assert forall|i: int| 0 <= i < g2.links@.len() implies has_neuron_id(
        g2.neurons@,
        (#[trigger] g2.links@[i]).from_neuron as int,
    ) && has_neuron_id(g2.neurons@, g2.links@[i].to_neuron as int) by {
        let nl = g2.neurons@.len() as int;
        assert(g2.neurons@[nl - 1].id == new_id);
        if i < la {
            let l0 = if i == chosen { g1.links@[chosen] } else { g1.links@[i] };
            assert(g2.links@[i].from_neuron == l0.from_neuron && g2.links@[i].to_neuron
                == l0.to_neuron);
            assert(has_neuron_id(g1.neurons@, g1.links@[i].from_neuron as int));
            let a = choose|a: int|
                0 <= a < g1.neurons@.len() && (#[trigger] g1.neurons@[a]).id
                    == g1.links@[i].from_neuron;
            assert(g2.neurons@[a].id == g1.links@[i].from_neuron);
            assert(has_neuron_id(g1.neurons@, g1.links@[i].to_neuron as int));
            let b = choose|b: int|
                0 <= b < g1.neurons@.len() && (#[trigger] g1.neurons@[b]).id
                    == g1.links@[i].to_neuron;
            assert(g2.neurons@[b].id == g1.links@[i].to_neuron);
        } else {
            assert(has_neuron_id(g1.neurons@, g1.links@[chosen].from_neuron as int));
            let a = choose|a: int|
                0 <= a < g1.neurons@.len() && (#[trigger] g1.neurons@[a]).id
                    == g1.links@[chosen].from_neuron;
            assert(g2.neurons@[a].id == g1.links@[chosen].from_neuron);
            assert(has_neuron_id(g1.neurons@, g1.links@[chosen].to_neuron as int));
            let b = choose|b: int|
                0 <= b < g1.neurons@.len() && (#[trigger] g1.neurons@[b]).id
                    == g1.links@[chosen].to_neuron;
            assert(g2.neurons@[b].id == g1.links@[chosen].to_neuron);
        }
    }
    assert forall|i: int| 0 <= i < g2.neurons@.len() implies neuron_gene_ok(
        #[trigger] g2.neurons@[i],
        n_in,
        n_out,
    ) by {
        if i < g2.neurons@.len() - 1 {
            assert(g2.neurons@[i] == neurons_mid[i]);
            assert(neurons_mid[i] == g1.neurons@[i]);
            assert(neuron_gene_ok(g1.neurons@[i], n_in, n_out));
        } else {
            assert(g2.neurons@[i] == g2.neurons@.last());
            assert(type_for_id(new_id, n_in, n_out) == NeuronType::Hidden);
        }
    }
    assert forall|nn: int|
        nn > new_id && nn >= next_before && g1.ids_below(next_before) implies g2.ids_below(
        nn,
    ) by {
        assert forall|i: int| 0 <= i < g2.neurons@.len() implies (#[trigger] g2.neurons@[i]).id
            < nn by {
            if i < g2.neurons@.len() - 1 {
                assert(g2.neurons@[i] == g1.neurons@[i]);
                assert(g1.neurons@[i].id < next_before);
            }
        }
    }
}


/// A bound on every neuron id stays a bound when it grows.
pub proof fn lemma_ids_below_mono(g: Genome, a: int, b: int)
    requires
        g.ids_below(a),
        a <= b,
    ensures
        g.ids_below(b),
{
    assert forall|q: int| 0 <= q < g.neurons@.len() implies (#[trigger] g.neurons@[q]).id < b by {
        assert(g.neurons@[q].id < a);
    }
}

/// The neuron order the evaluator uses: as stored when the inputs already
/// come first, otherwise reversed.
pub open spec fn oriented(ns: Seq<NeuronGene>) -> Seq<NeuronGene> {
    if ns.len() > 0 && ns[0].neuron_type == NeuronType::Input {
        ns
    } else {
        ns.reverse()
    }
}

/// At most `n_in` positions can open an input-typed prefix: input ids are
/// distinct values below `n_in`.
proof fn lemma_input_prefix_bound(or: Seq<NeuronGene>, lead: int, n_in: int, n_out: int)
    requires
        0 <= n_in,
        0 <= lead <= or.len(),
        forall|j: int| 0 <= j < lead ==> (#[trigger] or[j]).neuron_type == NeuronType::Input,
        forall|j: int| 0 <= j < or.len() ==> neuron_gene_ok(#[trigger] or[j], n_in, n_out),
        neuron_ids_distinct(or),
    ensures
        lead <= n_in,
{
    let ids = Seq::new(lead as nat, |j: int| or[j].id as int);
    assert(ids.no_duplicates()) by {
        assert forall|i: int, j: int| 0 <= i < ids.len() && 0 <= j < ids.len() && i != j
            implies ids[i] != ids[j] by {
            if i < j {
                assert(or[i].id != or[j].id);
            } else {
                assert(or[j].id != or[i].id);
            }
        }
    }
    ids.unique_seq_to_set();
    assert forall|x: int| ids.to_set().contains(x) implies vstd::set_lib::set_int_range(
        0,
        n_in,
    ).contains(x) by {
        let j = choose|j: int| 0 <= j < ids.len() && ids[j] == x;
        assert(or[j].neuron_type == NeuronType::Input);
        assert(or[j].neuron_type == type_for_id(or[j].id as int, n_in, n_out));
        assert(0 <= or[j].id < n_in);
    }
    vstd::set_lib::lemma_int_range(0, n_in);
    vstd::set_lib::lemma_len_subset(ids.to_set(), vstd::set_lib::set_int_range(0, n_in));
}


/// A network link at position `j` mirrors the link gene `g`: same weight and
/// recurrence, drawn from an enabled gene, and its endpoints name exactly the
/// gene's neurons under the evaluator ordering `or`.
pub open spec fn gene_link_match(or: Seq<NeuronGene>, j: int, l: crate::phenotype::Link, g: LinkGene) -> bool {
    &&& g.enabled
    &&& l.weight == g.weight
    &&& l.recurrent == g.recurrent
    &&& 0 <= l._in < or.len()
    &&& or[l._in as int].id == g.from_neuron
    &&& 0 <= j < or.len()
    &&& or[j].id == g.to_neuron
}

/// Every incoming link of the network corresponds to an enabled link gene.
pub open spec fn net_links_sound(bs: Seq<crate::phenotype::Neuron>, or: Seq<NeuronGene>, links: Seq<LinkGene>) -> bool {
    forall|j: int, k: int|
        0 <= j < bs.len() && 0 <= k < bs[j].links_in@.len() ==> {
            let l = #[trigger] bs[j].links_in@[k];
            &&& l.out == j
            &&& exists|q: int| 0 <= q < links.len() && gene_link_match(or, j, l, #[trigger] links[q])
        }
}

/// Every enabled link gene appears as an incoming link of its target neuron.
pub open spec fn net_links_complete(bs: Seq<crate::phenotype::Neuron>, or: Seq<NeuronGene>, links: Seq<LinkGene>) -> bool {
    forall|q: int|
        0 <= q < links.len() && (#[trigger] links[q]).enabled ==> exists|j: int, k: int|
            0 <= j < bs.len() && 0 <= k < bs[j].links_in@.len() && gene_link_match(
                or,
                j,
                #[trigger] bs[j].links_in@[k],
                links[q],
            )
}



/// The first `j` built neurons carry exactly the enabled link genes: every
/// stored link mirrors one, and every enabled gene targeting one of these
/// neurons is stored.
#[verifier::opaque]
pub open spec fn built_links_ok(
    bs: Seq<crate::phenotype::Neuron>,
    or: Seq<NeuronGene>,
    links: Seq<LinkGene>,
    j: int,
) -> bool {
    &&& forall|i: int, t: int|
        0 <= i < j && i < bs.len() && 0 <= t < bs[i].links_in@.len() ==> {
            let l = #[trigger] bs[i].links_in@[t];
            &&& l.out == i
            &&& exists|q: int| 0 <= q < links.len() && gene_link_match(or, i, l, #[trigger] links[q])
        }
    &&& forall|q: int, i: int|
        0 <= q < links.len() && 0 <= i < j && i < bs.len() && (#[trigger] links[q]).enabled && (
        #[trigger] or[i]).id == links[q].to_neuron ==> exists|t: int|
            0 <= t < bs[i].links_in@.len() && gene_link_match(or, i, bs[i].links_in@[t], links[q])
}

/// Appending a finished neuron keeps the built prefix's link faithfulness.
proof fn lemma_prefix_extend(
    neurons_old: Seq<crate::phenotype::Neuron>,
    neurons_new: Seq<crate::phenotype::Neuron>,
    or: Seq<NeuronGene>,
    links: Seq<LinkGene>,
    j: int,
    lin: Seq<crate::phenotype::Link>,
)
    requires
        0 <= j,
        neurons_old.len() == j,
        neurons_new.len() == j + 1,
        forall|i: int| 0 <= i < j ==> #[trigger] neurons_new[i] == neurons_old[i],
        neurons_new[j].links_in@ == lin,
        built_links_ok(neurons_old, or, links, j),
        forall|t: int|
            0 <= t < lin.len() ==> {
                let l = #[trigger] lin[t];
                &&& l.out == j
                &&& exists|q: int|
                    0 <= q < links.len() && gene_link_match(or, j, l, #[trigger] links[q])
            },
        forall|q: int|
            0 <= q < links.len() && (#[trigger] links[q]).enabled && or[j].id
                == links[q].to_neuron ==> exists|t: int|
                0 <= t < lin.len() && gene_link_match(or, j, lin[t], links[q]),
    ensures
        built_links_ok(neurons_new, or, links, j + 1),
{
    reveal(built_links_ok);
    assert forall|i: int, t: int|
        0 <= i < j + 1 && i < neurons_new.len() && 0 <= t < neurons_new[i].links_in@.len()
            implies {
        let l = #[trigger] neurons_new[i].links_in@[t];
        &&& l.out == i
        &&& exists|q: int| 0 <= q < links.len() && gene_link_match(or, i, l, #[trigger] links[q])
    } by {
        if i < j {
            assert(neurons_new[i] == neurons_old[i]);
        }
    }
    assert forall|q: int, i: int|
        0 <= q < links.len() && 0 <= i < j + 1 && i < neurons_new.len() && (
    #[trigger] links[q]).enabled && (#[trigger] or[i]).id == links[q].to_neuron implies exists|
        t: int,
    |
        0 <= t < neurons_new[i].links_in@.len() && gene_link_match(
            or,
            i,
            neurons_new[i].links_in@[t],
            links[q],
        ) by {
        if i < j {
            assert(neurons_new[i] == neurons_old[i]);
            let t0 = choose|t0: int|
                0 <= t0 < neurons_old[i].links_in@.len() && gene_link_match(
                    or,
                    i,
                    neurons_old[i].links_in@[t0],
                    links[q],
                );
            assert(neurons_new[i].links_in@[t0] == neurons_old[i].links_in@[t0]);
        } else {
            let t0 = choose|t0: int|
                0 <= t0 < lin.len() && gene_link_match(or, j, lin[t0], links[q]);
            assert(neurons_new[i].links_in@[t0] == lin[t0]);
        }
    }
}

impl Genome {
    /// Builds the phenotype from the enabled link genes: a flat neuron array
    /// in evaluator order, each neuron holding its incoming and outgoing
    /// links as positions into that same array, with all outputs cleared.
    #[verifier::rlimit(80)]
    #[verifier::spinoff_prover]
    pub fn create_phenotype(&mut self, depth: i64)
        requires
            old(self).wf(),
            0 <= depth <= 16,
        ensures
            final(self).links@ == old(self).links@,
            final(self).neurons@ == old(self).neurons@,
            final(self).same_scalars(*old(self)),
            final(self).wf(),
            final(self).phenotype.net_ok(),
            final(self).phenotype.depth == depth,
            final(self).phenotype.neurons@.len() == old(self).neurons@.len(),
            forall|j: int|
                0 <= j < final(self).phenotype.neurons@.len() ==> {
                    let src = oriented(old(self).neurons@)[j];
                    let n = #[trigger] final(self).phenotype.neurons@[j];
                    &&& n.neuron_type == src.neuron_type
                    &&& n.neuron_id == src.id
                    &&& n.activation_response == src.activation_response
                    &&& n.split_y == src.split_y
                    &&& n.split_x == src.split_x
                },
            net_links_sound(
                final(self).phenotype.neurons@,
                oriented(old(self).neurons@),
                old(self).links@,
            ),
            net_links_complete(
                final(self).phenotype.neurons@,
                oriented(old(self).neurons@),
                old(self).links@,
            ),
            forall|j: int|
                0 <= j < final(self).phenotype.outputs@.len()
                    ==> final(self).phenotype.outputs@[j] == 0,
            leading_inputs(final(self).phenotype.neurons@) <= old(self).num_inputs,
            leading_inputs(final(self).phenotype.neurons@)
                < final(self).phenotype.neurons@.len(),
    {
        self.delete_phenotype();
        let ghost or = oriented(old(self).neurons@);
        let ghost n_in_g = old(self).num_inputs as int;
        let ghost n_out_g = old(self).num_outputs as int;
        proof {
            assert forall|i: int| 0 <= i < or.len() implies neuron_gene_ok(
                #[trigger] or[i],
                n_in_g,
                n_out_g,
            ) by {
                if !(or.len() > 0 && old(self).neurons@[0].neuron_type == NeuronType::Input) {
                    assert(or[i] == old(self).neurons@[or.len() - 1 - i]);
                }
            }
            assert(neuron_ids_distinct(or)) by {
                assert forall|a: int, b: int| 0 <= a < b < or.len() implies (
                #[trigger] or[a]).id != (#[trigger] or[b]).id by {
                    if !(or.len() > 0 && old(self).neurons@[0].neuron_type
                        == NeuronType::Input) {
                        assert(or[a] == old(self).neurons@[or.len() - 1 - a]);
                        assert(or[b] == old(self).neurons@[or.len() - 1 - b]);
                    }
                }
            }
        }
        let n = self.neurons.len();
        let forward = match self.neurons[0].neuron_type {
            NeuronType::Input => true,
            _ => false,
        };
        let mut neurons: Vec<Neuron> = Vec::new();
        proof {
            reveal(built_links_ok);
            assert(built_links_ok(neurons@, or, self.links@, 0));
        }
        let mut j: usize = 0;
        while j < n
            invariant
                self.links@ == old(self).links@,
                self.neurons@ == old(self).neurons@,
                self.same_scalars(*old(self)),
                self.wf(),
                old(self).wf(),
                n == self.neurons@.len(),
                or == oriented(old(self).neurons@),
                or.len() == n,
                forward == (old(self).neurons@[0].neuron_type == NeuronType::Input),
                0 <= j <= n,
                neurons@.len() == j,
                forall|i: int|
                    0 <= i < j ==> {
                        let src = or[i];
                        let nu = #[trigger] neurons@[i];
                        &&& nu.neuron_type == src.neuron_type
                        &&& nu.neuron_id == src.id
                        &&& nu.activation_response == src.activation_response
                        &&& nu.split_y == src.split_y
                        &&& nu.split_x == src.split_x
                    },
                forall|i: int|
                    0 <= i < j ==> net_neuron_ok(#[trigger] neurons@[i], n as int),
                neuron_ids_distinct(or),
                forall|i: int|
                    0 <= i < or.len() ==> neuron_gene_ok(#[trigger] or[i], n_in_g, n_out_g),
                built_links_ok(neurons@, or, self.links@, j as int),
            decreases n - j,
        {
            let src_idx = if forward {
                j
            } else {
                n - 1 - j
            };
            let sg = self.neurons[src_idx];
            proof {
                if !forward {
                    assert(or[j as int] == old(self).neurons@.reverse()[j as int]);
                }
                assert(or[j as int] == sg);
                assert(neuron_gene_ok(sg, self.num_inputs as int, self.num_outputs as int));
            }
            let mut lin: Vec<Link> = Vec::new();
            let mut lout: Vec<Link> = Vec::new();
            let m = self.links.len();
            let mut k: usize = 0;
            while k < m
                invariant
                    self.links@ == old(self).links@,
                    self.neurons@ == old(self).neurons@,
                    self.wf(),
                    n == self.neurons@.len(),
                    m == self.links@.len(),
                    0 <= k <= m,
                    0 <= j < n,
                    or.len() == n,
                    or == oriented(old(self).neurons@),
                    forward == (old(self).neurons@[0].neuron_type == NeuronType::Input),
                    neuron_ids_distinct(or),
                    forall|q: int| 0 <= q < lin@.len() ==> link_pos_ok(#[trigger] lin@[q], n as int),
                    forall|q: int|
                        0 <= q < lout@.len() ==> link_pos_ok(#[trigger] lout@[q], n as int),
                    forall|t: int|
                        0 <= t < lin@.len() ==> {
                            let l = #[trigger] lin@[t];
                            &&& l.out == j
                            &&& exists|q: int|
                                0 <= q < self.links@.len() && gene_link_match(
                                    or,
                                    j as int,
                                    l,
                                    #[trigger] self.links@[q],
                                )
                        },
                    forall|q: int|
                        0 <= q < k && (#[trigger] self.links@[q]).enabled && or[j as int].id
                            == self.links@[q].to_neuron ==> exists|t: int|
                            0 <= t < lin@.len() && gene_link_match(
                                or,
                                j as int,
                                lin@[t],
                                self.links@[q],
                            ),
                decreases m - k,
            {
                let lnk = self.links[k];
                if lnk.enabled {
                    let fp = self.get_element_pos(lnk.from_neuron);
                    let tp = self.get_element_pos(lnk.to_neuron);
                    let from_pos = if forward {
                        fp
                    } else {
                        n - 1 - fp
                    };
                    let to_pos = if forward {
                        tp
                    } else {
                        n - 1 - tp
                    };
                    proof {
                        if !forward {
                            assert(or[from_pos as int] == old(self).neurons@.reverse()[from_pos
                                as int]);
                            assert(or[to_pos as int] == old(self).neurons@.reverse()[to_pos
                                as int]);
                        }
                        assert(or[from_pos as int].id == lnk.from_neuron);
                        assert(or[to_pos as int].id == lnk.to_neuron);
                    }
                    if to_pos == j {
                        let ghost lin_old = lin@;
                        lin.push(Link::new(lnk.weight, from_pos, to_pos, lnk.recurrent));
                        proof {
                            assert(gene_link_match(
                                or,
                                j as int,
                                lin@[lin@.len() - 1],
                                self.links@[k as int],
                            ));
                            assert forall|q2: int|
                                0 <= q2 < k + 1 && (#[trigger] self.links@[q2]).enabled && or[j
                                as int].id == self.links@[q2].to_neuron implies exists|t: int|
                                0 <= t < lin@.len() && gene_link_match(
                                    or,
                                    j as int,
                                    lin@[t],
                                    self.links@[q2],
                                ) by {
                                if q2 < k {
                                    let t0 = choose|t0: int|
                                        0 <= t0 < lin_old.len() && gene_link_match(
                                            or,
                                            j as int,
                                            lin_old[t0],
                                            self.links@[q2],
                                        );
                                    assert(lin@[t0] == lin_old[t0]);
                                } else {
                                    assert(gene_link_match(
                                        or,
                                        j as int,
                                        lin@[lin@.len() - 1],
                                        self.links@[q2],
                                    ));
                                }
                            }
                            assert forall|t: int| 0 <= t < lin@.len() implies {
                                let l = #[trigger] lin@[t];
                                &&& l.out == j
                                &&& exists|q2: int|
                                    0 <= q2 < self.links@.len() && gene_link_match(
                                        or,
                                        j as int,
                                        l,
                                        #[trigger] self.links@[q2],
                                    )
                            } by {
                                if t < lin@.len() - 1 {
                                    assert(lin@[t] == lin_old[t]);
                                } else {
                                    assert(gene_link_match(
                                        or,
                                        j as int,
                                        lin@[t],
                                        self.links@[k as int],
                                    ));
                                }
                            }
                        }
                    } else {
                        proof {
                            if or[j as int].id == lnk.to_neuron {
                                assert(or[j as int].id == or[to_pos as int].id);
                                assert(false);
                            }
                        }
                    }
                    if from_pos == j {
                        lout.push(Link::new(lnk.weight, from_pos, to_pos, lnk.recurrent));
                    }
                } else {
                    proof {
                        assert(!self.links@[k as int].enabled);
                    }
                }
                k = k + 1;
            }
            let ghost lin_final = lin@;
            let ghost neurons_old = neurons@;
            neurons.push(Neuron {
                links_in: lin,
                links_out: lout,
                neuron_type: sg.neuron_type,
                neuron_id: sg.id,
                activation_response: sg.activation_response,
                split_y: sg.split_y,
                split_x: sg.split_x,
            });
            proof {
                assert(neurons@[j as int].links_in@ == lin_final);
                lemma_prefix_extend(
                    neurons_old,
                    neurons@,
                    or,
                    self.links@,
                    j as int,
                    lin_final,
                );
            }
            j = j + 1;
        }
        let built = NeuralNet::new(neurons, depth);
        proof {
            reveal(built_links_ok);
            assert forall|q: int|
                0 <= q < self.links@.len() && (#[trigger] self.links@[q]).enabled implies exists|
                j2: int,
                k2: int,
            |
                0 <= j2 < built.neurons@.len() && 0 <= k2 < built.neurons@[j2].links_in@.len()
                    && gene_link_match(
                    or,
                    j2,
                    #[trigger] built.neurons@[j2].links_in@[k2],
                    self.links@[q],
                ) by {
                assert(has_neuron_id(self.neurons@, self.links@[q].to_neuron as int));
                let p = choose|p: int|
                    0 <= p < self.neurons@.len() && (#[trigger] self.neurons@[p]).id
                        == self.links@[q].to_neuron;
                let j2: int = if or.len() > 0 && old(self).neurons@[0].neuron_type
                    == NeuronType::Input {
                    p
                } else {
                    or.len() - 1 - p
                };
                assert(or[j2] == self.neurons@[p]);
                assert(or[j2].id == self.links@[q].to_neuron);
                let t0 = choose|t0: int|
                    0 <= t0 < built.neurons@[j2].links_in@.len() && gene_link_match(
                        or,
                        j2,
                        built.neurons@[j2].links_in@[t0],
                        self.links@[q],
                    );
            }
            let bs = built.neurons@;
            lemma_leading(bs);
            let lead = leading_inputs(bs);
            let n_in = self.num_inputs as int;
            let n_out = self.num_outputs as int;
            assert forall|i: int| 0 <= i < or.len() implies neuron_gene_ok(
                #[trigger] or[i],
                n_in,
                n_out,
            ) by {
                if !(or.len() > 0 && old(self).neurons@[0].neuron_type == NeuronType::Input) {
                    assert(or[i] == old(self).neurons@[or.len() - 1 - i]);
                }
            }
            assert(neuron_ids_distinct(or)) by {
                assert forall|a: int, b: int| 0 <= a < b < or.len() implies (
                #[trigger] or[a]).id != (#[trigger] or[b]).id by {
                    if !(or.len() > 0 && old(self).neurons@[0].neuron_type
                        == NeuronType::Input) {
                        assert(or[a] == old(self).neurons@[or.len() - 1 - a]);
                        assert(or[b] == old(self).neurons@[or.len() - 1 - b]);
                    }
                }
            }
            assert forall|i: int| 0 <= i < lead implies (#[trigger] or[i]).neuron_type
                == NeuronType::Input by {
                assert(bs[i].neuron_type == NeuronType::Input);
            }
            lemma_input_prefix_bound(or, lead, n_in, n_out);
            // the first link gene's target is not an input neuron, so some
            // position breaks the input prefix
            let t = self.links@[0].to_neuron as int;
            assert(has_neuron_id(self.neurons@, t));
            let p = choose|p: int|
                0 <= p < self.neurons@.len() && (#[trigger] self.neurons@[p]).id == t;
            let q: int = if or.len() > 0 && old(self).neurons@[0].neuron_type
                == NeuronType::Input {
                p
            } else {
                or.len() - 1 - p
            };
            assert(or[q] == self.neurons@[p]);
            assert(n_in < t) by {
                assert(link_gene_ok(self.links@[0], n_in));
            }
            assert(or[q].neuron_type != NeuronType::Input) by {
                assert(neuron_gene_ok(self.neurons@[p], n_in, n_out));
            }
            assert(bs[q].neuron_type == or[q].neuron_type);
            assert(lead < bs.len()) by {
                if lead == bs.len() {
                    assert(bs[q].neuron_type == NeuronType::Input);
                }
            }
        }
        self.phenotype = built;
    }

    /// The materialized phenotype, for the host to drive.
    pub fn phenotype(&mut self) -> (r: &mut NeuralNet)
        ensures
            *r == old(self).phenotype,
            *final(self) == (Genome { phenotype: *final(r), ..*old(self) }),
    {
        &mut self.phenotype
    }

    /// Drops the materialized phenotype; the genotype is unchanged.
    pub fn delete_phenotype(&mut self)
        ensures
            *final(self) == (Genome { phenotype: final(self).phenotype, ..*old(self) }),
            final(self).phenotype.neurons@.len() == 0,
            final(self).phenotype.outputs@.len() == 0,
            final(self).phenotype.depth == 0,
            final(self).phenotype.net_ok(),
    {
        self.phenotype = NeuralNet::empty();
    }
}

} // verus!
