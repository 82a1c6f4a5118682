//! The population orchestrator: owns the genomes, the species and the
//! innovation history, and runs the per-generation epoch algorithm.
use vstd::prelude::*;

verus! {

use crate::genes::{Innovation, LinkGene, NeuronGene};
use crate::genome::{Genome, edge_unique, has_neuron_id, lemma_ids_below_mono, oriented};
use crate::params::{SCALE, HALF, FIT_CAP, ADJ_CAP, SPAWN_CAP, IO_CAP, POP_CAP, NUM_BEST_SPRITE,
    MAX_SPLIT_DEPTH, COMPATIBILITY_THRESHOLD, CROSSOVER_RATE, CHANCE_ADD_NODE, CHANCE_ADD_LINK,
    CHANCE_ADD_RECURRENT_LINK, MUTATION_RATE, PROBABILITY_WEIGHT_REPLACED,
    MAX_WEIGHT_PERTURBATION, ACTIVATION_MUTATION_RATE, MAX_ACTIVATION_PERTURBATION,
    MAX_PERMITTED_NEURONS, NUM_ADD_LINK_ATTEMPTS, NUM_TRYS_TO_FIND_LOOPED_LINK,
    NUM_GENS_ALLOWED_NO_IMPROVEMENT};
use crate::phenotype::{NeuralNet, leading_inputs};
use crate::species::Species;
use crate::utils::{random_unit, random_usize, random_int};
use vstd::pervasive::VecAdditionalExecFns;

/// One entry of the network-depth lookup table: a layout depth value and the
/// number of passes a signal needs to cross it.
#[derive(Clone, Copy, PartialEq, Eq, Structural, Debug)]
pub struct SplitDepth {
    pub val: i64,
    pub depth: i64,
}

impl SplitDepth {
    pub fn new(v: i64, d: i64) -> (r: SplitDepth)
        ensures
            r == (SplitDepth { val: v, depth: d }),
    {
        SplitDepth { val: v, depth: d }
    }
}

/// The genetic algorithm over a whole population.
pub struct GA {
    pub genomes: Vec<Genome>,
    pub best_genomes: Vec<Genome>,
    pub species: Vec<Species>,
    pub innovation: Innovation,
    pub generation: i64,
    pub next_genome_id: i64,
    pub next_species_id: i64,
    pub pop_size: usize,
    pub tot_fit_adj: i64,
    pub av_fit_adj: i64,
    pub best_ever_fitness: i64,
    pub average_fitness: i64,
    pub splits: Vec<SplitDepth>,
    pub fitness_scores: Vec<i64>,
    pub num_inputs: usize,
    pub num_outputs: usize,
}


/// The largest table depth among the first `k` entries whose split value is
/// exactly `y`.
pub open spec fn max_depth_for(splits: Seq<SplitDepth>, y: int, k: int) -> int
    decreases k,
{
    if k <= 0 {
        0
    } else {
        let m = max_depth_for(splits, y, k - 1);
        if splits[k - 1].val == y && splits[k - 1].depth > m {
            splits[k - 1].depth as int
        } else {
            m
        }
    }
}

/// The largest table depth any of the first `j` neurons sits on.
pub open spec fn net_depth_scan(splits: Seq<SplitDepth>, ns: Seq<NeuronGene>, j: int) -> int
    decreases j,
{
    if j <= 0 {
        0
    } else {
        let m = net_depth_scan(splits, ns, j - 1);
        let d = max_depth_for(splits, ns[j - 1].split_y as int, splits.len() as int);
        if d > m {
            d
        } else {
            m
        }
    }
}

impl GA {
    /// What the orchestrator demands of every genome it owns.
    pub open spec fn genome_ok(self, g: Genome) -> bool {
        &&& g.wf()
        &&& g.num_inputs == self.num_inputs
        &&& g.num_outputs == self.num_outputs
        &&& g.ids_below(self.innovation.next_neuron())
        &&& g.phenotype.net_ok()
        &&& g.phenotype.neurons@.len() > 0 ==> leading_inputs(g.phenotype.neurons@)
            <= self.num_inputs && leading_inputs(g.phenotype.neurons@)
            < g.phenotype.neurons@.len()
    }

    /// The orchestrator's invariant between any two public calls.
    pub open spec fn valid(self) -> bool {
        &&& 1 <= self.num_inputs
        &&& 1 <= self.num_outputs
        &&& self.num_inputs + self.num_outputs <= IO_CAP
        &&& NUM_BEST_SPRITE <= self.pop_size <= POP_CAP
        &&& self.genomes@.len() == self.pop_size
        &&& forall|i: int| 0 <= i < self.genomes@.len() ==> self.genome_ok(#[trigger] self.genomes@[i])
        &&& forall|i: int|
            0 <= i < self.best_genomes@.len() ==> self.genome_ok(#[trigger] self.best_genomes@[i])
        &&& self.innovation.wf(self.num_inputs as int, self.num_outputs as int)
        &&& forall|i: int|
            0 <= i < self.species@.len() ==> (#[trigger] self.species@[i]).wf(
                self.num_inputs as int,
                self.num_outputs as int,
                self.pop_size as int,
            ) && self.species@[i].members@.len() <= self.pop_size && self.species@[i].leader.ids_below(
                self.innovation.next_neuron(),
            )
        &&& 0 <= self.best_ever_fitness <= FIT_CAP
        &&& 0 <= self.average_fitness <= FIT_CAP
        &&& 0 <= self.av_fit_adj
        &&& 0 <= self.tot_fit_adj
        &&& self.fitness_scores@.len() == self.pop_size
        &&& forall|i: int|
            0 <= i < self.fitness_scores@.len() ==> 0 <= #[trigger] self.fitness_scores@[i]
                <= FIT_CAP
        &&& 1 <= self.splits@.len()
        &&& forall|i: int|
            0 <= i < self.splits@.len() ==> 0 <= (#[trigger] self.splits@[i]).val <= SCALE && 1
                <= self.splits@[i].depth <= MAX_SPLIT_DEPTH
        &&& 0 <= self.generation
        &&& 0 <= self.next_genome_id
        &&& 0 <= self.next_species_id
    }

    /// Builds the depth lookup table by recursive binary splitting of the
    /// layout interval.
    fn split(splits: &mut Vec<SplitDepth>, low: i64, high: i64, depth: i64)
        requires
            0 <= low <= high <= SCALE,
            0 <= depth <= 7,
        ensures
            old(splits)@.len() < final(splits)@.len(),
            final(splits)@.subrange(0, old(splits)@.len() as int) == old(splits)@,
            forall|i: int|
                old(splits)@.len() <= i < final(splits)@.len() ==> 0 <= (
                #[trigger] final(splits)@[i]).val <= SCALE && 1 <= final(splits)@[i].depth
                    <= MAX_SPLIT_DEPTH,
        decreases 7 - depth,
    {
        let ghost before = splits@;
        let span = high - low;
        splits.push(SplitDepth::new(low + span / 2, depth + 1));
        proof {
            assert(0 <= low + span / 2 <= SCALE) by (nonlinear_arith)
                requires
                    0 <= low <= high <= SCALE,
                    span == high - low,
            ;
            assert(splits@.subrange(0, before.len() as int) =~= before);
        }
        if depth <= 6 {
            let ghost mid1 = splits@;
            GA::split(splits, low, low + span / 2, depth + 1);
            proof {
                assert(splits@.subrange(0, before.len() as int) =~= before);
            }
            let ghost mid2 = splits@;
            GA::split(splits, low + span / 2, high, depth + 1);
            proof {
                assert(splits@.subrange(0, before.len() as int) =~= before);
                assert forall|i: int|
                    before.len() <= i < splits@.len() implies 0 <= (#[trigger] splits@[i]).val
                    <= SCALE && 1 <= splits@[i].depth <= MAX_SPLIT_DEPTH by {
                    if i < mid2.len() {
                        assert(splits@.subrange(0, mid2.len() as int)[i] == splits@[i]);
                        assert(splits@[i] == mid2[i]);
                        if i < mid1.len() {
                            assert(mid2.subrange(0, mid1.len() as int)[i] == mid2[i]);
                            assert(mid2[i] == mid1[i]);
                        }
                    }
                }
            }
        }
    }

    /// Creates a population of `size` minimal genomes over the given input
    /// and output counts, a fresh innovation history seeded with their
    /// structure, and the depth lookup table.
    pub fn new(size: usize, inputs: usize, outputs: usize) -> (r: GA)
        requires
            NUM_BEST_SPRITE <= size <= POP_CAP,
            1 <= inputs,
            1 <= outputs,
            inputs + outputs <= IO_CAP,
        ensures
            r.valid(),
            r.pop_size == size,
            r.num_inputs == inputs,
            r.num_outputs == outputs,
            r.generation == 0,
            r.best_ever_fitness == 0,
            r.genomes@.len() == size,
            forall|i: int|
                0 <= i < r.genomes@.len() ==> (#[trigger] r.genomes@[i]).fitness == 0 && r.genomes@[i].neurons@.len()
                    == inputs + outputs + 1 && r.genomes@[i].phenotype.neurons@.len() == 0
                    && r.genomes@[i].genome_id == i,
            forall|i: int| 0 <= i < r.fitness_scores@.len() ==> #[trigger] r.fitness_scores@[i] == 0,
            r.species@.len() == 0,
            r.best_genomes@.len() == 0,
            r.next_genome_id == size,
            r.next_species_id == 0,
            r.innovation.next_neuron() == inputs + outputs + 1,
            r.innovation.next_innovation() == inputs + outputs + 1 + (inputs + 1) * (
            outputs as int),
    {
        let mut next_genome_id: i64 = 0;
        let mut genomes: Vec<Genome> = Vec::new();
        let mut k: usize = 0;
        while k < size
            invariant
                0 <= k <= size,
                1 <= inputs,
                1 <= outputs,
                inputs + outputs <= IO_CAP,
                size <= POP_CAP,
                genomes@.len() == k,
                next_genome_id == k,
                forall|i: int|
                    0 <= i < k ==> {
                        let g = #[trigger] genomes@[i];
                        &&& g.wf()
                        &&& g.num_inputs == inputs
                        &&& g.num_outputs == outputs
                        &&& g.fitness == 0
                        &&& g.genome_id == i
                        &&& g.neurons@.len() == inputs + outputs + 1
                        &&& g.phenotype.neurons@.len() == 0
                        &&& g.phenotype.net_ok()
                        &&& g.ids_below(inputs + outputs + 1)
                    },
            decreases size - k,
        {
            genomes.push(Genome::minimal(next_genome_id, inputs, outputs));
            next_genome_id = next_genome_id + 1;
            k = k + 1;
        }
        let genome = Genome::minimal(1, inputs, outputs);
        proof {
            assert((inputs + 1) * (outputs as int) < 0x1000_0000) by (nonlinear_arith)
                requires
                    1 <= inputs,
                    1 <= outputs,
                    inputs + outputs <= 1000,
            ;
        }
        let innovation = Innovation::new(genome.genes(), genome.neurons());
        let mut splits: Vec<SplitDepth> = Vec::new();
        GA::split(&mut splits, 0, SCALE, 0);
        let mut fitness_scores: Vec<i64> = Vec::new();
        let mut j: usize = 0;
        while j < size
            invariant
                0 <= j <= size,
                fitness_scores@.len() == j,
                forall|i: int| 0 <= i < j ==> #[trigger] fitness_scores@[i] == 0,
            decreases size - j,
        {
            fitness_scores.push(0);
            j = j + 1;
        }
        let r = GA {
            pop_size: size,
            generation: 0,
            innovation,
            next_genome_id,
            next_species_id: 0,
            best_ever_fitness: 0,
            tot_fit_adj: 0,
            av_fit_adj: 0,
            best_genomes: Vec::new(),
            genomes,
            species: Vec::new(),
            splits,
            fitness_scores,
            average_fitness: 0,
            num_inputs: inputs,
            num_outputs: outputs,
        };
        proof {
            assert(r.innovation.wf(inputs as int, outputs as int));
        }
        r
    }

    /// The number of passes a snapshot evaluation of this genome needs:
    /// the largest table depth whose split value some neuron sits on, plus
    /// two.
    pub fn calculate_net_depth(&self, gen: &Genome) -> (r: i64)
        requires
            gen.neurons@.len() < 0x1000_0000_0000_0000,
            1 <= self.splits@.len(),
            forall|i: int|
                0 <= i < self.splits@.len() ==> 0 <= (#[trigger] self.splits@[i]).val <= SCALE
                    && 1 <= self.splits@[i].depth <= MAX_SPLIT_DEPTH,
        ensures
            r == net_depth_scan(self.splits@, gen.neurons@, gen.neurons@.len() as int) + 2,
            2 <= r <= MAX_SPLIT_DEPTH + 2,
    {
        let mut max_so_far: i64 = 0;
        let n = gen.num_neurons();
        let mut nd: usize = 0;
        while nd < n
            invariant
                0 <= nd <= n,
                n == gen.neurons@.len(),
                n < 0x1000_0000_0000_0000,
                0 <= max_so_far <= MAX_SPLIT_DEPTH,
                max_so_far == net_depth_scan(self.splits@, gen.neurons@, nd as int),
                forall|i: int|
                    0 <= i < self.splits@.len() ==> 0 <= (#[trigger] self.splits@[i]).val <= SCALE
                        && 1 <= self.splits@[i].depth <= MAX_SPLIT_DEPTH,
            decreases n - nd,
        {
            let y = gen.split_y(nd as i64);
            let m = self.splits.len();
            let ghost entry_max = max_so_far as int;
            let mut sp: usize = 0;
            while sp < m
                invariant
                    0 <= sp <= m,
                    m == self.splits@.len(),
                    0 <= nd < n,
                    n == gen.neurons@.len(),
                    y == gen.neurons@[nd as int].split_y,
                    0 <= max_so_far <= MAX_SPLIT_DEPTH,
                    0 <= entry_max <= MAX_SPLIT_DEPTH,
                    entry_max == net_depth_scan(self.splits@, gen.neurons@, nd as int),
                    max_so_far == if max_depth_for(self.splits@, y as int, sp as int) > entry_max {
                        max_depth_for(self.splits@, y as int, sp as int)
                    } else {
                        entry_max
                    },
                    forall|i: int|
                        0 <= i < self.splits@.len() ==> 0 <= (#[trigger] self.splits@[i]).val
                            <= SCALE && 1 <= self.splits@[i].depth <= MAX_SPLIT_DEPTH,
                decreases m - sp,
            {
                if y == self.splits[sp].val && self.splits[sp].depth > max_so_far {
                    max_so_far = self.splits[sp].depth;
                }
                sp = sp + 1;
            }
            proof {
                lemma_max_depth_bounds(self.splits@, y as int, m as int, entry_max);
            }
            nd = nd + 1;
        }
        max_so_far + 2
    }

    /// Picks the fittest of `num_comparisons` uniform samples of the
    /// population; a clone of some genome of the population.
    fn tournament_selection(&self, num_comparisons: i64) -> (r: Genome)
        requires
            1 <= self.genomes@.len(),
        ensures
            exists|i: int|
                {
                    &&& 0 <= i < self.genomes@.len()
                    &&& r.links@ == (#[trigger] self.genomes@[i]).links@
                    &&& r.neurons@ == self.genomes@[i].neurons@
                    &&& r.same_scalars(self.genomes@[i])
                    &&& (self.genomes@[i].wf() ==> r.wf())
                    &&& forall|nn: int| self.genomes@[i].ids_below(nn) ==> r.ids_below(nn)
                    &&& r.phenotype.neurons@.len() == 0
                    &&& r.phenotype.outputs@.len() == 0
                    &&& r.phenotype.depth == 0
                },
    {
        let mut best_fitness_so_far: i64 = 0;
        let mut chosen_one: usize = 0;
        let mut t: i64 = 0;
        while t < num_comparisons
            invariant
                0 <= chosen_one < self.genomes@.len(),
            decreases num_comparisons - t,
        {
            let this_try = random_usize(0, self.genomes.len() - 1);
            if self.genomes[this_try].fitness() > best_fitness_so_far {
                chosen_one = this_try;
                best_fitness_so_far = self.genomes[this_try].fitness();
            }
            t = t + 1;
        }
        let r = self.genomes[chosen_one].clone();
        proof {
            assert(0 <= chosen_one < self.genomes@.len());
        }
        r
    }

    /// Rounds a fixed-point spawn quota to the nearest integer count.
    fn round_spawns(x: i64) -> (r: i64)
        requires
            0 <= x <= 0x4000_0000_0000_0000,
        ensures
            r == (x + HALF) / (SCALE as int),
            0 <= r,
    {
        proof {
            assert(0 <= (x as int + HALF) / (SCALE as int)) by (nonlinear_arith)
                requires
                    0 <= x,
                    HALF == 524288,
                    SCALE == 1048576,
            ;
        }
        (x + HALF) / SCALE
    }

    pub fn num_species(&self) -> (r: usize)
        ensures
            r == self.species@.len(),
    {
        self.species.len()
    }

    pub fn num_genomes(&self) -> (r: usize)
        ensures
            r == self.genomes@.len(),
    {
        self.genomes.len()
    }

    pub fn num_best_genomes(&self) -> (r: usize)
        ensures
            r == self.best_genomes@.len(),
    {
        self.best_genomes.len()
    }

    pub fn best_ever_fitness(&self) -> (r: i64)
        ensures
            r == self.best_ever_fitness,
    {
        self.best_ever_fitness
    }

    pub fn average_fitness(&self) -> (r: i64)
        ensures
            r == self.average_fitness,
    {
        self.average_fitness
    }

    pub fn pop_size(&self) -> (r: usize)
        ensures
            r == self.pop_size,
    {
        self.pop_size
    }

    /// The fitness slots the host fills before calling `epoch`.
    pub fn fitness_scores(&self) -> (r: &Vec<i64>)
        ensures
            r@ == self.fitness_scores@,
    {
        &self.fitness_scores
    }

    /// Writes one agent's terminal score.
    pub fn set_fitness_score(&mut self, index: usize, score: i64)
        requires
            index < old(self).fitness_scores@.len(),
            0 <= score <= FIT_CAP,
        ensures
            *final(self) == (GA {
                fitness_scores: final(self).fitness_scores,
                ..*old(self)
            }),
            final(self).fitness_scores@ == old(self).fitness_scores@.update(
                index as int,
                score,
            ),
            old(self).valid() ==> final(self).valid(),
    {
        self.fitness_scores[index] = score;
    }
}


/// A parent's link gene has both endpoints among the parent's neuron ids,
/// all of which the innovation history has already allocated.
proof fn lemma_endpoints(g: Genome, sel: LinkGene, nxt: int)
    requires
        g.wf(),
        g.ids_below(nxt),
        g.links@.contains(sel),
    ensures
        0 <= sel.from_neuron < nxt,
        0 <= sel.to_neuron < nxt,
        has_neuron_id(g.neurons@, sel.from_neuron as int),
        has_neuron_id(g.neurons@, sel.to_neuron as int),
{
    let w = choose|w: int| 0 <= w < g.links@.len() && g.links@[w] == sel;
    assert(has_neuron_id(g.neurons@, g.links@[w].from_neuron as int));
    assert(has_neuron_id(g.neurons@, g.links@[w].to_neuron as int));
    assert(crate::genome::link_gene_ok(g.links@[w], g.num_inputs as int));
    let u = choose|u: int|
        0 <= u < g.neurons@.len() && (#[trigger] g.neurons@[u]).id == sel.from_neuron;
    let v = choose|v: int|
        0 <= v < g.neurons@.len() && (#[trigger] g.neurons@[v]).id == sel.to_neuron;
    assert(g.neurons@[u].id < nxt);
    assert(g.neurons@[v].id < nxt);
}

/// Whether a gene list carries the innovation id.
pub open spec fn has_innovation(links: Seq<LinkGene>, id: int) -> bool {
    exists|q: int| 0 <= q < links.len() && (#[trigger] links[q]).innovation_id == id
}

/// Whether a neuron id is an endpoint of a link gene of either parent.
pub open spec fn parent_endpoint(a: Seq<LinkGene>, b: Seq<LinkGene>, id: int) -> bool {
    ||| exists|q: int|
        0 <= q < a.len() && ((#[trigger] a[q]).from_neuron == id || a[q].to_neuron == id)
    ||| exists|q: int|
        0 <= q < b.len() && ((#[trigger] b[q]).from_neuron == id || b[q].to_neuron == id)
}

/// Link genes with pairwise distinct innovation ids.
pub open spec fn innovations_distinct(links: Seq<LinkGene>) -> bool {
    forall|x: int, y: int|
        0 <= x < y < links.len() ==> (#[trigger] links[x]).innovation_id != (
        #[trigger] links[y]).innovation_id
}

/// Whether a gene list already carries a gene with this innovation id.
fn dup_innovation(genes: &Vec<LinkGene>, id: i64) -> (r: bool)
    ensures
        r == has_innovation(genes@, id as int),
{
    let n = genes.len();
    let mut k: usize = 0;
    while k < n
        invariant
            0 <= k <= n,
            n == genes@.len(),
            forall|i: int| 0 <= i < k ==> (#[trigger] genes@[i]).innovation_id != id,
        decreases n - k,
    {
        if genes[k].innovation_id == id {
            proof {
                assert(genes@.contains(genes@[k as int]));
            }
            return true;
        }
        k = k + 1;
    }
    false
}

/// Whether a gene list already links `f` to `t`.
fn dup_edge(genes: &Vec<LinkGene>, f: i64, t: i64) -> (r: bool)
    ensures
        r == exists|i: int|
            0 <= i < genes@.len() && (#[trigger] genes@[i]).from_neuron == f && genes@[i].to_neuron
                == t,
{
    let n = genes.len();
    let mut k: usize = 0;
    while k < n
        invariant
            0 <= k <= n,
            n == genes@.len(),
            forall|i: int|
                0 <= i < k ==> !((#[trigger] genes@[i]).from_neuron == f && genes@[i].to_neuron
                    == t),
        decreases n - k,
    {
        if genes[k].from_neuron == f && genes[k].to_neuron == t {
            return true;
        }
        k = k + 1;
    }
    false
}

/// Ids in strictly decreasing order.
pub open spec fn ids_sorted_desc(v: Seq<i64>) -> bool {
    forall|i: int, j: int| 0 <= i < j < v.len() ==> (#[trigger] v[i]) > (#[trigger] v[j])
}

/// Records a neuron id once, keeping the list strictly decreasing; used
/// while collecting the neurons a crossover child needs.
fn add_neuron_id(node_id: i64, vec: &mut Vec<i64>)
    requires
        ids_sorted_desc(old(vec)@),
        old(vec)@.len() < 0x1000_0000_0000_0000,
    ensures
        ids_sorted_desc(final(vec)@),
        final(vec)@.len() <= old(vec)@.len() + 1,
        forall|x: i64| #[trigger] final(vec)@.contains(x) <==> old(vec)@.contains(x) || x == node_id,
{
    let n = vec.len();
    let mut k: usize = 0;
    while k < n
        invariant
            0 <= k <= n,
            n == vec@.len(),
            vec@ == old(vec)@,
            ids_sorted_desc(vec@),
            forall|i: int| 0 <= i < k ==> (#[trigger] vec@[i]) > node_id,
        decreases n - k,
    {
        if vec[k] == node_id {
            proof {
                assert(vec@.contains(node_id));
            }
            return;
        }
        if vec[k] < node_id {
            let ghost before = vec@;
            vec.insert(k, node_id);
            proof {
                assert forall|x: i64| #[trigger] vec@.contains(x) implies before.contains(x) || x
                    == node_id by {
                    let q = choose|q: int| 0 <= q < vec@.len() && vec@[q] == x;
                    if q < k {
                        assert(before[q] == x);
                    } else if q > k {
                        assert(before[q - 1] == x);
                    }
                }
                assert forall|x: i64| before.contains(x) implies vec@.contains(x) by {
                    let q = choose|q: int| 0 <= q < before.len() && before[q] == x;
                    if q < k {
                        assert(vec@[q] == x);
                    } else {
                        assert(vec@[q + 1] == x);
                    }
                }
                assert(vec@.contains(node_id)) by {
                    assert(vec@[k as int] == node_id);
                }
                assert forall|i: int, j: int| 0 <= i < j < vec@.len() implies (
                #[trigger] vec@[i]) > (#[trigger] vec@[j]) by {
                    if i < k && j > k {
                        assert(vec@[i] == before[i] && vec@[j] == before[j - 1]);
                    } else if i == k && j > k {
                        assert(vec@[j] == before[j - 1]);
                    } else if j == k && i < k {
                        assert(vec@[i] == before[i]);
                    } else if i < k && j < k {
                        assert(vec@[i] == before[i] && vec@[j] == before[j]);
                    } else if i > k && j > k {
                        assert(vec@[i] == before[i - 1] && vec@[j] == before[j - 1]);
                    }
                }
            }
            return;
        }
        k = k + 1;
    }
    vec.push(node_id);
    proof {
        assert(vec@.contains(node_id)) by {
            assert(vec@[n as int] == node_id);
        }
        assert forall|x: i64| #[trigger] vec@.contains(x) implies old(vec)@.contains(x) || x
            == node_id by {
            let q = choose|q: int| 0 <= q < vec@.len() && vec@[q] == x;
            if q < n {
                assert(old(vec)@[q] == x);
            }
        }
        assert forall|x: i64| old(vec)@.contains(x) implies vec@.contains(x) by {
            let q = choose|q: int| 0 <= q < old(vec)@.len() && old(vec)@[q] == x;
            assert(vec@[q] == x);
        }
    }
}

impl GA {
    /// Crosses two parents: link genes merged by innovation id, matched
    /// genes drawn from either side at even odds, one-sided genes kept only
    /// from the fitter (on ties, shorter) parent, and the child's neuron
    /// genes rebuilt from the innovation history for exactly the neuron ids
    /// its link genes reference. The child carries a fresh genome id and no
    /// phenotype, and never holds a neuron id foreign to both parents.
    #[verifier::rlimit(80)]
    pub fn crossover(&mut self, mum: &Genome, dad: &Genome) -> (baby: Genome)
        requires
            old(self).valid(),
            mum.wf(),
            dad.wf(),
            mum.num_inputs == old(self).num_inputs,
            mum.num_outputs == old(self).num_outputs,
            dad.num_inputs == old(self).num_inputs,
            dad.num_outputs == old(self).num_outputs,
            mum.ids_below(old(self).innovation.next_neuron()),
            dad.ids_below(old(self).innovation.next_neuron()),
            old(self).next_genome_id < 0x4000_0000_0000_0000,
        ensures
            *final(self) == (GA { next_genome_id: (old(self).next_genome_id + 1) as i64, ..*old(self) }),
            baby.wf(),
            edge_unique(baby.links@),
            baby.genome_id == old(self).next_genome_id,
            baby.num_inputs == old(self).num_inputs,
            baby.num_outputs == old(self).num_outputs,
            baby.fitness == 0,
            baby.adjusted_fitness == 0,
            baby.amount_to_spawn == 0,
            baby.ids_below(old(self).innovation.next_neuron()),
            baby.phenotype.neurons@.len() == 0,
            baby.phenotype.outputs@.len() == 0,
            baby.phenotype.depth == 0,
            forall|i: int|
                0 <= i < baby.links@.len() ==> mum.links@.contains(#[trigger] baby.links@[i])
                    || dad.links@.contains(baby.links@[i]),
            forall|i: int|
                0 <= i < baby.neurons@.len() ==> has_neuron_id(
                    mum.neurons@,
                    (#[trigger] baby.neurons@[i]).id as int,
                ) || has_neuron_id(dad.neurons@, baby.neurons@[i].id as int),
            innovations_distinct(baby.links@),
            mum.fitness > dad.fitness ==> forall|i: int|
                0 <= i < baby.links@.len() ==> has_innovation(
                    mum.links@,
                    (#[trigger] baby.links@[i]).innovation_id as int,
                ),
            dad.fitness > mum.fitness ==> forall|i: int|
                0 <= i < baby.links@.len() ==> has_innovation(
                    dad.links@,
                    (#[trigger] baby.links@[i]).innovation_id as int,
                ),
            mum.fitness == dad.fitness && mum.links@.len() < dad.links@.len() ==> forall|i: int|
                0 <= i < baby.links@.len() ==> has_innovation(
                    mum.links@,
                    (#[trigger] baby.links@[i]).innovation_id as int,
                ),
            mum.fitness == dad.fitness && dad.links@.len() < mum.links@.len() ==> forall|i: int|
                0 <= i < baby.links@.len() ==> has_innovation(
                    dad.links@,
                    (#[trigger] baby.links@[i]).innovation_id as int,
                ),
            forall|a: int, b: int|
                0 <= a < b < baby.neurons@.len() ==> (#[trigger] baby.neurons@[a]).id > (
                #[trigger] baby.neurons@[b]).id,
            forall|i: int|
                0 <= i < baby.neurons@.len() ==> parent_endpoint(
                    mum.links@,
                    dad.links@,
                    (#[trigger] baby.neurons@[i]).id as int,
                ),
            forall|i: int|
                0 <= i < baby.neurons@.len() ==> {
                    let recs = final(self).innovation.records();
                    let w = crate::genes::first_rec_idx(
                        recs,
                        0,
                        (#[trigger] baby.neurons@[i]).id as int,
                    );
                    &&& 0 <= w < recs.len()
                    &&& baby.neurons@[i] == (NeuronGene {
                        id: baby.neurons@[i].id,
                        neuron_type: recs[w].neuron_type,
                        recurrent: false,
                        activation_response: SCALE,
                        split_y: recs[w].split_y,
                        split_x: recs[w].split_x,
                    })
                },
    {
        let ghost n_in = old(self).num_inputs as int;
        let ghost nxt = old(self).innovation.next_neuron();
        let best_is_mum: bool = if mum.fitness() == dad.fitness() {
            if mum.num_genes() == dad.num_genes() {
                random_int(0, 1) == 0
            } else {
                mum.num_genes() < dad.num_genes()
            }
        } else {
            mum.fitness() > dad.fitness()
        };
        let ghost dom_links: Seq<LinkGene> = if best_is_mum {
            mum.links@
        } else {
            dad.links@
        };
        let mut baby_genes: Vec<LinkGene> = Vec::new();
        let mut neuron_ids: Vec<i64> = Vec::new();
        let la = mum.num_genes();
        let lb = dad.num_genes();
        let mut i: usize = 0;
        let mut j: usize = 0;
        while i < la || j < lb
            invariant
                la == mum.links@.len(),
                lb == dad.links@.len(),
                mum.wf(),
                dad.wf(),
                n_in == mum.num_inputs as int,
                dad.num_inputs == mum.num_inputs,
                mum.ids_below(nxt),
                dad.ids_below(nxt),
                0 <= i <= la,
                0 <= j <= lb,
                edge_unique(baby_genes@),
                innovations_distinct(baby_genes@),
                dom_links == if best_is_mum {
                    mum.links@
                } else {
                    dad.links@
                },
                forall|t: int|
                    0 <= t < baby_genes@.len() ==> has_innovation(
                        dom_links,
                        (#[trigger] baby_genes@[t]).innovation_id as int,
                    ),
                baby_genes@.len() <= 0x0800_0000_0000_0000,
                neuron_ids@.len() <= 0x0800_0000_0000_0000,
                ids_sorted_desc(neuron_ids@),
                forall|q: int|
                    0 <= q < baby_genes@.len() ==> mum.links@.contains(
                        #[trigger] baby_genes@[q],
                    ) || dad.links@.contains(baby_genes@[q]),
                forall|q: int|
                    0 <= q < baby_genes@.len() ==> crate::genome::link_gene_ok(
                        #[trigger] baby_genes@[q],
                        n_in,
                    ),
                forall|q: int|
                    0 <= q < baby_genes@.len() ==> neuron_ids@.contains(
                        (#[trigger] baby_genes@[q]).from_neuron,
                    ) && neuron_ids@.contains(baby_genes@[q].to_neuron),
                forall|q: int|
                    0 <= q < neuron_ids@.len() ==> 0 <= (#[trigger] neuron_ids@[q]) < nxt
                        && (has_neuron_id(mum.neurons@, neuron_ids@[q] as int) || has_neuron_id(
                        dad.neurons@,
                        neuron_ids@[q] as int,
                    )) && parent_endpoint(mum.links@, dad.links@, neuron_ids@[q] as int),
                best_is_mum && i > 0 ==> baby_genes@.len() >= 1,
                !best_is_mum && j > 0 ==> baby_genes@.len() >= 1,
                baby_genes@.len() >= 1 ==> neuron_ids@.len() >= 1,
                neuron_ids@.len() >= 1 ==> baby_genes@.len() >= 1,
            decreases la - i + lb - j,
        {
            let ghost gi = i as int;
            let ghost gj = j as int;
            let mut selected: Option<LinkGene> = None;
            if i >= la {
                if !best_is_mum {
                    selected = Some(dad.links[j]);
                }
                j = j + 1;
            } else if j >= lb {
                if best_is_mum {
                    selected = Some(mum.links[i]);
                }
                i = i + 1;
            } else if mum.links[i].innovation_id < dad.links[j].innovation_id {
                if best_is_mum {
                    selected = Some(mum.links[i]);
                }
                i = i + 1;
            } else if dad.links[j].innovation_id < mum.links[i].innovation_id {
                if !best_is_mum {
                    selected = Some(dad.links[j]);
                }
                j = j + 1;
            } else {
                if random_unit() < HALF {
                    selected = Some(mum.links[i]);
                } else {
                    selected = Some(dad.links[j]);
                }
                i = i + 1;
                j = j + 1;
            }
            match selected {
                Some(sel) => {
                    proof {
                        assert(mum.links@.contains(sel) || dad.links@.contains(sel)) by {
                            if 0 <= gi && gi < la && sel == mum.links@[gi] {
                                assert(mum.links@.contains(sel));
                            } else {
                                assert(sel == dad.links@[gj]);
                                assert(dad.links@.contains(sel));
                            }
                        }
                        if mum.links@.contains(sel) {
                            lemma_endpoints(*mum, sel, nxt);
                        } else {
                            lemma_endpoints(*dad, sel, nxt);
                        }
                        assert(crate::genome::link_gene_ok(sel, n_in));
                        assert(parent_endpoint(mum.links@, dad.links@, sel.from_neuron as int)
                            && parent_endpoint(mum.links@, dad.links@, sel.to_neuron as int)) by {
                            if mum.links@.contains(sel) {
                                let qq = choose|qq: int|
                                    0 <= qq < mum.links@.len() && mum.links@[qq] == sel;
                                assert(mum.links@[qq].from_neuron == sel.from_neuron
                                    && mum.links@[qq].to_neuron == sel.to_neuron);
                            } else {
                                let qq = choose|qq: int|
                                    0 <= qq < dad.links@.len() && dad.links@[qq] == sel;
                                assert(dad.links@[qq].from_neuron == sel.from_neuron
                                    && dad.links@[qq].to_neuron == sel.to_neuron);
                            }
                        }
                        // the selected gene's innovation id always occurs in the
                        // dominant parent: one-sided picks come from it, and a
                        // matched pick shares its id with both parents
                        assert(has_innovation(dom_links, sel.innovation_id as int)) by {
                            if 0 <= gi && gi < la && sel == mum.links@[gi] {
                                if best_is_mum {
                                    assert(dom_links[gi].innovation_id == sel.innovation_id);
                                } else {
                                    assert(0 <= gj < lb && dad.links@[gj].innovation_id
                                        == mum.links@[gi].innovation_id);
                                    assert(dom_links[gj].innovation_id == sel.innovation_id);
                                }
                            } else {
                                assert(sel == dad.links@[gj]);
                                if !best_is_mum {
                                    assert(dom_links[gj].innovation_id == sel.innovation_id);
                                } else {
                                    assert(0 <= gi < la && mum.links@[gi].innovation_id
                                        == dad.links@[gj].innovation_id);
                                    assert(dom_links[gi].innovation_id == sel.innovation_id);
                                }
                            }
                        }
                    }
                    if (neuron_ids.len() as u64) + 2 < 0x0400_0000_0000_0000u64 {
                        // one gene per innovation id; on id-sorted parents this
                        // coincides with checking only the last appended gene
                        if !dup_innovation(&baby_genes, sel.innovation_id())
                            && (baby_genes.len() as u64) < 0x0400_0000_0000_0000u64
                            && !dup_edge(&baby_genes, sel.from_neuron(), sel.to_neuron()) {
                            baby_genes.push(sel);
                        }
                        let ghost ids0 = neuron_ids@;
                        add_neuron_id(sel.from_neuron(), &mut neuron_ids);
                        add_neuron_id(sel.to_neuron(), &mut neuron_ids);
                        proof {
                            assert forall|q: int| 0 <= q < neuron_ids@.len() implies 0 <= (
                            #[trigger] neuron_ids@[q]) < nxt && (has_neuron_id(
                                mum.neurons@,
                                neuron_ids@[q] as int,
                            ) || has_neuron_id(dad.neurons@, neuron_ids@[q] as int))
                                && parent_endpoint(
                                mum.links@,
                                dad.links@,
                                neuron_ids@[q] as int,
                            ) by {
                                let x = neuron_ids@[q];
                                assert(neuron_ids@.contains(x));
                                if ids0.contains(x) {
                                    let w = choose|w: int|
                                        0 <= w < ids0.len() && ids0[w] == x;
                                    assert(0 <= ids0[w] < nxt);
                                    assert(parent_endpoint(mum.links@, dad.links@, ids0[w] as int));
                                } else if x == sel.from_neuron {
                                } else {
                                    assert(x == sel.to_neuron);
                                }
                            }
                            assert(neuron_ids@.contains(sel.from_neuron));
                            let w0 = choose|w0: int|
                                0 <= w0 < neuron_ids@.len() && neuron_ids@[w0]
                                    == sel.from_neuron;
                            assert(neuron_ids@.len() >= 1);
                        }
                    }
                },
                None => {},
            }
        }
        let mut baby_neurons: Vec<NeuronGene> = Vec::new();
        let nn = neuron_ids.len();
        let mut k: usize = 0;
        while k < nn
            invariant
                0 <= k <= nn,
                nn == neuron_ids@.len(),
                self.innovation.wf(self.num_inputs as int, self.num_outputs as int),
                n_in == self.num_inputs as int,
                nxt == self.innovation.next_neuron(),
                ids_sorted_desc(neuron_ids@),
                forall|q: int|
                    0 <= q < neuron_ids@.len() ==> 0 <= (#[trigger] neuron_ids@[q]) < nxt && (
                    has_neuron_id(mum.neurons@, neuron_ids@[q] as int) || has_neuron_id(
                        dad.neurons@,
                        neuron_ids@[q] as int,
                    )) && parent_endpoint(mum.links@, dad.links@, neuron_ids@[q] as int),
                baby_neurons@.len() == k,
                forall|q: int|
                    0 <= q < k ==> {
                        let bn = #[trigger] baby_neurons@[q];
                        let recs = self.innovation.records();
                        let w = crate::genes::first_rec_idx(recs, 0, neuron_ids@[q] as int);
                        &&& bn.id == neuron_ids@[q]
                        &&& crate::genome::neuron_gene_ok(
                            bn,
                            self.num_inputs as int,
                            self.num_outputs as int,
                        )
                        &&& 0 <= w < recs.len()
                        &&& bn == (NeuronGene {
                            id: bn.id,
                            neuron_type: recs[w].neuron_type,
                            recurrent: false,
                            activation_response: SCALE,
                            split_y: recs[w].split_y,
                            split_x: recs[w].split_x,
                        })
                    },
            decreases nn - k,
        {
            let id = neuron_ids[k];
            let gene = self.innovation.create_neuron_from_id(id);
            baby_neurons.push(gene);
            k = k + 1;
        }
        let baby_genome = Genome::from(
            self.next_genome_id,
            baby_neurons,
            baby_genes,
            mum.num_inputs(),
            mum.num_outputs(),
        );
        self.next_genome_id = self.next_genome_id + 1;
        proof {
            assert forall|a: int, b: int| 0 <= a < b < baby_genome.neurons@.len() implies (
            #[trigger] baby_genome.neurons@[a]).id != (#[trigger] baby_genome.neurons@[b]).id by {
                assert(baby_genome.neurons@[a].id == neuron_ids@[a]);
                assert(baby_genome.neurons@[b].id == neuron_ids@[b]);
            }
            assert forall|q: int| 0 <= q < baby_genome.links@.len() implies has_neuron_id(
                baby_genome.neurons@,
                (#[trigger] baby_genome.links@[q]).from_neuron as int,
            ) && has_neuron_id(baby_genome.neurons@, baby_genome.links@[q].to_neuron as int) by {
                assert(neuron_ids@.contains(baby_genome.links@[q].from_neuron));
                let w1 = choose|w1: int|
                    0 <= w1 < neuron_ids@.len() && neuron_ids@[w1]
                        == baby_genome.links@[q].from_neuron;
                assert(baby_genome.neurons@[w1].id == baby_genome.links@[q].from_neuron);
                assert(neuron_ids@.contains(baby_genome.links@[q].to_neuron));
                let w2 = choose|w2: int|
                    0 <= w2 < neuron_ids@.len() && neuron_ids@[w2]
                        == baby_genome.links@[q].to_neuron;
                assert(baby_genome.neurons@[w2].id == baby_genome.links@[q].to_neuron);
            }
            assert forall|a: int, b: int| 0 <= a < b < baby_genome.neurons@.len() implies (
            #[trigger] baby_genome.neurons@[a]).id > (#[trigger] baby_genome.neurons@[b]).id by {
                assert(baby_genome.neurons@[a].id == neuron_ids@[a]);
                assert(baby_genome.neurons@[b].id == neuron_ids@[b]);
            }
            assert forall|q: int| 0 <= q < baby_genome.neurons@.len() implies parent_endpoint(
                mum.links@,
                dad.links@,
                (#[trigger] baby_genome.neurons@[q]).id as int,
            ) by {
                assert(baby_genome.neurons@[q].id == neuron_ids@[q]);
            }
            assert forall|q: int| 0 <= q < baby_genome.neurons@.len() implies (
            #[trigger] baby_genome.neurons@[q]).id < nxt by {
                assert(baby_genome.neurons@[q].id == neuron_ids@[q]);
            }
        }
        baby_genome
    }
}



/// Folding a running maximum over the table matches the recursive maximum.
proof fn lemma_max_depth_bounds(splits: Seq<SplitDepth>, y: int, k: int, base: int)
    requires
        0 <= k <= splits.len(),
        0 <= base,
    ensures
        max_depth_for(splits, y, k) >= 0,
        (if max_depth_for(splits, y, k) > base {
            max_depth_for(splits, y, k)
        } else {
            base
        }) >= base,
    decreases k,
{
    if k > 0 {
        lemma_max_depth_bounds(splits, y, k - 1, base);
    }
}

/// No genome index occurs in two member slots.
pub open spec fn members_unique(species: Seq<Species>) -> bool {
    forall|s1: int, t1: int, s2: int, t2: int|
        0 <= s1 < species.len() && 0 <= t1 < species[s1].members@.len() && 0 <= s2
            < species.len() && 0 <= t2 < species[s2].members@.len() && (s1 != s2 || t1 != t2)
            ==> (#[trigger] species[s1].members@[t1]) != (#[trigger] species[s2].members@[t2])
}

/// Every member's adjusted fitness is its shared fitness within its species.
pub open spec fn sharing_applied(species: Seq<Species>, genomes: Seq<Genome>) -> bool {
    forall|s: int, t: int|
        0 <= s < species.len() && 0 <= t < species[s].members@.len() ==> {
            let m = (#[trigger] species[s].members@[t]) as int;
            &&& 0 <= m < genomes.len()
            &&& genomes[m].adjusted_fitness == crate::species::shared_fitness(
                genomes[m].fitness as int,
                species[s].age as int,
                species[s].members@.len() as int,
            )
        }
}

/// The population's summed adjusted fitness.
pub open spec fn sum_adjusted(gs: Seq<Genome>) -> int
    decreases gs.len(),
{
    if gs.len() == 0 {
        0
    } else {
        sum_adjusted(gs.drop_last()) + gs.last().adjusted_fitness
    }
}

/// One genome's spawn amount: its adjusted fitness over the population-wide
/// average adjusted fitness, or 0 when that average is 0.
pub open spec fn spawn_amount(adj: int, av: int) -> int {
    if av > 0 {
        (adj * SCALE) / av
    } else {
        0
    }
}

/// Every species' quota is the (saturating) sum of its members' amounts.
pub open spec fn quotas_computed(species: Seq<Species>, genomes: Seq<Genome>) -> bool {
    forall|s: int|
        0 <= s < species.len() ==> (#[trigger] species[s]).spawns_rqd == if crate::species::sum_spawn(
            genomes,
            species[s].members@,
        ) <= 0x4000_0000_0000_0000 {
            crate::species::sum_spawn(genomes, species[s].members@)
        } else {
            0x4000_0000_0000_0000
        }
}

/// The summed adjusted fitness depends only on the adjusted-fitness fields.
proof fn lemma_sum_adjusted_congruent(a: Seq<Genome>, b: Seq<Genome>)
    requires
        a.len() == b.len(),
        forall|i: int|
            0 <= i < a.len() ==> (#[trigger] a[i]).adjusted_fitness == (
            #[trigger] b[i]).adjusted_fitness,
    ensures
        sum_adjusted(a) == sum_adjusted(b),
    decreases a.len(),
{
    if a.len() > 0 {
        assert forall|i: int|
            0 <= i < a.drop_last().len() implies (#[trigger] a.drop_last()[i]).adjusted_fitness
            == (#[trigger] b.drop_last()[i]).adjusted_fitness by {
            assert(a.drop_last()[i] == a[i] && b.drop_last()[i] == b[i]);
        }
        lemma_sum_adjusted_congruent(a.drop_last(), b.drop_last());
    }
}

/// Whether some species' member list holds the genome index `g`.
pub open spec fn assigned_somewhere(species: Seq<Species>, g: int) -> bool {
    exists|sidx: int, t: int|
        0 <= sidx < species.len() && 0 <= t < species[sidx].members@.len() && (
        #[trigger] species[sidx].members@[t]) == g
}

/// Every genome index below `pop` stands in some species' member list.
pub open spec fn all_assigned(species: Seq<Species>, pop: int) -> bool {
    forall|g: int| 0 <= g < pop ==> #[trigger] assigned_somewhere(species, g)
}

/// Genomes in non-increasing fitness order.
pub open spec fn fitness_sorted_desc(gs: Seq<Genome>) -> bool {
    forall|i: int, j: int|
        0 <= i < j < gs.len() ==> (#[trigger] gs[i]).fitness >= (#[trigger] gs[j]).fitness
}

impl GA {
    /// Sorts the population by raw fitness, best first, updates the best
    /// fitness ever seen, and caches clones of the generation's best
    /// genomes.
    fn sort_and_record(&mut self)
        requires
            old(self).valid(),
        ensures
            final(self).valid(),
            *final(self) == (GA {
                genomes: final(self).genomes,
                best_ever_fitness: final(self).best_ever_fitness,
                best_genomes: final(self).best_genomes,
                ..*old(self)
            }),
            final(self).genomes@.to_multiset() == old(self).genomes@.to_multiset(),
            final(self).genomes@.len() == old(self).genomes@.len(),
            fitness_sorted_desc(final(self).genomes@),
            final(self).best_ever_fitness == if final(self).genomes@[0].fitness > old(
                self,
            ).best_ever_fitness {
                final(self).genomes@[0].fitness as int
            } else {
                old(self).best_ever_fitness as int
            },
            final(self).best_genomes@.len() == NUM_BEST_SPRITE,
            forall|i: int|
                0 <= i < final(self).best_genomes@.len()
                    ==> (#[trigger] final(self).best_genomes@[i]).links@
                    == final(self).genomes@[i].links@
                    && final(self).best_genomes@[i].neurons@ == final(self).genomes@[i].neurons@
                    && final(self).best_genomes@[i].same_scalars(final(self).genomes@[i]),
    {
        broadcast use vstd::seq_lib::group_to_multiset_ensures;

        let mut rest: Vec<Genome> = Vec::new();
        core::mem::swap(&mut rest, &mut self.genomes);
        let ghost n = rest@.len();
        while rest.len() > 0
            invariant
                self.genomes@.len() + rest@.len() == n,
                n == old(self).genomes@.len(),
                *self == (GA { genomes: self.genomes, ..*old(self) }),
                self.genomes@.to_multiset().add(rest@.to_multiset()) == old(self).genomes@
                    .to_multiset(),
                fitness_sorted_desc(self.genomes@),
                forall|i: int, j: int|
                    0 <= i < self.genomes@.len() && 0 <= j < rest@.len() ==> (
                    #[trigger] self.genomes@[i]).fitness >= (#[trigger] rest@[j]).fitness,
            decreases rest@.len(),
        {
            let mut m: usize = 0;
            let mut k: usize = 1;
            while k < rest.len()
                invariant
                    0 <= m < rest@.len(),
                    1 <= k <= rest@.len(),
                    forall|i: int|
                        0 <= i < k ==> (#[trigger] rest@[i]).fitness <= rest@[m as int].fitness,
                decreases rest@.len() - k,
            {
                if rest[k].fitness() > rest[m].fitness() {
                    m = k;
                }
                k = k + 1;
            }
            let ghost rest_before = rest@;
            let ghost sorted_before = self.genomes@;
            let g = rest.remove(m);
            self.genomes.push(g);
            proof {
                broadcast use vstd::multiset::group_multiset_axioms;

                rest_before.to_multiset_ensures();
                sorted_before.to_multiset_ensures();
                assert(rest_before.contains(rest_before[m as int]));
                assert(rest_before.remove(m as int).to_multiset() =~= rest_before.to_multiset()
                    .remove(rest_before[m as int]));
                assert(self.genomes@.to_multiset() =~= sorted_before.to_multiset().insert(
                    rest_before[m as int],
                ));
                assert(self.genomes@.to_multiset().add(rest@.to_multiset()) =~= old(self).genomes@
                    .to_multiset());
                assert forall|j: int|
                    0 <= j < rest@.len() implies rest_before[m as int].fitness
                    >= (#[trigger] rest@[j]).fitness by {
                    if j < m {
                        assert(rest@[j] == rest_before[j]);
                    } else {
                        assert(rest@[j] == rest_before[j + 1]);
                    }
                }
            }
        }
        proof {
            assert(rest@.to_multiset() =~= vstd::multiset::Multiset::<Genome>::empty());
            assert(self.genomes@.to_multiset().add(
                vstd::multiset::Multiset::<Genome>::empty(),
            ) =~= self.genomes@.to_multiset()) by {
                broadcast use vstd::multiset::group_multiset_axioms;

            }
            assert forall|i: int| 0 <= i < self.genomes@.len() implies old(self).genome_ok(
                #[trigger] self.genomes@[i],
            ) by {
                assert(self.genomes@.contains(self.genomes@[i]));
                assert(old(self).genomes@.to_multiset().count(self.genomes@[i]) > 0);
                assert(old(self).genomes@.contains(self.genomes@[i]));
                let w = choose|w: int|
                    0 <= w < old(self).genomes@.len() && old(self).genomes@[w]
                        == self.genomes@[i];
                assert(old(self).genome_ok(old(self).genomes@[w]));
            }
        }
        if self.genomes[0].fitness() > self.best_ever_fitness {
            self.best_ever_fitness = self.genomes[0].fitness();
        }
        self.store_best_genomes();
    }

    /// Replaces the cached record of the best genomes of the generation with
    /// clones of the current front of the (sorted) population.
    pub fn store_best_genomes(&mut self)
        requires
            NUM_BEST_SPRITE <= old(self).genomes@.len(),
            forall|i: int|
                0 <= i < old(self).genomes@.len() ==> old(self).genome_ok(
                    #[trigger] old(self).genomes@[i],
                ),
        ensures
            *final(self) == (GA { best_genomes: final(self).best_genomes, ..*old(self) }),
            final(self).best_genomes@.len() == NUM_BEST_SPRITE,
            forall|i: int|
                0 <= i < final(self).best_genomes@.len() ==> old(self).genome_ok(
                    #[trigger] final(self).best_genomes@[i],
                ) && final(self).best_genomes@[i].links@ == old(self).genomes@[i].links@
                    && final(self).best_genomes@[i].neurons@ == old(self).genomes@[i].neurons@
                    && final(self).best_genomes@[i].same_scalars(old(self).genomes@[i]),
    {
        self.best_genomes.clear();
        let mut gen: usize = 0;
        while gen < NUM_BEST_SPRITE
            invariant
                0 <= gen <= NUM_BEST_SPRITE,
                NUM_BEST_SPRITE <= self.genomes@.len(),
                *self == (GA { best_genomes: self.best_genomes, ..*old(self) }),
                self.genomes@ == old(self).genomes@,
                forall|i: int|
                    0 <= i < self.genomes@.len() ==> old(self).genome_ok(
                        #[trigger] self.genomes@[i],
                    ),
                self.best_genomes@.len() == gen,
                forall|i: int|
                    0 <= i < gen ==> old(self).genome_ok(#[trigger] self.best_genomes@[i])
                        && self.best_genomes@[i].links@ == old(self).genomes@[i].links@
                        && self.best_genomes@[i].neurons@ == old(self).genomes@[i].neurons@
                        && self.best_genomes@[i].same_scalars(old(self).genomes@[i]),
            decreases NUM_BEST_SPRITE - gen,
        {
            let g = self.genomes[gen].clone();
            self.best_genomes.push(g);
            gen = gen + 1;
        }
    }

    /// Materializes the phenotype of every genome at its computed snapshot
    /// depth.
    pub fn create_phenotypes(&mut self)
        requires
            old(self).valid(),
        ensures
            final(self).valid(),
            *final(self) == (GA { genomes: final(self).genomes, ..*old(self) }),
            final(self).genomes@.len() == old(self).genomes@.len(),
            forall|i: int|
                0 <= i < final(self).genomes@.len() ==> {
                    let g = #[trigger] final(self).genomes@[i];
                    &&& g.links@ == old(self).genomes@[i].links@
                    &&& g.neurons@ == old(self).genomes@[i].neurons@
                    &&& g.same_scalars(old(self).genomes@[i])
                    &&& g.phenotype.neurons@.len() == g.neurons@.len()
                    &&& g.phenotype.net_ok()
                    &&& g.phenotype.depth == net_depth_scan(
                        old(self).splits@,
                        old(self).genomes@[i].neurons@,
                        old(self).genomes@[i].neurons@.len() as int,
                    ) + 2
                    &&& leading_inputs(g.phenotype.neurons@) <= old(self).num_inputs
                    &&& leading_inputs(g.phenotype.neurons@) < g.phenotype.neurons@.len()
                    &&& forall|j: int|
                        0 <= j < g.phenotype.outputs@.len() ==> g.phenotype.outputs@[j] == 0
                    &&& forall|j: int|
                        0 <= j < g.phenotype.neurons@.len() ==> {
                            let src = oriented(old(self).genomes@[i].neurons@)[j];
                            let pn = #[trigger] g.phenotype.neurons@[j];
                            &&& pn.neuron_type == src.neuron_type
                            &&& pn.neuron_id == src.id
                            &&& pn.activation_response == src.activation_response
                        }
                },
    {
        let n = self.genomes.len();
        let mut i: usize = 0;
        while i < n
            invariant
                0 <= i <= n,
                n == self.genomes@.len(),
                old(self).valid(),
                *self == (GA { genomes: self.genomes, ..*old(self) }),
                self.genomes@.len() == old(self).genomes@.len(),
                forall|q: int|
                    i <= q < n ==> #[trigger] self.genomes@[q] == old(self).genomes@[q],
                forall|q: int|
                    0 <= q < i ==> {
                        let g = #[trigger] self.genomes@[q];
                        &&& g.links@ == old(self).genomes@[q].links@
                        &&& g.neurons@ == old(self).genomes@[q].neurons@
                        &&& g.same_scalars(old(self).genomes@[q])
                        &&& g.wf()
                        &&& g.ids_below(old(self).innovation.next_neuron())
                        &&& g.phenotype.neurons@.len() == g.neurons@.len()
                        &&& g.phenotype.net_ok()
                        &&& g.phenotype.depth == net_depth_scan(
                            old(self).splits@,
                            old(self).genomes@[q].neurons@,
                            old(self).genomes@[q].neurons@.len() as int,
                        ) + 2
                        &&& leading_inputs(g.phenotype.neurons@) <= old(self).num_inputs
                        &&& leading_inputs(g.phenotype.neurons@) < g.phenotype.neurons@.len()
                        &&& forall|j: int|
                            0 <= j < g.phenotype.outputs@.len() ==> g.phenotype.outputs@[j] == 0
                        &&& forall|j: int|
                            0 <= j < g.phenotype.neurons@.len() ==> {
                                let src = oriented(old(self).genomes@[q].neurons@)[j];
                                let pn = #[trigger] g.phenotype.neurons@[j];
                                &&& pn.neuron_type == src.neuron_type
                                &&& pn.neuron_id == src.id
                                &&& pn.activation_response == src.activation_response
                            }
                    },
            decreases n - i,
        {
            proof {
                assert(old(self).genome_ok(old(self).genomes@[i as int]));
            }
            let depth = self.calculate_net_depth(&self.genomes[i]);
            let mut g = Genome::new();
            self.genomes.set_and_swap(i, &mut g);
            g.create_phenotype(depth);
            self.genomes.set_and_swap(i, &mut g);
            proof {
                assert forall|q: int|
                    i + 1 <= q < n implies #[trigger] self.genomes@[q] == old(self).genomes@[q]
                    by {}
            }
            i = i + 1;
        }
        proof {
            assert forall|q: int| 0 <= q < self.genomes@.len() implies self.genome_ok(
                #[trigger] self.genomes@[q],
            ) by {
                assert(old(self).genome_ok(old(self).genomes@[q]));
            }
        }
    }

    /// The phenotype of agent `index`, for the host to drive step by step.
    pub fn get_phenotype(&mut self, index: usize) -> (r: &mut NeuralNet)
        requires
            index < old(self).genomes@.len(),
        ensures
            *r == old(self).genomes@[index as int].phenotype,
            final(self).genomes@ == old(self).genomes@.update(
                index as int,
                Genome { phenotype: *final(r), ..old(self).genomes@[index as int] },
            ),
            *final(self) == (GA { genomes: final(self).genomes, ..*old(self) }),
    {
        &mut self.genomes[index].phenotype
    }

    /// Rebuilds the phenotypes of the cached best genomes of the previous
    /// generation and returns their indices into that cache.
    pub fn get_best_phenotypes_from_last_generation(&mut self) -> (r: Vec<usize>)
        requires
            old(self).valid(),
        ensures
            final(self).valid(),
            *final(self) == (GA { best_genomes: final(self).best_genomes, ..*old(self) }),
            final(self).best_genomes@.len() == old(self).best_genomes@.len(),
            r@.len() == old(self).best_genomes@.len(),
            forall|i: int| 0 <= i < r@.len() ==> #[trigger] r@[i] == i,
            forall|i: int|
                0 <= i < final(self).best_genomes@.len() ==> {
                    let g = #[trigger] final(self).best_genomes@[i];
                    &&& g.links@ == old(self).best_genomes@[i].links@
                    &&& g.neurons@ == old(self).best_genomes@[i].neurons@
                    &&& g.same_scalars(old(self).best_genomes@[i])
                    &&& g.phenotype.neurons@.len() == g.neurons@.len()
                    &&& g.phenotype.depth == net_depth_scan(
                        old(self).splits@,
                        old(self).best_genomes@[i].neurons@,
                        old(self).best_genomes@[i].neurons@.len() as int,
                    ) + 2
                    &&& forall|j: int|
                        0 <= j < g.phenotype.outputs@.len() ==> g.phenotype.outputs@[j] == 0
                    &&& forall|j: int|
                        0 <= j < g.phenotype.neurons@.len() ==> {
                            let src = oriented(old(self).best_genomes@[i].neurons@)[j];
                            let pn = #[trigger] g.phenotype.neurons@[j];
                            &&& pn.neuron_type == src.neuron_type
                            &&& pn.neuron_id == src.id
                            &&& pn.activation_response == src.activation_response
                        }
                },
    {
        let mut brains: Vec<usize> = Vec::new();
        let n = self.best_genomes.len();
        let mut gen: usize = 0;
        while gen < n
            invariant
                0 <= gen <= n,
                n == self.best_genomes@.len(),
                old(self).valid(),
                *self == (GA { best_genomes: self.best_genomes, ..*old(self) }),
                self.best_genomes@.len() == old(self).best_genomes@.len(),
                forall|q: int|
                    gen <= q < n ==> #[trigger] self.best_genomes@[q] == old(self).best_genomes@[q],
                forall|q: int|
                    0 <= q < gen ==> {
                        let g = #[trigger] self.best_genomes@[q];
                        &&& g.wf()
                        &&& g.num_inputs == old(self).num_inputs
                        &&& g.num_outputs == old(self).num_outputs
                        &&& g.ids_below(old(self).innovation.next_neuron())
                        &&& g.phenotype.net_ok()
                        &&& g.phenotype.neurons@.len() > 0 ==> leading_inputs(
                            g.phenotype.neurons@,
                        ) <= old(self).num_inputs && leading_inputs(g.phenotype.neurons@)
                            < g.phenotype.neurons@.len()
                        &&& g.links@ == old(self).best_genomes@[q].links@
                        &&& g.neurons@ == old(self).best_genomes@[q].neurons@
                        &&& g.same_scalars(old(self).best_genomes@[q])
                        &&& g.phenotype.neurons@.len() == g.neurons@.len()
                        &&& g.phenotype.depth == net_depth_scan(
                            old(self).splits@,
                            old(self).best_genomes@[q].neurons@,
                            old(self).best_genomes@[q].neurons@.len() as int,
                        ) + 2
                        &&& forall|j: int|
                            0 <= j < g.phenotype.outputs@.len() ==> g.phenotype.outputs@[j] == 0
                        &&& forall|j: int|
                            0 <= j < g.phenotype.neurons@.len() ==> {
                                let src = oriented(old(self).best_genomes@[q].neurons@)[j];
                                let pn = #[trigger] g.phenotype.neurons@[j];
                                &&& pn.neuron_type == src.neuron_type
                                &&& pn.neuron_id == src.id
                                &&& pn.activation_response == src.activation_response
                            }
                    },
                brains@.len() == gen,
                forall|i: int| 0 <= i < gen ==> #[trigger] brains@[i] == i,
            decreases n - gen,
        {
            proof {
                assert(old(self).genome_ok(old(self).best_genomes@[gen as int]));
            }
            let depth = self.calculate_net_depth(&self.best_genomes[gen]);
            let mut g = Genome::new();
            self.best_genomes.set_and_swap(gen, &mut g);
            g.create_phenotype(depth);
            self.best_genomes.set_and_swap(gen, &mut g);
            brains.push(gen);
            gen = gen + 1;
        }
        proof {
            assert forall|q: int| 0 <= q < self.best_genomes@.len() implies self.genome_ok(
                #[trigger] self.best_genomes@[q],
            ) by {
                if q < n {
                } else {
                    assert(old(self).genome_ok(old(self).best_genomes@[q]));
                }
            }
        }
        brains
    }

    /// Purges every species (ageing it and zeroing its pending spawns),
    /// drops species that stagnated without ever holding the best genome,
    /// resets the shared-fitness tallies, and deletes every phenotype.
    fn reset_and_kill(&mut self)
        requires
            old(self).valid(),
        ensures
            final(self).valid(),
            *final(self) == (GA {
                species: final(self).species,
                genomes: final(self).genomes,
                tot_fit_adj: 0,
                av_fit_adj: 0,
                ..*old(self)
            }),
            final(self).genomes@.len() == old(self).genomes@.len(),
            forall|i: int|
                0 <= i < final(self).genomes@.len() ==> {
                    let g = #[trigger] final(self).genomes@[i];
                    &&& g.links@ == old(self).genomes@[i].links@
                    &&& g.neurons@ == old(self).genomes@[i].neurons@
                    &&& g.same_scalars(old(self).genomes@[i])
                    &&& g.phenotype.neurons@.len() == 0
                    &&& g.phenotype.outputs@.len() == 0
                },
            forall|i: int|
                0 <= i < final(self).species@.len() ==> (#[trigger] final(self).species@[i]).members@.len()
                    == 0 && final(self).species@[i].spawns_rqd == 0,
    {
        self.tot_fit_adj = 0;
        self.av_fit_adj = 0;
        let best_ever = self.best_ever_fitness;
        let mut old_species: Vec<Species> = Vec::new();
        core::mem::swap(&mut old_species, &mut self.species);
        let ns = old_species.len();
        let mut idx: usize = 0;
        while idx < ns
            invariant
                old(self).valid(),
                0 <= idx <= ns,
                ns == old_species@.len(),
                ns == old(self).species@.len(),
                *self == (GA {
                    species: self.species,
                    tot_fit_adj: 0,
                    av_fit_adj: 0,
                    ..*old(self)
                }),
                best_ever == old(self).best_ever_fitness,
                forall|q: int|
                    idx <= q < ns ==> #[trigger] old_species@[q] == old(self).species@[q],
                forall|i: int|
                    0 <= i < self.species@.len() ==> {
                        let sp = #[trigger] self.species@[i];
                        &&& sp.members@.len() == 0
                        &&& sp.spawns_rqd == 0
                        &&& sp.wf(
                            old(self).num_inputs as int,
                            old(self).num_outputs as int,
                            old(self).pop_size as int,
                        )
                        &&& sp.leader.ids_below(old(self).innovation.next_neuron())
                    },
            decreases ns - idx,
        {
            let mut sp = Species {
                leader: Genome::new(),
                members: Vec::new(),
                species_id: 0,
                best_fitness: 0,
                gens_no_improvement: 0,
                age: 0,
                spawns_rqd: 0,
            };
            old_species.set_and_swap(idx, &mut sp);
            proof {
                assert(sp == old(self).species@[idx as int]);
                assert(old(self).species@[idx as int].wf(
                    old(self).num_inputs as int,
                    old(self).num_outputs as int,
                    old(self).pop_size as int,
                ) && old(self).species@[idx as int].leader.ids_below(
                    old(self).innovation.next_neuron(),
                ));
            }
            sp.purge();
            if !(sp.gens_no_improvement() > NUM_GENS_ALLOWED_NO_IMPROVEMENT && sp.best_fitness()
                < best_ever) {
                self.species.push(sp);
            }
            idx = idx + 1;
        }
        let n = self.genomes.len();
        let mut i: usize = 0;
        while i < n
            invariant
                0 <= i <= n,
                n == self.genomes@.len(),
                old(self).valid(),
                *self == (GA {
                    species: self.species,
                    genomes: self.genomes,
                    tot_fit_adj: 0,
                    av_fit_adj: 0,
                    ..*old(self)
                }),
                self.genomes@.len() == old(self).genomes@.len(),
                forall|q: int|
                    i <= q < n ==> #[trigger] self.genomes@[q] == old(self).genomes@[q],
                forall|q: int|
                    0 <= q < i ==> #[trigger] self.genomes@[q] == (Genome {
                        phenotype: self.genomes@[q].phenotype,
                        ..old(self).genomes@[q]
                    }) && self.genomes@[q].phenotype.neurons@.len() == 0
                        && self.genomes@[q].phenotype.outputs@.len() == 0
                        && self.genomes@[q].phenotype.depth == 0,
                forall|i2: int|
                    0 <= i2 < self.species@.len() ==> {
                        let sp = #[trigger] self.species@[i2];
                        &&& sp.members@.len() == 0
                        &&& sp.spawns_rqd == 0
                        &&& sp.wf(
                            old(self).num_inputs as int,
                            old(self).num_outputs as int,
                            old(self).pop_size as int,
                        )
                        &&& sp.leader.ids_below(old(self).innovation.next_neuron())
                    },
            decreases n - i,
        {
            let g = &mut self.genomes[i];
            g.phenotype = NeuralNet::empty();
            i = i + 1;
        }
        proof {
            assert forall|q: int| 0 <= q < self.genomes@.len() implies self.genome_ok(
                #[trigger] self.genomes@[q],
            ) by {
                assert(old(self).genome_ok(old(self).genomes@[q]));
            }
        }
    }
}


/// Writes one genome's raw fitness in place.
fn set_genome_fitness(genomes: &mut Vec<Genome>, i: usize, v: i64)
    requires
        i < old(genomes)@.len(),
    ensures
        final(genomes)@ == old(genomes)@.update(
            i as int,
            Genome { fitness: v, ..old(genomes)@[i as int] },
        ),
{
    let g = &mut genomes[i];
    g.fitness = v;
}

/// Writes one genome's spawn amount in place.
fn set_genome_spawn(genomes: &mut Vec<Genome>, i: usize, v: i64)
    requires
        i < old(genomes)@.len(),
    ensures
        final(genomes)@ == old(genomes)@.update(
            i as int,
            Genome { amount_to_spawn: v, ..old(genomes)@[i as int] },
        ),
{
    let g = &mut genomes[i];
    g.amount_to_spawn = v;
}

/// Writes one genome's species tag in place.
fn set_genome_species(genomes: &mut Vec<Genome>, i: usize, v: i64)
    requires
        i < old(genomes)@.len(),
    ensures
        final(genomes)@ == old(genomes)@.update(
            i as int,
            Genome { species: v, ..old(genomes)@[i as int] },
        ),
{
    let g = &mut genomes[i];
    g.species = v;
}

impl GA {
    /// Assigns every genome to the first species whose leader it is
    /// compatible with (founding a new species when none is), shares
    /// fitness within each species, computes the population-wide average
    /// adjusted fitness and every genome's and species' spawn quota.
    #[verifier::rlimit(80)]
    fn speciate_and_calculate_spawn_levels(&mut self)
        requires
            old(self).valid(),
            forall|i: int|
                0 <= i < old(self).species@.len() ==> (#[trigger] old(self).species@[i]).members@.len()
                    == 0 && old(self).species@[i].spawns_rqd == 0,
            old(self).next_species_id + old(self).pop_size < 0x4000_0000_0000_0000,
        ensures
            final(self).valid(),
            *final(self) == (GA {
                genomes: final(self).genomes,
                species: final(self).species,
                next_species_id: final(self).next_species_id,
                tot_fit_adj: final(self).tot_fit_adj,
                av_fit_adj: final(self).av_fit_adj,
                ..*old(self)
            }),
            final(self).genomes@.len() == old(self).genomes@.len(),
            forall|i: int|
                0 <= i < final(self).genomes@.len() ==> {
                    let g = #[trigger] final(self).genomes@[i];
                    &&& g.links@ == old(self).genomes@[i].links@
                    &&& g.neurons@ == old(self).genomes@[i].neurons@
                    &&& g.fitness == old(self).genomes@[i].fitness
                    &&& g.genome_id == old(self).genomes@[i].genome_id
                    &&& g.phenotype == old(self).genomes@[i].phenotype
                },
            forall|i: int|
                0 <= i < final(self).species@.len() ==> ((#[trigger] final(self).species@[i]).members@.len()
                    == 0 ==> final(self).species@[i].spawns_rqd == 0),
            all_assigned(final(self).species@, old(self).genomes@.len() as int),
            members_unique(final(self).species@),
            sharing_applied(final(self).species@, final(self).genomes@),
            final(self).tot_fit_adj == if sum_adjusted(final(self).genomes@)
                <= 0x4000_0000_0000_0000 {
                sum_adjusted(final(self).genomes@)
            } else {
                0x4000_0000_0000_0000
            },
            final(self).av_fit_adj == final(self).tot_fit_adj as int / old(self).genomes@.len() as int,
            forall|i: int|
                0 <= i < final(self).genomes@.len()
                    ==> (#[trigger] final(self).genomes@[i]).amount_to_spawn == spawn_amount(
                    final(self).genomes@[i].adjusted_fitness as int,
                    final(self).av_fit_adj as int,
                ),
            quotas_computed(final(self).species@, final(self).genomes@),
    {
        let pop = self.genomes.len();
        let ghost mid0 = *self;
        let mut gen: usize = 0;
        while gen < pop
            invariant
                old(self).valid(),
                0 <= gen <= pop,
                pop == self.genomes@.len(),
                pop == old(self).genomes@.len(),
                pop == old(self).pop_size,
                *self == (GA {
                    genomes: self.genomes,
                    species: self.species,
                    next_species_id: self.next_species_id,
                    ..*old(self)
                }),
                old(self).next_species_id + old(self).pop_size < 0x4000_0000_0000_0000,
                old(self).next_species_id <= self.next_species_id <= old(self).next_species_id
                    + gen,
                forall|i: int|
                    0 <= i < pop ==> {
                        let g = #[trigger] self.genomes@[i];
                        &&& g == (Genome { species: g.species, ..old(self).genomes@[i] })
                    },
                forall|i: int|
                    0 <= i < self.species@.len() ==> {
                        let sp = #[trigger] self.species@[i];
                        &&& sp.wf(
                            old(self).num_inputs as int,
                            old(self).num_outputs as int,
                            old(self).pop_size as int,
                        )
                        &&& sp.leader.ids_below(old(self).innovation.next_neuron())
                        &&& sp.members@.len() <= gen
                        &&& sp.spawns_rqd == 0
                        &&& forall|q: int|
                            0 <= q < sp.members@.len() ==> (#[trigger] sp.members@[q]) < gen
                        &&& forall|q1: int, q2: int|
                            0 <= q1 < q2 < sp.members@.len() ==> (#[trigger] sp.members@[q1]) < (
                            #[trigger] sp.members@[q2])
                    },
                all_assigned(self.species@, gen as int),
                members_unique(self.species@),
            decreases pop - gen,
        {
            let ghost sp_entry = self.species@;
            let ns = self.species.len();
            let mut spc_selected: usize = ns;
            let mut spc: usize = 0;
            while spc < ns && spc_selected == ns
                invariant
                    0 <= spc <= ns,
                    ns == self.species@.len(),
                    0 <= gen < pop,
                    pop == self.genomes@.len(),
                    spc_selected <= ns,
                    forall|i: int|
                        0 <= i < self.species@.len() ==> (#[trigger] self.species@[i]).leader.wf(),
                    forall|i: int| 0 <= i < pop ==> (#[trigger] self.genomes@[i]).wf(),
                decreases ns - spc,
            {
                let compatibility = self.genomes[gen].get_compatibility_score(
                    self.species[spc].leader(),
                );
                if compatibility <= COMPATIBILITY_THRESHOLD {
                    spc_selected = spc;
                }
                spc = spc + 1;
            }
            if spc_selected < ns {
                let ghost sp_before = self.species@[spc_selected as int];
                let mut sp = Species {
                    leader: Genome::new(),
                    members: Vec::new(),
                    species_id: 0,
                    best_fitness: 0,
                    gens_no_improvement: 0,
                    age: 0,
                    spawns_rqd: 0,
                };
                self.species.set_and_swap(spc_selected, &mut sp);
                let sid = sp.id();
                sp.add_member(&self.genomes[gen], gen);
                self.species.set_and_swap(spc_selected, &mut sp);
                set_genome_species(&mut self.genomes, gen, sid);
                proof {
                    assert(self.species@[spc_selected as int].members@[sp_before.members@.len()
                        as int] == gen);
                    assert forall|g2: int| 0 <= g2 < gen + 1 implies assigned_somewhere(
                        self.species@,
                        g2,
                    ) by {
                        if g2 < gen {
                            assert(assigned_somewhere(sp_entry, g2));
                            let (s0, t0) = choose|s0: int, t0: int|
                                0 <= s0 < sp_entry.len() && 0 <= t0 < sp_entry[s0].members@.len()
                                    && (#[trigger] sp_entry[s0].members@[t0]) == g2;
                            if s0 == spc_selected {
                                assert(self.species@[s0].members@[t0] == g2);
                            } else {
                                assert(self.species@[s0] == sp_entry[s0]);
                                assert(self.species@[s0].members@[t0] == g2);
                            }
                        } else {
                            assert(self.species@[spc_selected as int].members@[sp_before.members@.len() as int]
                                == g2);
                        }
                    }
                    assert forall|i: int|
                        0 <= i < self.species@.len() implies {
                        let sp2 = #[trigger] self.species@[i];
                        &&& sp2.wf(
                            old(self).num_inputs as int,
                            old(self).num_outputs as int,
                            old(self).pop_size as int,
                        )
                        &&& sp2.leader.ids_below(old(self).innovation.next_neuron())
                        &&& sp2.members@.len() <= gen + 1
                        &&& sp2.spawns_rqd == 0
                        &&& forall|q: int|
                            0 <= q < sp2.members@.len() ==> (#[trigger] sp2.members@[q]) < gen + 1
                        &&& forall|q1: int, q2: int|
                            0 <= q1 < q2 < sp2.members@.len() ==> (#[trigger] sp2.members@[q1])
                                < (#[trigger] sp2.members@[q2])
                    } by {
                        if i == spc_selected {
                            assert(self.species@[i].members@ == sp_before.members@.push(gen));
                        }
                    }
                    assert forall|s1: int, t1: int, s2: int, t2: int|
                        0 <= s1 < self.species@.len() && 0 <= t1
                            < self.species@[s1].members@.len() && 0 <= s2 < self.species@.len()
                            && 0 <= t2 < self.species@[s2].members@.len() && (s1 != s2 || t1
                            != t2) implies (#[trigger] self.species@[s1].members@[t1]) != (
                        #[trigger] self.species@[s2].members@[t2]) by {
                        let old_len = sp_before.members@.len() as int;
                        if s1 == spc_selected && t1 == old_len {
                            assert(self.species@[s1].members@[t1] == gen);
                            if s2 == spc_selected && t2 < old_len {
                                assert(self.species@[s2].members@[t2] == sp_entry[s2].members@[t2]
                                    < gen);
                            } else if s2 != spc_selected {
                                assert(self.species@[s2].members@[t2] == sp_entry[s2].members@[t2]
                                    < gen);
                            }
                        } else if s2 == spc_selected && t2 == old_len {
                            assert(self.species@[s2].members@[t2] == gen);
                            if s1 == spc_selected && t1 < old_len {
                                assert(self.species@[s1].members@[t1] == sp_entry[s1].members@[t1]
                                    < gen);
                            } else if s1 != spc_selected {
                                assert(self.species@[s1].members@[t1] == sp_entry[s1].members@[t1]
                                    < gen);
                            }
                        } else {
                            assert(self.species@[s1].members@[t1] == sp_entry[s1].members@[t1]);
                            assert(self.species@[s2].members@[t2] == sp_entry[s2].members@[t2]);
                        }
                    }
                }
            } else {
                let sp = Species::new(&self.genomes[gen], gen, self.next_species_id);
                self.species.push(sp);
                self.next_species_id = self.next_species_id + 1;
                proof {
                    assert(self.species@[self.species@.len() - 1].members@[0] == gen);
                    assert forall|s1: int, t1: int, s2: int, t2: int|
                        0 <= s1 < self.species@.len() && 0 <= t1
                            < self.species@[s1].members@.len() && 0 <= s2 < self.species@.len()
                            && 0 <= t2 < self.species@[s2].members@.len() && (s1 != s2 || t1
                            != t2) implies (#[trigger] self.species@[s1].members@[t1]) != (
                        #[trigger] self.species@[s2].members@[t2]) by {
                        let newi = self.species@.len() - 1;
                        if s1 == newi {
                            assert(self.species@[s1].members@[t1] == gen);
                            assert(s2 < newi);
                            assert(self.species@[s2] == sp_entry[s2]);
                            assert(self.species@[s2].members@[t2] < gen);
                        } else if s2 == newi {
                            assert(self.species@[s2].members@[t2] == gen);
                            assert(s1 < newi);
                            assert(self.species@[s1] == sp_entry[s1]);
                            assert(self.species@[s1].members@[t1] < gen);
                        } else {
                            assert(self.species@[s1] == sp_entry[s1]);
                            assert(self.species@[s2] == sp_entry[s2]);
                        }
                    }
                    assert forall|g2: int| 0 <= g2 < gen + 1 implies assigned_somewhere(
                        self.species@,
                        g2,
                    ) by {
                        if g2 < gen {
                            assert(assigned_somewhere(sp_entry, g2));
                            let (s0, t0) = choose|s0: int, t0: int|
                                0 <= s0 < sp_entry.len() && 0 <= t0 < sp_entry[s0].members@.len()
                                    && (#[trigger] sp_entry[s0].members@[t0]) == g2;
                            assert(self.species@[s0] == sp_entry[s0]);
                            assert(self.species@[s0].members@[t0] == g2);
                        } else {
                            assert(self.species@[self.species@.len() - 1].members@[0] == g2);
                        }
                    }
                }
            }
            gen = gen + 1;
        }
        // fitness sharing within each species
        let ns2 = self.species.len();
        let ghost after_assign = *self;
        let mut spc2: usize = 0;
        while spc2 < ns2
            invariant
                old(self).valid(),
                0 <= spc2 <= ns2,
                ns2 == self.species@.len(),
                pop == self.genomes@.len(),
                pop == old(self).genomes@.len(),
                pop == old(self).pop_size,
                *self == (GA {
                    genomes: self.genomes,
                    species: self.species,
                    next_species_id: after_assign.next_species_id,
                    ..*old(self)
                }),
                self.species@ == after_assign.species@,
                all_assigned(self.species@, pop as int),
                members_unique(self.species@),
                forall|s: int, t: int|
                    0 <= s < spc2 && 0 <= t < self.species@[s].members@.len() ==> {
                        let m = (#[trigger] self.species@[s].members@[t]) as int;
                        &&& 0 <= m < pop
                        &&& self.genomes@[m].adjusted_fitness == crate::species::shared_fitness(
                            self.genomes@[m].fitness as int,
                            self.species@[s].age as int,
                            self.species@[s].members@.len() as int,
                        )
                    },
                forall|i: int|
                    0 <= i < pop ==> {
                        let g = #[trigger] self.genomes@[i];
                        &&& g == (Genome {
                            species: g.species,
                            adjusted_fitness: g.adjusted_fitness,
                            ..old(self).genomes@[i]
                        })
                        &&& g.wf()
                    },
                forall|i: int|
                    0 <= i < self.species@.len() ==> {
                        let sp = #[trigger] self.species@[i];
                        &&& sp.wf(
                            old(self).num_inputs as int,
                            old(self).num_outputs as int,
                            old(self).pop_size as int,
                        )
                        &&& sp.leader.ids_below(old(self).innovation.next_neuron())
                        &&& sp.members@.len() <= pop
                        &&& sp.spawns_rqd == 0
                        &&& forall|q: int|
                            0 <= q < sp.members@.len() ==> (#[trigger] sp.members@[q]) < pop
                        &&& forall|q1: int, q2: int|
                            0 <= q1 < q2 < sp.members@.len() ==> (#[trigger] sp.members@[q1]) < (
                            #[trigger] sp.members@[q2])
                    },
            decreases ns2 - spc2,
        {
            if self.species[spc2].num_members() > 0 {
                let ghost sp_b = self.species@[spc2 as int];
                let mut sp = Species {
                    leader: Genome::new(),
                    members: Vec::new(),
                    species_id: 0,
                    best_fitness: 0,
                    gens_no_improvement: 0,
                    age: 0,
                    spawns_rqd: 0,
                };
                self.species.set_and_swap(spc2, &mut sp);
                proof {
                    assert(sp.members@.no_duplicates()) by {
                        assert forall|q1: int, q2: int|
                            0 <= q1 < sp.members@.len() && 0 <= q2 < sp.members@.len() && q1 != q2
                                implies sp.members@[q1] != sp.members@[q2] by {
                            if q1 < q2 {
                                assert(sp.members@[q1] < sp.members@[q2]);
                            } else {
                                assert(sp.members@[q2] < sp.members@[q1]);
                            }
                        }
                    }
                }
                let ghost genomes_b = self.genomes@;
                sp.adjust_fitnesses(&mut self.genomes);
                self.species.set_and_swap(spc2, &mut sp);
                proof {
                    assert(self.species@ =~= after_assign.species@);
                    assert forall|i: int| 0 <= i < pop implies {
                        let g = #[trigger] self.genomes@[i];
                        &&& g == (Genome {
                            species: g.species,
                            adjusted_fitness: g.adjusted_fitness,
                            ..old(self).genomes@[i]
                        })
                        &&& g.wf()
                    } by {
                        if sp_b.members@.contains(i as usize) {
                            let q = choose|q: int|
                                0 <= q < sp_b.members@.len() && sp_b.members@[q] == i as usize;
                            assert(self.genomes@[i] == (Genome {
                                adjusted_fitness: self.genomes@[i].adjusted_fitness,
                                ..genomes_b[i]
                            }));
                        } else {
                            assert(self.genomes@[i] == genomes_b[i]);
                        }
                    }
                    assert forall|s: int, t: int|
                        0 <= s < spc2 + 1 && 0 <= t < self.species@[s].members@.len() implies {
                        let m = (#[trigger] self.species@[s].members@[t]) as int;
                        &&& 0 <= m < pop
                        &&& self.genomes@[m].adjusted_fitness == crate::species::shared_fitness(
                            self.genomes@[m].fitness as int,
                            self.species@[s].age as int,
                            self.species@[s].members@.len() as int,
                        )
                    } by {
                        let m = self.species@[s].members@[t] as int;
                        if s == spc2 as int {
                            assert(self.species@[s].members@ == sp_b.members@);
                            assert(sp_b.members@[t] == m as usize);
                            assert(self.genomes@[m] == (Genome {
                                adjusted_fitness: crate::species::shared_fitness(
                                    genomes_b[m].fitness as int,
                                    sp_b.age as int,
                                    sp_b.members@.len() as int,
                                ) as i64,
                                ..genomes_b[m]
                            }));
                        } else {
                            assert(!sp_b.members@.contains(m as usize)) by {
                                if sp_b.members@.contains(m as usize) {
                                    let t2 = choose|t2: int|
                                        0 <= t2 < sp_b.members@.len() && sp_b.members@[t2] == m
                                            as usize;
                                    assert(self.species@[spc2 as int].members@[t2] == m as usize);
                                    assert(self.species@[s].members@[t] == self.species@[spc2
                                        as int].members@[t2]);
                                    assert(false);
                                }
                            }
                            assert(self.genomes@[m] == genomes_b[m]);
                            assert(genomes_b[m].adjusted_fitness
                                == crate::species::shared_fitness(
                                genomes_b[m].fitness as int,
                                self.species@[s].age as int,
                                self.species@[s].members@.len() as int,
                            ));
                        }
                    }
                }
            }
            spc2 = spc2 + 1;
        }
        // population-wide average adjusted fitness
        let ghost shared_done = self.genomes@;
        let mut tot: i128 = 0;
        let mut k: usize = 0;
        while k < pop
            invariant
                0 <= k <= pop,
                pop == self.genomes@.len(),
                self.genomes@ == shared_done,
                forall|i: int| 0 <= i < pop ==> (#[trigger] self.genomes@[i]).wf(),
                0 <= tot <= (k as int) * ADJ_CAP,
                tot == sum_adjusted(shared_done.subrange(0, k as int)),
            decreases pop - k,
        {
            proof {
                assert((k as int) * ADJ_CAP + ADJ_CAP == ((k + 1) as int) * ADJ_CAP)
                    by (nonlinear_arith);
                assert(((k + 1) as int) * ADJ_CAP <= 0x1_0000_0000_0000_0000 * ADJ_CAP)
                    by (nonlinear_arith)
                    requires
                        k + 1 <= 0x1_0000_0000_0000_0000,
                ;
            }
            tot = tot + (self.genomes[k].get_adj_fitness() as i128);
            proof {
                let sub1 = shared_done.subrange(0, k + 1);
                assert(sub1.drop_last() =~= shared_done.subrange(0, k as int));
                assert(sub1.last() == shared_done[k as int]);
            }
            k = k + 1;
        }
        proof {
            assert(shared_done.subrange(0, pop as int) =~= shared_done);
        }
        let tot_sat: i64 = if tot > 0x4000_0000_0000_0000i128 {
            0x4000_0000_0000_0000i64
        } else {
            tot as i64
        };
        self.tot_fit_adj = tot_sat;
        proof {
            assert(pop >= 1);
        }
        let av: i64 = tot_sat / (pop as i64);
        proof {
            assert(0 <= av) by (nonlinear_arith)
                requires
                    av == tot_sat as int / (pop as int),
                    0 <= tot_sat,
                    1 <= pop,
            ;
        }
        self.av_fit_adj = av;
        // individual spawn amounts
        let mut k2: usize = 0;
        while k2 < pop
            invariant
                old(self).valid(),
                0 <= k2 <= pop,
                pop == self.genomes@.len(),
                pop == old(self).genomes@.len(),
                pop == old(self).pop_size,
                0 <= av,
                *self == (GA {
                    genomes: self.genomes,
                    species: self.species,
                    next_species_id: after_assign.next_species_id,
                    tot_fit_adj: tot_sat,
                    av_fit_adj: av,
                    ..*old(self)
                }),
                self.species@ == after_assign.species@,
                members_unique(self.species@),
                forall|i: int|
                    0 <= i < pop ==> {
                        let g = #[trigger] self.genomes@[i];
                        &&& g == (Genome {
                            species: g.species,
                            adjusted_fitness: g.adjusted_fitness,
                            amount_to_spawn: g.amount_to_spawn,
                            ..old(self).genomes@[i]
                        })
                        &&& g.wf()
                    },
                shared_done.len() == pop,
                forall|i: int|
                    0 <= i < pop ==> #[trigger] self.genomes@[i] == (Genome {
                        amount_to_spawn: self.genomes@[i].amount_to_spawn,
                        ..shared_done[i]
                    }),
                forall|i: int|
                    0 <= i < k2 ==> (#[trigger] self.genomes@[i]).amount_to_spawn == spawn_amount(
                        self.genomes@[i].adjusted_fitness as int,
                        av as int,
                    ),
                sharing_applied(self.species@, shared_done),
                forall|i: int|
                    0 <= i < self.species@.len() ==> {
                        let sp = #[trigger] self.species@[i];
                        &&& sp.wf(
                            old(self).num_inputs as int,
                            old(self).num_outputs as int,
                            old(self).pop_size as int,
                        )
                        &&& sp.leader.ids_below(old(self).innovation.next_neuron())
                        &&& sp.members@.len() <= pop
                        &&& sp.spawns_rqd == 0
                        &&& forall|q: int|
                            0 <= q < sp.members@.len() ==> (#[trigger] sp.members@[q]) < pop
                        &&& forall|q1: int, q2: int|
                            0 <= q1 < q2 < sp.members@.len() ==> (#[trigger] sp.members@[q1]) < (
                            #[trigger] sp.members@[q2])
                    },
            decreases pop - k2,
        {
            let adj = self.genomes[k2].get_adj_fitness();
            let to_spawn: i64 = if av > 0 {
                proof {
                    assert(0 <= ((adj as int) * (SCALE as int)) / (av as int) <= SPAWN_CAP)
                        by (nonlinear_arith)
                        requires
                            0 <= adj <= ADJ_CAP,
                            1 <= av,
                            ADJ_CAP == 2199023255552,
                            SCALE == 1048576,
                            SPAWN_CAP == 2305843009213693952,
                    ;
                }
                (((adj as i128) * (SCALE as i128)) / (av as i128)) as i64
            } else {
                0
            };
            set_genome_spawn(&mut self.genomes, k2, to_spawn);
            proof {
                assert(self.genomes@[k2 as int].amount_to_spawn == to_spawn);
                assert(to_spawn as int == spawn_amount(adj as int, av as int));
            }
            k2 = k2 + 1;
        }
        proof {
            // amounts do not enter the sharing formula, so it carries over
            assert(sharing_applied(self.species@, self.genomes@)) by {
                assert forall|s: int, t: int|
                    0 <= s < self.species@.len() && 0 <= t < self.species@[s].members@.len()
                        implies {
                    let m = (#[trigger] self.species@[s].members@[t]) as int;
                    &&& 0 <= m < self.genomes@.len()
                    &&& self.genomes@[m].adjusted_fitness == crate::species::shared_fitness(
                        self.genomes@[m].fitness as int,
                        self.species@[s].age as int,
                        self.species@[s].members@.len() as int,
                    )
                } by {
                    let m = self.species@[s].members@[t] as int;
                    assert(shared_done[m].adjusted_fitness == crate::species::shared_fitness(
                        shared_done[m].fitness as int,
                        self.species@[s].age as int,
                        self.species@[s].members@.len() as int,
                    ));
                    assert(self.genomes@[m] == (Genome {
                        amount_to_spawn: self.genomes@[m].amount_to_spawn,
                        ..shared_done[m]
                    }));
                }
            }
            lemma_sum_adjusted_congruent(self.genomes@, shared_done);
        }
        // species spawn quotas
        let ghost after_spawn = *self;
        let mut spc3: usize = 0;
        while spc3 < ns2
            invariant
                old(self).valid(),
                0 <= spc3 <= ns2,
                ns2 == self.species@.len(),
                pop == self.genomes@.len(),
                pop == old(self).pop_size,
                self.genomes@ == after_spawn.genomes@,
                all_assigned(self.species@, pop as int),
                members_unique(self.species@),
                sharing_applied(self.species@, self.genomes@),
                ns2 == after_spawn.species@.len(),
                forall|sq: int|
                    0 <= sq < ns2 ==> (#[trigger] after_spawn.species@[sq]).spawns_rqd == 0,
                *self == (GA { species: self.species, genomes: self.genomes, ..after_spawn }),
                forall|i: int|
                    0 <= i < pop ==> (#[trigger] self.genomes@[i]).wf(),
                forall|sq: int|
                    0 <= sq < spc3 ==> (#[trigger] self.species@[sq]).spawns_rqd
                        == if crate::species::sum_spawn(self.genomes@, self.species@[sq].members@)
                        <= 0x4000_0000_0000_0000 {
                        crate::species::sum_spawn(self.genomes@, self.species@[sq].members@)
                    } else {
                        0x4000_0000_0000_0000
                    },
                forall|i: int|
                    0 <= i < self.species@.len() ==> {
                        let sp = #[trigger] self.species@[i];
                        &&& sp.wf(
                            old(self).num_inputs as int,
                            old(self).num_outputs as int,
                            old(self).pop_size as int,
                        )
                        &&& sp.leader.ids_below(old(self).innovation.next_neuron())
                        &&& sp.members@.len() <= pop
                        &&& (sp.members@.len() == 0 ==> sp.spawns_rqd == 0)
                        &&& 0 <= sp.spawns_rqd <= 0x4000_0000_0000_0000
                        &&& forall|q1: int, q2: int|
                            0 <= q1 < q2 < sp.members@.len() ==> (#[trigger] sp.members@[q1]) < (
                            #[trigger] sp.members@[q2])
                    },
                forall|i: int|
                    spc3 <= i < self.species@.len() ==> (#[trigger] self.species@[i])
                        == after_spawn.species@[i],
            decreases ns2 - spc3,
        {
            let ghost entry_sp = self.species@;
            let ghost sp_b = self.species@[spc3 as int];
            let mut sp = Species {
                leader: Genome::new(),
                members: Vec::new(),
                species_id: 0,
                best_fitness: 0,
                gens_no_improvement: 0,
                age: 0,
                spawns_rqd: 0,
            };
            self.species.set_and_swap(spc3, &mut sp);
            sp.calculate_spawn_amount(&self.genomes);
            self.species.set_and_swap(spc3, &mut sp);
            proof {
                assert(sp_b.wf(
                    old(self).num_inputs as int,
                    old(self).num_outputs as int,
                    old(self).pop_size as int,
                ));
                crate::species::lemma_sum_spawn_nonneg(self.genomes@, sp_b.members@);
                if sp_b.members@.len() == 0 {
                    assert(crate::species::sum_spawn(self.genomes@, sp_b.members@) == 0);
                }
                assert(self.species@[spc3 as int] == (Species {
                    spawns_rqd: self.species@[spc3 as int].spawns_rqd,
                    ..sp_b
                }));
                assert forall|g2: int| 0 <= g2 < pop implies assigned_somewhere(
                    self.species@,
                    g2,
                ) by {
                    assert(assigned_somewhere(entry_sp, g2));
                    let (s0, t0) = choose|s0: int, t0: int|
                        0 <= s0 < entry_sp.len() && 0 <= t0 < entry_sp[s0].members@.len() && (
                        #[trigger] entry_sp[s0].members@[t0]) == g2;
                    if s0 == spc3 as int {
                        assert(self.species@[s0].members@ == entry_sp[s0].members@);
                        assert(self.species@[s0].members@[t0] == g2);
                    } else {
                        assert(self.species@[s0] == entry_sp[s0]);
                        assert(self.species@[s0].members@[t0] == g2);
                    }
                }
                assert forall|s1: int| 0 <= s1 < self.species@.len() implies (
                #[trigger] self.species@[s1]).members@ == entry_sp[s1].members@
                    && self.species@[s1].age == entry_sp[s1].age by {
                    if s1 != spc3 as int {
                        assert(self.species@[s1] == entry_sp[s1]);
                    }
                }
                assert forall|s1: int, t1: int, s2: int, t2: int|
                    0 <= s1 < self.species@.len() && 0 <= t1 < self.species@[s1].members@.len()
                        && 0 <= s2 < self.species@.len() && 0 <= t2
                        < self.species@[s2].members@.len() && (s1 != s2 || t1 != t2) implies (
                #[trigger] self.species@[s1].members@[t1]) != (
                #[trigger] self.species@[s2].members@[t2]) by {
                    assert(self.species@[s1].members@[t1] == entry_sp[s1].members@[t1]);
                    assert(self.species@[s2].members@[t2] == entry_sp[s2].members@[t2]);
                }
                assert forall|s1: int, t1: int|
                    0 <= s1 < self.species@.len() && 0 <= t1 < self.species@[s1].members@.len()
                        implies {
                    let m = (#[trigger] self.species@[s1].members@[t1]) as int;
                    &&& 0 <= m < self.genomes@.len()
                    &&& self.genomes@[m].adjusted_fitness == crate::species::shared_fitness(
                        self.genomes@[m].fitness as int,
                        self.species@[s1].age as int,
                        self.species@[s1].members@.len() as int,
                    )
                } by {
                    assert(self.species@[s1].members@[t1] == entry_sp[s1].members@[t1]);
                }
                assert(after_spawn.species@[spc3 as int].spawns_rqd == 0);
                assert(sp_b.spawns_rqd == 0);
                assert forall|sq: int|
                    0 <= sq < spc3 + 1 implies (#[trigger] self.species@[sq]).spawns_rqd
                    == if crate::species::sum_spawn(self.genomes@, self.species@[sq].members@)
                    <= 0x4000_0000_0000_0000 {
                    crate::species::sum_spawn(self.genomes@, self.species@[sq].members@)
                } else {
                    0x4000_0000_0000_0000
                } by {
                    if sq < spc3 as int {
                        assert(self.species@[sq] == entry_sp[sq]);
                    } else {
                        assert(self.species@[sq].members@ == sp_b.members@);
                    }
                }
                assert forall|i: int|
                    0 <= i < self.species@.len() implies {
                    let sp2 = #[trigger] self.species@[i];
                    &&& sp2.wf(
                        old(self).num_inputs as int,
                        old(self).num_outputs as int,
                        old(self).pop_size as int,
                    )
                    &&& sp2.leader.ids_below(old(self).innovation.next_neuron())
                    &&& sp2.members@.len() <= pop
                    &&& (sp2.members@.len() == 0 ==> sp2.spawns_rqd == 0)
                    &&& 0 <= sp2.spawns_rqd <= 0x4000_0000_0000_0000
                    &&& forall|q1: int, q2: int|
                        0 <= q1 < q2 < sp2.members@.len() ==> (#[trigger] sp2.members@[q1]) < (
                        #[trigger] sp2.members@[q2])
                } by {
                    if i != spc3 as int {
                        assert(self.species@[i] == entry_sp[i]);
                    }
                }
            }
            spc3 = spc3 + 1;
        }
        proof {
            assert forall|q: int| 0 <= q < self.genomes@.len() implies self.genome_ok(
                #[trigger] self.genomes@[q],
            ) by {
                assert(old(self).genome_ok(old(self).genomes@[q]));
            }
        }
    }
}


/// The sum of the host-written fitness scores.
pub open spec fn sum_scores(s: Seq<i64>) -> int
    decreases s.len(),
{
    if s.len() == 0 {
        0
    } else {
        sum_scores(s.drop_last()) + s.last()
    }
}

/// The largest host-written fitness score (0 for an empty slot list).
pub open spec fn max_score(s: Seq<i64>) -> int
    decreases s.len(),
{
    if s.len() == 0 {
        0
    } else if s.len() == 1 {
        s[0] as int
    } else {
        let m = max_score(s.drop_last());
        if s.last() > m {
            s.last() as int
        } else {
            m
        }
    }
}

/// Every score is at most the maximum, and some score attains it.
proof fn lemma_max_score_bounds(s: Seq<i64>)
    requires
        s.len() >= 1,
    ensures
        forall|i: int| 0 <= i < s.len() ==> (#[trigger] s[i]) <= max_score(s),
        exists|i: int| 0 <= i < s.len() && (#[trigger] s[i]) == max_score(s),
    decreases s.len(),
{
    if s.len() == 1 {
        assert(s[0] == max_score(s));
    } else {
        lemma_max_score_bounds(s.drop_last());
        assert forall|i: int| 0 <= i < s.len() implies (#[trigger] s[i]) <= max_score(s) by {
            if i < s.len() - 1 {
                assert(s.drop_last()[i] == s[i]);
            }
        }
        if s.last() > max_score(s.drop_last()) {
            assert(s[s.len() - 1] == max_score(s));
        } else {
            let w = choose|w: int|
                0 <= w < s.drop_last().len() && (#[trigger] s.drop_last()[w]) == max_score(
                    s.drop_last(),
                );
            assert(s.drop_last()[w] == s[w]);
            assert(s[w] == max_score(s));
        }
    }
}

/// A fixed-point quota rounded to the nearest whole offspring count.
pub open spec fn round_quota(q: int) -> int {
    (q + HALF) / (SCALE as int)
}

/// The rounded offspring quotas of the first `s` species, summed.
pub open spec fn cum_rounds(species: Seq<Species>, s: int) -> int
    decreases s,
{
    if s <= 0 {
        0
    } else {
        cum_rounds(species, s - 1) + round_quota(species[s - 1].spawns_rqd as int)
    }
}

/// The genome carries exactly the leader's genes (possibly re-sorted) and
/// its neuron list.
pub open spec fn leader_copy(g: Genome, leader: Genome) -> bool {
    &&& g.links@.to_multiset() == leader.links@.to_multiset()
    &&& g.neurons@ == leader.neurons@
}

/// Elitism: every species whose rounded quota fits under the population cap
/// has an unmodified copy of its leader in the new population.
pub open spec fn elites_present(new_pop: Seq<Genome>, species: Seq<Species>, s_upto: int, pop: int) -> bool {
    forall|s: int|
        0 <= s < s_upto && cum_rounds(species, s) + 1 <= pop && round_quota(
            (#[trigger] species[s]).spawns_rqd as int,
        ) >= 1 ==> exists|i: int| 0 <= i < new_pop.len() && leader_copy(#[trigger] new_pop[i], species[s].leader)
}

/// Rounded quotas are non-negative and accumulate monotonically.
proof fn lemma_cum_rounds_step(species: Seq<Species>, s: int)
    requires
        0 <= s < species.len(),
        species[s].spawns_rqd >= 0,
    ensures
        cum_rounds(species, s + 1) == cum_rounds(species, s) + round_quota(
            species[s].spawns_rqd as int,
        ),
        round_quota(species[s].spawns_rqd as int) >= 0,
{
    assert(round_quota(species[s].spawns_rqd as int) >= 0) by (nonlinear_arith)
        requires
            species[s].spawns_rqd >= 0,
            HALF == 524288,
            SCALE == 1048576,
    ;
}

/// A state that differs from a valid one only in its innovation history
/// (grown monotonically, still well-formed) and its genome id allocator is
/// still valid.
proof fn lemma_valid_monotone(mid: GA, cur: GA)
    requires
        mid.valid(),
        cur == (GA { innovation: cur.innovation, next_genome_id: cur.next_genome_id, ..mid }),
        cur.innovation.wf(mid.num_inputs as int, mid.num_outputs as int),
        mid.innovation.next_neuron() <= cur.innovation.next_neuron(),
        0 <= cur.next_genome_id,
    ensures
        cur.valid(),
{
    assert forall|i: int| 0 <= i < cur.genomes@.len() implies cur.genome_ok(
        #[trigger] cur.genomes@[i],
    ) by {
        assert(mid.genome_ok(mid.genomes@[i]));
    }
    assert forall|i: int| 0 <= i < cur.best_genomes@.len() implies cur.genome_ok(
        #[trigger] cur.best_genomes@[i],
    ) by {
        assert(mid.genome_ok(mid.best_genomes@[i]));
    }
    assert forall|i: int|
        0 <= i < cur.species@.len() implies (#[trigger] cur.species@[i]).wf(
        cur.num_inputs as int,
        cur.num_outputs as int,
        cur.pop_size as int,
    ) && cur.species@[i].members@.len() <= cur.pop_size && cur.species@[i].leader.ids_below(
        cur.innovation.next_neuron(),
    ) by {
        assert(mid.species@[i].wf(
            mid.num_inputs as int,
            mid.num_outputs as int,
            mid.pop_size as int,
        ) && mid.species@[i].members@.len() <= mid.pop_size && mid.species@[i].leader.ids_below(
            mid.innovation.next_neuron(),
        ));
    }
}

impl GA {
    /// Advances the population one generation: ingests the fitness scores,
    /// purges and re-speciates, shares fitness, allocates spawn quotas,
    /// reproduces each species (an unmodified elite first, then mutated
    /// clones or crossover children), caps the total at the population size,
    /// tops any rounding shortfall up by tournament selection, replaces the
    /// population, rebuilds every phenotype and counts the generation. The
    /// population size never changes.
    #[verifier::rlimit(100)]
    pub fn epoch(&mut self)
        requires
            old(self).valid(),
            old(self).next_genome_id + 2 * old(self).pop_size < 0x4000_0000_0000_0000,
            old(self).next_species_id + old(self).pop_size < 0x4000_0000_0000_0000,
            old(self).generation < 0x4000_0000_0000_0000,
        ensures
            final(self).valid(),
            final(self).genomes@.len() == old(self).pop_size,
            final(self).pop_size == old(self).pop_size,
            final(self).num_inputs == old(self).num_inputs,
            final(self).num_outputs == old(self).num_outputs,
            final(self).generation == old(self).generation + 1,
            final(self).fitness_scores@ == old(self).fitness_scores@,
            final(self).best_ever_fitness >= old(self).best_ever_fitness,
            final(self).best_ever_fitness == if max_score(old(self).fitness_scores@)
                > old(self).best_ever_fitness {
                max_score(old(self).fitness_scores@)
            } else {
                old(self).best_ever_fitness as int
            },
            final(self).average_fitness == sum_scores(old(self).fitness_scores@)
                / (old(self).pop_size as int),
            final(self).best_genomes@.len() == NUM_BEST_SPRITE,
            forall|i: int, j: int|
                0 <= i < j < final(self).best_genomes@.len()
                    ==> (#[trigger] final(self).best_genomes@[i]).fitness
                    >= (#[trigger] final(self).best_genomes@[j]).fitness,
            final(self).best_genomes@[0].fitness == max_score(old(self).fitness_scores@),
            forall|i: int|
                0 <= i < final(self).best_genomes@.len() ==> exists|k: int|
                    0 <= k < old(self).genomes@.len()
                        && (#[trigger] final(self).best_genomes@[i]).links@ == (#[trigger] old(
                        self,
                    ).genomes@[k]).links@ && final(self).best_genomes@[i].neurons@ == old(
                        self,
                    ).genomes@[k].neurons@ && final(self).best_genomes@[i].fitness == old(
                        self,
                    ).fitness_scores@[k],
            forall|i: int|
                0 <= i < final(self).genomes@.len() ==> {
                    let g = #[trigger] final(self).genomes@[i];
                    &&& g.phenotype.neurons@.len() == g.neurons@.len()
                    &&& g.neurons@.len() > 0
                    &&& g.phenotype.depth == net_depth_scan(
                        final(self).splits@,
                        g.neurons@,
                        g.neurons@.len() as int,
                    ) + 2
                    &&& forall|j: int|
                        0 <= j < g.phenotype.outputs@.len() ==> g.phenotype.outputs@[j] == 0
                    &&& forall|j: int|
                        0 <= j < g.phenotype.neurons@.len() ==> {
                            let src = oriented(g.neurons@)[j];
                            let pn = #[trigger] g.phenotype.neurons@[j];
                            &&& pn.neuron_type == src.neuron_type
                            &&& pn.neuron_id == src.id
                        }
                },
            elites_present(
                final(self).genomes@,
                final(self).species@,
                final(self).species@.len() as int,
                old(self).pop_size as int,
            ),
    {
        broadcast use vstd::seq_lib::group_to_multiset_ensures;

        self.reset_and_kill();
        let pop = self.pop_size;
        let mut gi: usize = 0;
        while gi < pop
            invariant
                old(self).valid(),
                0 <= gi <= pop,
                pop == old(self).pop_size,
                pop == self.genomes@.len(),
                *self == (GA {
                    species: self.species,
                    genomes: self.genomes,
                    tot_fit_adj: 0,
                    av_fit_adj: 0,
                    ..*old(self)
                }),
                self.fitness_scores@ == old(self).fitness_scores@,
                self.fitness_scores@.len() == pop,
                forall|i: int|
                    0 <= i < self.species@.len() ==> {
                        let sp = #[trigger] self.species@[i];
                        &&& sp.members@.len() == 0
                        &&& sp.spawns_rqd == 0
                        &&& sp.wf(
                            old(self).num_inputs as int,
                            old(self).num_outputs as int,
                            old(self).pop_size as int,
                        )
                        &&& sp.leader.ids_below(old(self).innovation.next_neuron())
                    },
                forall|i: int|
                    0 <= i < pop ==> {
                        let g = #[trigger] self.genomes@[i];
                        &&& g.wf()
                        &&& g.num_inputs == old(self).num_inputs
                        &&& g.num_outputs == old(self).num_outputs
                        &&& g.ids_below(old(self).innovation.next_neuron())
                        &&& g.phenotype.neurons@.len() == 0
                        &&& g.phenotype.outputs@.len() == 0
                        &&& g.phenotype.net_ok()
                    },
                forall|i: int|
                    0 <= i < gi ==> (#[trigger] self.genomes@[i]).fitness == old(
                        self,
                    ).fitness_scores@[i],
                forall|i: int|
                    0 <= i < pop ==> (#[trigger] self.genomes@[i]).links@ == old(
                        self,
                    ).genomes@[i].links@ && self.genomes@[i].neurons@ == old(self).genomes@[i].neurons@,
            decreases pop - gi,
        {
            let sc = self.fitness_scores[gi];
            set_genome_fitness(&mut self.genomes, gi, sc);
            gi = gi + 1;
        }
        let mut total: i128 = 0;
        let mut ti: usize = 0;
        while ti < pop
            invariant
                0 <= ti <= pop,
                pop == self.genomes@.len(),
                pop == self.fitness_scores@.len(),
                self.fitness_scores@ == old(self).fitness_scores@,
                forall|i: int| 0 <= i < pop ==> (#[trigger] self.genomes@[i]).wf(),
                forall|i: int|
                    0 <= i < pop ==> (#[trigger] self.genomes@[i]).fitness == old(
                        self,
                    ).fitness_scores@[i],
                0 <= total <= (ti as int) * FIT_CAP,
                total == sum_scores(old(self).fitness_scores@.subrange(0, ti as int)),
            decreases pop - ti,
        {
            proof {
                assert((ti as int) * FIT_CAP + FIT_CAP == ((ti + 1) as int) * FIT_CAP)
                    by (nonlinear_arith);
                assert(((ti + 1) as int) * FIT_CAP <= 0x1_0000_0000_0000_0000 * FIT_CAP)
                    by (nonlinear_arith)
                    requires
                        ti + 1 <= 0x1_0000_0000_0000_0000,
                ;
            }
            total = total + (self.genomes[ti].fitness() as i128);
            proof {
                let sub1 = old(self).fitness_scores@.subrange(0, ti + 1);
                assert(sub1.drop_last() =~= old(self).fitness_scores@.subrange(0, ti as int));
                assert(sub1.last() == old(self).fitness_scores@[ti as int]);
            }
            ti = ti + 1;
        }
        proof {
            assert(pop >= 1);
            assert(old(self).fitness_scores@.subrange(0, pop as int) =~= old(
                self,
            ).fitness_scores@);
            assert(0 <= total / (pop as i128) <= FIT_CAP) by (nonlinear_arith)
                requires
                    0 <= total <= (pop as int) * FIT_CAP,
                    1 <= pop,
                    FIT_CAP == 1099511627776,
            ;
        }
        self.average_fitness = (total / (pop as i128)) as i64;
        proof {
            assert(self.valid());
        }
        let ghost assigned = self.genomes@;
        let ghost best_before = self.best_ever_fitness;
        self.sort_and_record();
        proof {
            lemma_max_score_bounds(old(self).fitness_scores@);
            // the sorted front carries exactly the largest ingested score
            assert(self.genomes@.len() > 0);
            assert(self.genomes@.contains(self.genomes@[0]));
            assert(assigned.to_multiset().count(self.genomes@[0]) > 0);
            assert(assigned.contains(self.genomes@[0]));
            let k = choose|k: int| 0 <= k < assigned.len() && assigned[k] == self.genomes@[0];
            assert(assigned[k].fitness == old(self).fitness_scores@[k]);
            let jm = choose|jm: int|
                0 <= jm < old(self).fitness_scores@.len() && (#[trigger] old(
                    self,
                ).fitness_scores@[jm]) == max_score(old(self).fitness_scores@);
            assert(assigned[jm].fitness as int == max_score(old(self).fitness_scores@));
            assert(assigned.contains(assigned[jm]));
            assert(self.genomes@.to_multiset().count(assigned[jm]) > 0);
            assert(self.genomes@.contains(assigned[jm]));
            let k2 = choose|k2: int|
                0 <= k2 < self.genomes@.len() && self.genomes@[k2] == assigned[jm];
            assert(self.genomes@[0].fitness >= self.genomes@[k2].fitness);
            assert(self.genomes@[0].fitness as int == max_score(old(self).fitness_scores@));
            // the cached best genomes descend from the ingested population
            assert forall|i: int| 0 <= i < self.best_genomes@.len() implies exists|kk: int|
                0 <= kk < old(self).genomes@.len() && (#[trigger] self.best_genomes@[i]).links@
                    == (#[trigger] old(self).genomes@[kk]).links@
                    && self.best_genomes@[i].neurons@ == old(self).genomes@[kk].neurons@
                    && self.best_genomes@[i].fitness == old(self).fitness_scores@[kk] by {
                assert(self.best_genomes@[i].links@ == self.genomes@[i].links@
                    && self.best_genomes@[i].neurons@ == self.genomes@[i].neurons@
                    && self.best_genomes@[i].same_scalars(self.genomes@[i]));
                assert(self.genomes@.contains(self.genomes@[i]));
                assert(assigned.to_multiset().count(self.genomes@[i]) > 0);
                assert(assigned.contains(self.genomes@[i]));
                let kk = choose|kk: int|
                    0 <= kk < assigned.len() && assigned[kk] == self.genomes@[i];
                assert(assigned[kk].links@ == old(self).genomes@[kk].links@);
                assert(assigned[kk].neurons@ == old(self).genomes@[kk].neurons@);
                assert(assigned[kk].fitness == old(self).fitness_scores@[kk]);
            }
            assert forall|i: int, j: int|
                0 <= i < j < self.best_genomes@.len() implies (
            #[trigger] self.best_genomes@[i]).fitness >= (
            #[trigger] self.best_genomes@[j]).fitness by {
                assert(self.best_genomes@[i].same_scalars(self.genomes@[i]));
                assert(self.best_genomes@[j].same_scalars(self.genomes@[j]));
            }
            assert(self.best_genomes@[0].fitness == self.genomes@[0].fitness);
        }
        let ghost best_after_sort = self.best_ever_fitness;
        let ghost cache_after_sort = self.best_genomes@;
        self.speciate_and_calculate_spawn_levels();
        let ghost mid = *self;
        let mut new_pop: Vec<Genome> = Vec::new();
        let mut num_spawned: usize = 0;
        let ns = self.species.len();
        let mut spc: usize = 0;
        while spc < ns
            invariant
                mid.valid(),
                0 <= spc <= ns,
                ns == mid.species@.len(),
                pop == mid.pop_size,
                pop == old(self).pop_size,
                *self == (GA {
                    innovation: self.innovation,
                    next_genome_id: self.next_genome_id,
                    ..mid
                }),
                self.innovation.wf(mid.num_inputs as int, mid.num_outputs as int),
                mid.innovation.next_neuron() <= self.innovation.next_neuron(),
                mid.next_genome_id <= self.next_genome_id,
                self.next_genome_id <= mid.next_genome_id + 2 * (num_spawned as int),
                mid.next_genome_id + 2 * (pop as int) < 0x4000_0000_0000_0000,
                num_spawned == new_pop@.len(),
                num_spawned <= pop,
                num_spawned as int == if cum_rounds(mid.species@, spc as int) <= pop as int {
                    cum_rounds(mid.species@, spc as int)
                } else {
                    pop as int
                },
                elites_present(new_pop@, mid.species@, spc as int, pop as int),
                forall|i: int|
                    0 <= i < mid.species@.len() ==> ((#[trigger] mid.species@[i]).members@.len()
                        == 0 ==> mid.species@[i].spawns_rqd == 0),
                forall|i: int|
                    0 <= i < new_pop@.len() ==> {
                        let g = #[trigger] new_pop@[i];
                        &&& g.wf()
                        &&& g.num_inputs == mid.num_inputs
                        &&& g.num_outputs == mid.num_outputs
                        &&& g.ids_below(self.innovation.next_neuron())
                        &&& g.phenotype.neurons@.len() == 0
                        &&& g.phenotype.outputs@.len() == 0
                        &&& g.phenotype.depth == 0
                    },
            decreases ns - spc,
        {
            let ghost entry_ns = num_spawned as int;
            let ghost rq = round_quota(mid.species@[spc as int].spawns_rqd as int);
            proof {
                assert(mid.species@[spc as int].wf(
                    mid.num_inputs as int,
                    mid.num_outputs as int,
                    mid.pop_size as int,
                ));
                lemma_cum_rounds_step(mid.species@, spc as int);
            }
            if num_spawned < pop {
                let quota = self.species[spc].num_to_spawn();
                let mut num_to_spawn = GA::round_spawns(quota);
                let mut chosen_bestyet = false;
                proof {
                    assert(num_to_spawn as int == rq);
                    if mid.species@[spc as int].members@.len() == 0 {
                        assert(quota == 0);
                        assert((0int + HALF) / (SCALE as int) == 0) by (nonlinear_arith);
                    }
                }
                while num_to_spawn > 0
                    invariant
                        mid.valid(),
                        0 <= spc < ns,
                        ns == mid.species@.len(),
                        pop == mid.pop_size,
                        pop == old(self).pop_size,
                        *self == (GA {
                            innovation: self.innovation,
                            next_genome_id: self.next_genome_id,
                            ..mid
                        }),
                        self.innovation.wf(mid.num_inputs as int, mid.num_outputs as int),
                        mid.innovation.next_neuron() <= self.innovation.next_neuron(),
                        mid.next_genome_id <= self.next_genome_id,
                        self.next_genome_id <= mid.next_genome_id + 2 * (num_spawned as int),
                        mid.next_genome_id + 2 * (pop as int) < 0x4000_0000_0000_0000,
                        num_spawned == new_pop@.len(),
                        num_spawned <= pop,
                        0 <= num_to_spawn,
                        num_to_spawn > 0 ==> mid.species@[spc as int].members@.len() >= 1,
                        num_to_spawn > 0 ==> num_spawned < pop,
                        rq == round_quota(mid.species@[spc as int].spawns_rqd as int),
                        0 <= entry_ns < pop as int,
                        entry_ns <= num_spawned as int,
                        num_spawned as int + num_to_spawn as int == entry_ns + rq || (num_spawned
                            == pop && num_to_spawn == 0 && entry_ns + rq >= pop as int),
                        num_spawned as int > entry_ns ==> chosen_bestyet,
                        chosen_bestyet ==> exists|i: int|
                            0 <= i < new_pop@.len() && leader_copy(
                                #[trigger] new_pop@[i],
                                mid.species@[spc as int].leader,
                            ),
                        elites_present(new_pop@, mid.species@, spc as int, pop as int),
                        forall|i: int|
                            0 <= i < new_pop@.len() ==> {
                                let g = #[trigger] new_pop@[i];
                                &&& g.wf()
                                &&& g.num_inputs == mid.num_inputs
                                &&& g.num_outputs == mid.num_outputs
                                &&& g.ids_below(self.innovation.next_neuron())
                                &&& g.phenotype.neurons@.len() == 0
                                &&& g.phenotype.outputs@.len() == 0
                                &&& g.phenotype.depth == 0
                            },
                    decreases num_to_spawn,
                {
                    let ghost entry_next = self.innovation.next_neuron();
                    let ghost was_elite = !chosen_bestyet;
                    num_to_spawn = num_to_spawn - 1;
                    proof {
                        assert(mid.species@[spc as int].wf(
                            mid.num_inputs as int,
                            mid.num_outputs as int,
                            mid.pop_size as int,
                        ));
                    }
                    let mut baby: Genome;
                    if !chosen_bestyet {
                        baby = self.species[spc].leader().clone();
                        chosen_bestyet = true;
                        proof {
                            assert(mid.species@[spc as int].leader.ids_below(
                                mid.innovation.next_neuron(),
                            ));
                            lemma_ids_below_mono(
                                baby,
                                mid.innovation.next_neuron(),
                                self.innovation.next_neuron(),
                            );
                        }
                    } else {
                        if self.species[spc].num_members() == 1 {
                            baby = self.species[spc].spawn(&self.genomes);
                            proof {
                                lemma_ids_below_mono(
                                    baby,
                                    mid.innovation.next_neuron(),
                                    self.innovation.next_neuron(),
                                );
                            }
                        } else {
                            let g1 = self.species[spc].spawn(&self.genomes);
                            if random_unit() < CROSSOVER_RATE {
                                let mut g2 = self.species[spc].spawn(&self.genomes);
                                let mut num_attempts: i64 = 5;
                                while g1.id() == g2.id() && num_attempts > 0
                                    invariant
                                        mid.valid(),
                                        0 <= spc < ns,
                                        ns == mid.species@.len(),
                                        *self == (GA {
                                            innovation: self.innovation,
                                            next_genome_id: self.next_genome_id,
                                            ..mid
                                        }),
                                        mid.species@[spc as int].members@.len() >= 1,
                                        g2.wf(),
                                        g2.num_inputs == mid.num_inputs,
                                        g2.num_outputs == mid.num_outputs,
                                        g2.ids_below(mid.innovation.next_neuron()),
                                        g2.phenotype.neurons@.len() == 0,
                                        g2.phenotype.outputs@.len() == 0,
                                        g2.phenotype.depth == 0,
                                    decreases num_attempts,
                                {
                                    num_attempts = num_attempts - 1;
                                    g2 = self.species[spc].spawn(&self.genomes);
                                }
                                if g1.id() != g2.id() {
                                    proof {
                                        lemma_valid_monotone(mid, *self);
                                    }
                                    baby = self.crossover(&g1, &g2);
                                } else {
                                    baby = g1;
                                    proof {
                                        lemma_ids_below_mono(
                                            baby,
                                            mid.innovation.next_neuron(),
                                            self.innovation.next_neuron(),
                                        );
                                    }
                                }
                            } else {
                                baby = g1;
                                proof {
                                    lemma_ids_below_mono(
                                        baby,
                                        mid.innovation.next_neuron(),
                                        self.innovation.next_neuron(),
                                    );
                                }
                            }
                        }
                        self.next_genome_id = self.next_genome_id + 1;
                        baby.set_id(self.next_genome_id);
                        if baby.num_neurons() < MAX_PERMITTED_NEURONS {
                            baby.add_neuron(
                                CHANCE_ADD_NODE,
                                &mut self.innovation,
                                NUM_TRYS_TO_FIND_LOOPED_LINK,
                            );
                        }
                        baby.add_link(
                            CHANCE_ADD_LINK,
                            CHANCE_ADD_RECURRENT_LINK,
                            &mut self.innovation,
                            NUM_TRYS_TO_FIND_LOOPED_LINK,
                            NUM_ADD_LINK_ATTEMPTS,
                        );
                        baby.mutate_weights(
                            MUTATION_RATE,
                            PROBABILITY_WEIGHT_REPLACED,
                            MAX_WEIGHT_PERTURBATION,
                        );
                        baby.mutate_activation_response(
                            ACTIVATION_MUTATION_RATE,
                            MAX_ACTIVATION_PERTURBATION,
                        );
                    }
                    baby.sort_genes();
                    proof {
                        assert forall|i: int|
                            0 <= i < new_pop@.len() implies (#[trigger] new_pop@[i]).ids_below(
                            self.innovation.next_neuron(),
                        ) by {
                            lemma_ids_below_mono(
                                new_pop@[i],
                                entry_next,
                                self.innovation.next_neuron(),
                            );
                        }
                    }
                    let ghost pop_before = new_pop@;
                    new_pop.push(baby);
                    proof {
                        if was_elite {
                            assert(leader_copy(
                                new_pop@[new_pop@.len() - 1],
                                mid.species@[spc as int].leader,
                            ));
                        }
                        if !was_elite && chosen_bestyet {
                            let w = choose|w: int|
                                0 <= w < pop_before.len() && leader_copy(
                                    #[trigger] pop_before[w],
                                    mid.species@[spc as int].leader,
                                );
                            assert(new_pop@[w] == pop_before[w]);
                        }
                        assert(elites_present(new_pop@, mid.species@, spc as int, pop as int)) by {
                            assert forall|s2: int|
                                0 <= s2 < spc as int && cum_rounds(mid.species@, s2) + 1 <= pop
                                    as int && round_quota(
                                    (#[trigger] mid.species@[s2]).spawns_rqd as int,
                                ) >= 1 implies exists|i: int|
                                0 <= i < new_pop@.len() && leader_copy(
                                    #[trigger] new_pop@[i],
                                    mid.species@[s2].leader,
                                ) by {
                                let w2 = choose|w2: int|
                                    0 <= w2 < pop_before.len() && leader_copy(
                                        #[trigger] pop_before[w2],
                                        mid.species@[s2].leader,
                                    );
                                assert(new_pop@[w2] == pop_before[w2]);
                            }
                        }
                    }
                    num_spawned = num_spawned + 1;
                    if num_spawned == pop {
                        num_to_spawn = 0;
                    }
                }
            }
            proof {
                // the spawn tally stays the capped cumulative rounded quota
                assert(num_spawned as int == if cum_rounds(mid.species@, spc + 1) <= pop as int {
                    cum_rounds(mid.species@, spc + 1)
                } else {
                    pop as int
                });
                // a species whose quota fits below the cap got its elite
                assert(elites_present(new_pop@, mid.species@, spc + 1, pop as int)) by {
                    assert forall|s2: int|
                        0 <= s2 < spc + 1 && cum_rounds(mid.species@, s2) + 1 <= pop as int
                            && round_quota((#[trigger] mid.species@[s2]).spawns_rqd as int) >= 1
                            implies exists|i: int|
                        0 <= i < new_pop@.len() && leader_copy(
                            #[trigger] new_pop@[i],
                            mid.species@[s2].leader,
                        ) by {
                        if s2 < spc as int {
                            assert(exists|i: int|
                                0 <= i < new_pop@.len() && leader_copy(
                                    #[trigger] new_pop@[i],
                                    mid.species@[s2].leader,
                                ));
                        }
                    }
                }
            }
            spc = spc + 1;
        }
        while new_pop.len() < pop
            invariant
                mid.valid(),
                pop == mid.pop_size,
                pop == old(self).pop_size,
                *self == (GA {
                    innovation: self.innovation,
                    next_genome_id: self.next_genome_id,
                    ..mid
                }),
                self.innovation.wf(mid.num_inputs as int, mid.num_outputs as int),
                mid.innovation.next_neuron() <= self.innovation.next_neuron(),
                0 <= self.next_genome_id,
                new_pop@.len() <= pop,
                ns == mid.species@.len(),
                elites_present(new_pop@, mid.species@, ns as int, pop as int),
                forall|i: int|
                    0 <= i < new_pop@.len() ==> {
                        let g = #[trigger] new_pop@[i];
                        &&& g.wf()
                        &&& g.num_inputs == mid.num_inputs
                        &&& g.num_outputs == mid.num_outputs
                        &&& g.ids_below(self.innovation.next_neuron())
                        &&& g.phenotype.neurons@.len() == 0
                        &&& g.phenotype.outputs@.len() == 0
                        &&& g.phenotype.depth == 0
                    },
            decreases pop - new_pop@.len(),
        {
            let picked = self.tournament_selection((pop / 5) as i64);
            proof {
                let w = choose|w: int|
                    {
                        &&& 0 <= w < self.genomes@.len()
                        &&& picked.links@ == (#[trigger] self.genomes@[w]).links@
                        &&& picked.neurons@ == self.genomes@[w].neurons@
                        &&& picked.same_scalars(self.genomes@[w])
                        &&& (self.genomes@[w].wf() ==> picked.wf())
                        &&& forall|nn: int|
                            self.genomes@[w].ids_below(nn) ==> picked.ids_below(nn)
                        &&& picked.phenotype.neurons@.len() == 0
                    };
                assert(mid.genome_ok(mid.genomes@[w]));
            }
            let ghost pop_before = new_pop@;
            new_pop.push(picked);
            proof {
                assert(elites_present(new_pop@, mid.species@, ns as int, pop as int)) by {
                    assert forall|s2: int|
                        0 <= s2 < ns as int && cum_rounds(mid.species@, s2) + 1 <= pop as int
                            && round_quota((#[trigger] mid.species@[s2]).spawns_rqd as int) >= 1
                            implies exists|i: int|
                        0 <= i < new_pop@.len() && leader_copy(
                            #[trigger] new_pop@[i],
                            mid.species@[s2].leader,
                        ) by {
                        let w2 = choose|w2: int|
                            0 <= w2 < pop_before.len() && leader_copy(
                                #[trigger] pop_before[w2],
                                mid.species@[s2].leader,
                            );
                        assert(new_pop@[w2] == pop_before[w2]);
                    }
                }
            }
        }
        self.genomes = new_pop;
        proof {
            assert forall|i: int| 0 <= i < self.genomes@.len() implies self.genome_ok(
                #[trigger] self.genomes@[i],
            ) by {}
            assert forall|i: int| 0 <= i < self.best_genomes@.len() implies self.genome_ok(
                #[trigger] self.best_genomes@[i],
            ) by {
                assert(mid.genome_ok(mid.best_genomes@[i]));
            }
            assert forall|i: int|
                0 <= i < self.species@.len() implies (#[trigger] self.species@[i]).wf(
                self.num_inputs as int,
                self.num_outputs as int,
                self.pop_size as int,
            ) && self.species@[i].members@.len() <= self.pop_size
                && self.species@[i].leader.ids_below(self.innovation.next_neuron()) by {
                assert(mid.species@[i].wf(
                    mid.num_inputs as int,
                    mid.num_outputs as int,
                    mid.pop_size as int,
                ) && mid.species@[i].members@.len() <= mid.pop_size
                    && mid.species@[i].leader.ids_below(mid.innovation.next_neuron()));
            }
            assert(self.valid());
        }
        let ghost before_create = self.genomes@;
        self.create_phenotypes();
        proof {
            assert(elites_present(
                self.genomes@,
                mid.species@,
                mid.species@.len() as int,
                pop as int,
            )) by {
                assert forall|s2: int|
                    0 <= s2 < mid.species@.len() && cum_rounds(mid.species@, s2) + 1 <= pop as int
                        && round_quota((#[trigger] mid.species@[s2]).spawns_rqd as int) >= 1
                        implies exists|i: int|
                    0 <= i < self.genomes@.len() && leader_copy(
                        #[trigger] self.genomes@[i],
                        mid.species@[s2].leader,
                    ) by {
                    let w2 = choose|w2: int|
                        0 <= w2 < before_create.len() && leader_copy(
                            #[trigger] before_create[w2],
                            mid.species@[s2].leader,
                        );
                    assert(self.genomes@[w2].links@ == before_create[w2].links@
                        && self.genomes@[w2].neurons@ == before_create[w2].neurons@);
                }
            }
        }
        self.generation = self.generation + 1;
    }
}

} // verus!
