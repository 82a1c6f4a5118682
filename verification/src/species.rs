//! A species: a cluster of compatible genomes sharing one leader, with age
//! and stagnation tracking, fitness sharing and spawn allocation.
use vstd::prelude::*;

verus! {

use crate::genome::Genome;
use crate::params::{FIT_CAP, ADJ_CAP, SPAWN_CAP, YOUNG_AGE_THRESHOLD, OLD_AGE_THRESHOLD};
use crate::utils::random_usize;

/// The fitness a member is credited with after the youth bonus, the old-age
/// penalty and fitness sharing over `count` members.
pub open spec fn shared_fitness(fit: int, age: int, count: int) -> int {
    let f1 = if age < YOUNG_AGE_THRESHOLD {
        (fit * 13) / 10
    } else {
        fit
    };
    let f2 = if age > OLD_AGE_THRESHOLD {
        (f1 * 7) / 10
    } else {
        f1
    };
    f2 / count
}

/// The summed spawn amounts of the members drawn from `genomes`.
pub open spec fn sum_spawn(genomes: Seq<Genome>, members: Seq<usize>) -> int
    decreases members.len(),
{
    if members.len() == 0 {
        0
    } else {
        sum_spawn(genomes, members.drop_last()) + genomes[members.last() as int].amount_to_spawn
    }
}

/// Spawn amounts are non-negative, so their sum is too.
pub proof fn lemma_sum_spawn_nonneg(genomes: Seq<Genome>, members: Seq<usize>)
    requires
        forall|i: int| 0 <= i < members.len() ==> (#[trigger] members[i]) < genomes.len(),
        forall|i: int| 0 <= i < genomes.len() ==> 0 <= (#[trigger] genomes[i]).amount_to_spawn,
    ensures
        0 <= sum_spawn(genomes, members),
    decreases members.len(),
{
    if members.len() > 0 {
        lemma_sum_spawn_nonneg(genomes, members.drop_last());
    }
}

/// All members of a species.
pub struct Species {
    pub leader: Genome,
    pub members: Vec<usize>,
    pub species_id: i64,
    pub best_fitness: i64,
    pub gens_no_improvement: i64,
    pub age: i64,
    pub spawns_rqd: i64,
}

impl Species {
    /// The species' invariant within a population of `pop` genomes.
    pub open spec fn wf(self, n_in: int, n_out: int, pop: int) -> bool {
        &&& self.leader.wf()
        &&& self.leader.num_inputs == n_in
        &&& self.leader.num_outputs == n_out
        &&& forall|i: int| 0 <= i < self.members@.len() ==> (#[trigger] self.members@[i]) < pop
        &&& 0 <= self.best_fitness <= FIT_CAP
        &&& 0 <= self.gens_no_improvement
        &&& 0 <= self.age
        &&& 0 <= self.spawns_rqd <= 0x4000_0000_0000_0000
    }

    /// Founds a species around its first member: a cloned leader, a single
    /// member index, and the member's fitness as the best seen.
    pub fn new(first_org: &Genome, first_org_idx: usize, species_id: i64) -> (r: Species)
        ensures
            r.leader.links@ == first_org.links@,
            r.leader.neurons@ == first_org.neurons@,
            r.leader.same_scalars(*first_org),
            first_org.wf() ==> r.leader.wf(),
            forall|nn: int| first_org.ids_below(nn) ==> r.leader.ids_below(nn),
            r.members@ == seq![first_org_idx],
            r.species_id == species_id,
            r.best_fitness == first_org.fitness,
            r.gens_no_improvement == 0,
            r.age == 0,
            r.spawns_rqd == 0,
    {
        let mut members: Vec<usize> = Vec::new();
        members.push(first_org_idx);
        Species {
            species_id,
            best_fitness: first_org.fitness(),
            gens_no_improvement: 0,
            age: 0,
            leader: first_org.clone(),
            members,
            spawns_rqd: 0,
        }
    }

    /// Adds a member; one fitter than every earlier member becomes the new
    /// leader and resets the stagnation counter.
    pub fn add_member(&mut self, new_member: &Genome, new_member_idx: usize)
        ensures
            final(self).members@ == old(self).members@.push(new_member_idx),
            final(self).species_id == old(self).species_id,
            final(self).age == old(self).age,
            final(self).spawns_rqd == old(self).spawns_rqd,
            new_member.fitness > old(self).best_fitness ==> {
                &&& final(self).best_fitness == new_member.fitness
                &&& final(self).gens_no_improvement == 0
                &&& final(self).leader.links@ == new_member.links@
                &&& final(self).leader.neurons@ == new_member.neurons@
                &&& final(self).leader.same_scalars(*new_member)
                &&& (new_member.wf() ==> final(self).leader.wf())
                &&& forall|nn: int|
                    new_member.ids_below(nn) ==> final(self).leader.ids_below(nn)
            },
            new_member.fitness <= old(self).best_fitness ==> {
                &&& final(self).best_fitness == old(self).best_fitness
                &&& final(self).gens_no_improvement == old(self).gens_no_improvement
                &&& final(self).leader == old(self).leader
            },
    {
        if new_member.fitness() > self.best_fitness {
            self.best_fitness = new_member.fitness();
            self.gens_no_improvement = 0;
            self.leader = new_member.clone();
        }
        self.members.push(new_member_idx);
    }

    /// Clears the membership for re-speciation, ages the species, counts one
    /// more stagnant generation and zeroes the pending spawn count.
    pub fn purge(&mut self)
        ensures
            final(self).members@.len() == 0,
            final(self).age == if old(self).age < 0x1000_0000_0000_0000 {
                old(self).age + 1
            } else {
                old(self).age as int
            },
            final(self).gens_no_improvement == if old(self).gens_no_improvement
                < 0x1000_0000_0000_0000 {
                old(self).gens_no_improvement + 1
            } else {
                old(self).gens_no_improvement as int
            },
            final(self).spawns_rqd == 0,
            final(self).leader == old(self).leader,
            final(self).best_fitness == old(self).best_fitness,
            final(self).species_id == old(self).species_id,
    {
        self.members.clear();
        // the counters saturate at a bound no real run can reach
        if self.age < 0x1000_0000_0000_0000 {
            self.age = self.age + 1;
        }
        if self.gens_no_improvement < 0x1000_0000_0000_0000 {
            self.gens_no_improvement = self.gens_no_improvement + 1;
        }
        self.spawns_rqd = 0;
    }

    /// Applies the youth bonus, the old-age penalty and fitness sharing to
    /// every member's raw fitness, writing each member's adjusted fitness.
    pub fn adjust_fitnesses(&mut self, genomes: &mut Vec<Genome>)
        requires
            1 <= old(self).members@.len() < 0x1000_0000_0000_0000,
            forall|i: int|
                0 <= i < old(self).members@.len() ==> (#[trigger] old(self).members@[i]) < old(
                    genomes,
                )@.len(),
            old(self).members@.no_duplicates(),
            forall|i: int| 0 <= i < old(genomes)@.len() ==> (#[trigger] old(genomes)@[i]).wf(),
            0 <= old(self).age,
        ensures
            *final(self) == *old(self),
            final(genomes)@.len() == old(genomes)@.len(),
            forall|i: int|
                0 <= i < old(genomes)@.len() && !old(self).members@.contains(i as usize)
                    ==> final(genomes)@[i] == old(genomes)@[i],
            forall|k: int|
                0 <= k < old(self).members@.len() ==> {
                    let m = (#[trigger] old(self).members@[k]) as int;
                    final(genomes)@[m] == (Genome {
                        adjusted_fitness: shared_fitness(
                            old(genomes)@[m].fitness as int,
                            old(self).age as int,
                            old(self).members@.len() as int,
                        ) as i64,
                        ..old(genomes)@[m]
                    })
                },
            forall|i: int| 0 <= i < final(genomes)@.len() ==> (#[trigger] final(genomes)@[i]).wf(),
    {
        let len = self.members.len();
        let mut k: usize = 0;
        while k < len
            invariant
                *self == *old(self),
                len == self.members@.len(),
                1 <= len < 0x1000_0000_0000_0000,
                0 <= k <= len,
                0 <= self.age,
                self.members@.no_duplicates(),
                forall|i: int|
                    0 <= i < self.members@.len() ==> (#[trigger] self.members@[i]) < genomes@.len(),
                genomes@.len() == old(genomes)@.len(),
                forall|i: int| 0 <= i < old(genomes)@.len() ==> (#[trigger] old(genomes)@[i]).wf(),
                forall|i: int|
                    0 <= i < genomes@.len() && !self.members@.subrange(0, k as int).contains(
                        i as usize,
                    ) ==> genomes@[i] == old(genomes)@[i],
                forall|q: int|
                    0 <= q < k ==> {
                        let m = (#[trigger] self.members@[q]) as int;
                        genomes@[m] == (Genome {
                            adjusted_fitness: shared_fitness(
                                old(genomes)@[m].fitness as int,
                                self.age as int,
                                len as int,
                            ) as i64,
                            ..old(genomes)@[m]
                        })
                    },
                forall|i: int| 0 <= i < genomes@.len() ==> (#[trigger] genomes@[i]).wf(),
            decreases len - k,
        {
            let m = self.members[k];
            proof {
                assert(!self.members@.subrange(0, k as int).contains(m));
                assert(genomes@[m as int] == old(genomes)@[m as int]);
            }
            let mut fitness: i64 = genomes[m].fitness;
            if self.age < YOUNG_AGE_THRESHOLD {
                proof {
                    assert(0 <= (fitness as int) * 13 / 10 <= ADJ_CAP) by (nonlinear_arith)
                        requires
                            0 <= fitness <= FIT_CAP,
                            FIT_CAP == 1099511627776,
                            ADJ_CAP == 2199023255552,
                    ;
                }
                fitness = (((fitness as i128) * 13) / 10) as i64;
            }
            if self.age > OLD_AGE_THRESHOLD {
                proof {
                    assert(0 <= (fitness as int) * 7 / 10 <= ADJ_CAP) by (nonlinear_arith)
                        requires
                            0 <= fitness <= ADJ_CAP,
                            ADJ_CAP == 2199023255552,
                    ;
                }
                fitness = (((fitness as i128) * 7) / 10) as i64;
            }
            let adjusted: i64 = fitness / (len as i64);
            proof {
                assert(0 <= adjusted <= ADJ_CAP) by (nonlinear_arith)
                    requires
                        adjusted == (fitness as int) / (len as int),
                        0 <= fitness <= ADJ_CAP,
                        1 <= len,
                ;
            }
            set_adjusted(genomes, m, adjusted);
            proof {
                assert forall|i: int|
                    0 <= i < genomes@.len() && !self.members@.subrange(0, k + 1).contains(
                        i as usize,
                    ) implies genomes@[i] == old(genomes)@[i] by {
                    assert(self.members@.subrange(0, k + 1)[k as int] == m);
                    assert(i != m as int);
                    if self.members@.subrange(0, k as int).contains(i as usize) {
                        let q = choose|q: int|
                            0 <= q < k && self.members@.subrange(0, k as int)[q] == i as usize;
                        assert(self.members@.subrange(0, k + 1)[q] == i as usize);
                        assert(false);
                    }
                }
                assert forall|q: int| 0 <= q < k + 1 implies {
                    let mm = (#[trigger] self.members@[q]) as int;
                    genomes@[mm] == (Genome {
                        adjusted_fitness: shared_fitness(
                            old(genomes)@[mm].fitness as int,
                            self.age as int,
                            len as int,
                        ) as i64,
                        ..old(genomes)@[mm]
                    })
                } by {
                    let mm = self.members@[q] as int;
                    if q < k {
                        assert(mm != m as int);
                    }
                }
            }
            k = k + 1;
        }
    }

    /// Adds every member's individual spawn amount to the species' quota,
    /// saturating at a bound no real run can reach.
    pub fn calculate_spawn_amount(&mut self, genomes: &Vec<Genome>)
        requires
            forall|i: int|
                0 <= i < old(self).members@.len() ==> (#[trigger] old(self).members@[i])
                    < genomes@.len(),
            forall|i: int|
                0 <= i < genomes@.len() ==> 0 <= (#[trigger] genomes@[i]).amount_to_spawn
                    <= SPAWN_CAP,
            0 <= old(self).spawns_rqd,
        ensures
            *final(self) == (Species { spawns_rqd: final(self).spawns_rqd, ..*old(self) }),
            final(self).spawns_rqd == if old(self).spawns_rqd + sum_spawn(
                genomes@,
                old(self).members@,
            ) <= 0x4000_0000_0000_0000 {
                old(self).spawns_rqd + sum_spawn(genomes@, old(self).members@)
            } else {
                0x4000_0000_0000_0000
            },
    {
        let len = self.members.len();
        let mut acc: i128 = self.spawns_rqd as i128;
        let mut k: usize = 0;
        while k < len
            invariant
                *self == *old(self),
                len == self.members@.len(),
                0 <= k <= len,
                forall|i: int|
                    0 <= i < self.members@.len() ==> (#[trigger] self.members@[i])
                        < genomes@.len(),
                forall|i: int|
                    0 <= i < genomes@.len() ==> 0 <= (#[trigger] genomes@[i]).amount_to_spawn
                        <= SPAWN_CAP,
                acc == old(self).spawns_rqd + sum_spawn(
                    genomes@,
                    self.members@.subrange(0, k as int),
                ),
                0 <= acc <= old(self).spawns_rqd + (k as int) * SPAWN_CAP,
            decreases len - k,
        {
            let m = self.members[k];
            proof {
                let sub1 = self.members@.subrange(0, k + 1);
                assert(sub1.drop_last() =~= self.members@.subrange(0, k as int));
                assert(sub1.last() == self.members@[k as int]);
                assert((k as int) * SPAWN_CAP + SPAWN_CAP == ((k + 1) as int) * SPAWN_CAP)
                    by (nonlinear_arith);
                assert(((k + 1) as int) * SPAWN_CAP <= 0x1_0000_0000_0000_0000 * SPAWN_CAP)
                    by (nonlinear_arith)
                    requires
                        k + 1 <= 0x1_0000_0000_0000_0000,
                ;
            }
            acc = acc + (genomes[m].amount_to_spawn as i128);
            k = k + 1;
        }
        proof {
            assert(self.members@.subrange(0, len as int) =~= self.members@);
        }
        if acc > 0x4000_0000_0000_0000i128 {
            self.spawns_rqd = 0x4000_0000_0000_0000i64;
        } else {
            self.spawns_rqd = acc as i64;
        }
    }

    /// Spawns one individual: a clone of a member drawn from the top fifth
    /// of the membership (plus one), in the order members were added.
    pub fn spawn(&self, genomes: &Vec<Genome>) -> (r: Genome)
        requires
            1 <= self.members@.len(),
            forall|i: int|
                0 <= i < self.members@.len() ==> (#[trigger] self.members@[i]) < genomes@.len(),
        ensures
            exists|k: int|
                {
                    &&& 0 <= k < self.members@.len()
                    &&& k <= self.members@.len() / 5 + 1
                    &&& r.links@ == genomes@[#[trigger] self.members@[k] as int].links@
                    &&& r.neurons@ == genomes@[self.members@[k] as int].neurons@
                    &&& r.same_scalars(genomes@[self.members@[k] as int])
                    &&& (genomes@[self.members@[k] as int].wf() ==> r.wf())
                    &&& forall|nn: int|
                        genomes@[self.members@[k] as int].ids_below(nn) ==> r.ids_below(nn)
                },
            r.phenotype.neurons@.len() == 0,
            r.phenotype.outputs@.len() == 0,
            r.phenotype.depth == 0,
    {
        if self.members.len() == 1 {
            let g = genomes[self.members[0]].clone();
            proof {
                assert(0 <= 0 < self.members@.len());
            }
            g
        } else {
            let max_index_size = self.members.len() / 5 + 1;
            proof {
                assert(self.members@.len() / 5 + 1 <= self.members@.len() - 1)
                    by (nonlinear_arith)
                    requires
                        self.members@.len() >= 2,
                ;
            }
            let the_one = random_usize(0, max_index_size);
            genomes[self.members[the_one]].clone()
        }
    }

    pub fn leader(&self) -> (r: &Genome)
        ensures
            r == &self.leader,
    {
        &self.leader
    }

    pub fn num_to_spawn(&self) -> (r: i64)
        ensures
            r == self.spawns_rqd,
    {
        self.spawns_rqd
    }

    pub fn num_members(&self) -> (r: usize)
        ensures
            r == self.members@.len(),
    {
        self.members.len()
    }

    pub fn gens_no_improvement(&self) -> (r: i64)
        ensures
            r == self.gens_no_improvement,
    {
        self.gens_no_improvement
    }

    pub fn id(&self) -> (r: i64)
        ensures
            r == self.species_id,
    {
        self.species_id
    }

    pub fn _species_leader_fitness(&self) -> (r: i64)
        ensures
            r == self.leader.fitness,
    {
        self.leader.fitness()
    }

    pub fn best_fitness(&self) -> (r: i64)
        ensures
            r == self.best_fitness,
    {
        self.best_fitness
    }
}

/// Writes one genome's adjusted fitness in place.
fn set_adjusted(genomes: &mut Vec<Genome>, i: usize, v: i64)
    requires
        i < old(genomes)@.len(),
    ensures
        final(genomes)@ == old(genomes)@.update(
            i as int,
            Genome { adjusted_fitness: v, ..old(genomes)@[i as int] },
        ),
{
    let g = &mut genomes[i];
    g.adjusted_fitness = v;
}

} // verus!
