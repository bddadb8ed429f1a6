use vstd::prelude::*;
use rand::rngs::StdRng;
use crate::chromosome::Chromosome;
use crate::random::{coin_flip, weighted_index, weight_sum};

verus! {

/// What the genetic algorithm evolves: something with a fitness and a
/// chromosome, that can be grown from a chromosome.
pub trait Individual<G: Copy>: Sized {
    spec fn spec_fitness(&self) -> u32;

    spec fn spec_chromosome(&self) -> Seq<G>;

    fn fitness(&self) -> (r: u32)
        ensures
            r == self.spec_fitness();

    fn chromosome(&self) -> (r: &Chromosome<G>)
        ensures
            r@ == self.spec_chromosome();

    fn create(chromosome: Chromosome<G>) -> (r: Self)
        ensures
            r.spec_chromosome() == chromosome@;
}

/// Picks a parent out of a population, by its index. Selection is owed only
/// where some individual has a positive fitness, and never picks one of
/// fitness zero.
pub trait SelectionMethod {
    fn select<G: Copy, I: Individual<G>>(&self, rng: &mut StdRng, population: &[I]) -> (r: usize)
        requires
            fitness_sum(fitnesses(population@)) > 0,
        ensures
            r < population@.len(),
            population@[r as int].spec_fitness() > 0;
}

/// Combines two parents' chromosomes into a child's.
pub trait CrossoverMethod<G: Copy> {
    fn crossover(
        &self,
        rng: &mut StdRng,
        parent_a: &Chromosome<G>,
        parent_b: &Chromosome<G>,
    ) -> (r: Chromosome<G>)
        requires
            parent_a@.len() == parent_b@.len(),
        ensures
            r@.len() == parent_a@.len(),
            forall|i: int| 0 <= i < r@.len() ==> #[trigger] r@[i] == parent_a@[i] || r@[i] == parent_b@[i];
}

/// Alters one gene of a child; `mutate` applies it to every gene in order.
pub trait MutationMethod<G: Copy> {
    fn mutate_gene(&self, rng: &mut StdRng, gene: G) -> G;
}

/// Applies `method` to each gene of `child`, in gene order; the length is
/// kept.
pub fn mutate<G: Copy, M: MutationMethod<G>>(method: &M, rng: &mut StdRng, child: &mut Chromosome<G>)
    ensures
        final(child)@.len() == old(child)@.len(),
{
    let mut i: usize = 0;
    while i < child.len()
        invariant
            i <= child@.len(),
            child@.len() == old(child)@.len(),
        decreases child@.len() - i,
    {
        let gene = method.mutate_gene(rng, child.index(i));
        child.set(i, gene);
        i += 1;
    }
}

/// The fitness of each individual, in population order.
pub open spec fn fitnesses<G: Copy, I: Individual<G>>(population: Seq<I>) -> Seq<u32> {
    population.map_values(|i: I| i.spec_fitness())
}

pub open spec fn fitness_sum(s: Seq<u32>) -> int
    decreases s.len(),
{
    if s.len() == 0 {
        0
    } else {
        fitness_sum(s.drop_last()) + s.last()
    }
}

/// The least fitness of a non-empty sequence.
pub open spec fn fitness_min(s: Seq<u32>) -> int
    decreases s.len(),
{
    if s.len() <= 1 {
        s[0] as int
    } else if s.last() < fitness_min(s.drop_last()) {
        s.last() as int
    } else {
        fitness_min(s.drop_last())
    }
}

/// The greatest fitness of a non-empty sequence.
pub open spec fn fitness_max(s: Seq<u32>) -> int
    decreases s.len(),
{
    if s.len() <= 1 {
        s[0] as int
    } else if s.last() > fitness_max(s.drop_last()) {
        s.last() as int
    } else {
        fitness_max(s.drop_last())
    }
}

/// Fitness-proportionate sampling with replacement.
///
/// Where every fitness is zero no weighted choice exists: selection is then
/// refused, and callers must not ask for it.
pub struct RouletteWheelSelection;

impl RouletteWheelSelection {
    pub fn new() -> (r: Self) {
        RouletteWheelSelection
    }

    /// Picks an index into `fitnesses` with chance proportional to its
    /// fitness, never one of fitness zero. Owed only where some fitness is
    /// positive.
    pub fn pick(&self, rng: &mut StdRng, fitnesses: &[u32]) -> (r: usize)
        requires
            fitness_sum(fitnesses@) > 0,
        ensures
            r < fitnesses@.len(),
            fitnesses@[r as int] > 0,
    {
        let mut weights: Vec<u128> = Vec::new();
        let mut total: u128 = 0;
        let mut i: usize = 0;
        while i < fitnesses.len()
            invariant
                i <= fitnesses@.len(),
                weights@.len() == i,
                forall|k: int| 0 <= k < i ==> #[trigger] weights@[k] == fitnesses@[k] as u128,
                total == weight_sum(weights@),
                total == fitness_sum(fitnesses@.subrange(0, i as int)),
                total <= i * 0xffff_ffffu128,
            decreases fitnesses@.len() - i,
        {
            let f = fitnesses[i];
            let ghost before = weights@;
            proof {
                assert(total + f <= (i + 1) * 0xffff_ffffu128) by (nonlinear_arith)
                    requires total <= i * 0xffff_ffffu128, f <= 0xffff_ffffu128;
                assert(i * 0xffff_ffffu128 <= 0xffff_ffff_ffff_ffffu128 * 0xffff_ffffu128) by (nonlinear_arith)
                    requires i <= 0xffff_ffff_ffff_ffffu128;
                assert(fitnesses@.subrange(0, i + 1).drop_last() =~= fitnesses@.subrange(0, i as int));
            }
            weights.push(f as u128);
            total = total + f as u128;
            proof {
                assert(weights@.drop_last() =~= before);
            }
            i += 1;
        }
        proof {
            assert(fitnesses@.subrange(0, i as int) =~= fitnesses@);
        }
        proof {
            assert(weights@.len() > 0) by {
                if fitnesses@.len() == 0 {
                    assert(fitness_sum(fitnesses@) == 0);
                }
            }
        }
        let r = weighted_index(rng, &weights);
        proof {
            assert(weights@[r as int] == fitnesses@[r as int] as u128);
        }
        r
    }
}

impl Default for RouletteWheelSelection {
    fn default() -> (r: Self)
        ensures
            r == (RouletteWheelSelection {}),
    {
        RouletteWheelSelection
    }
}

impl SelectionMethod for RouletteWheelSelection {
    fn select<G: Copy, I: Individual<G>>(&self, rng: &mut StdRng, population: &[I]) -> (r: usize) {
        let mut fits: Vec<u32> = Vec::new();
        let mut i: usize = 0;
        while i < population.len()
            invariant
                i <= population@.len(),
                fits@ == fitnesses(population@).subrange(0, i as int),
            decreases population@.len() - i,
        {
            fits.push(population[i].fitness());
            i += 1;
            assert(fits@ =~= fitnesses(population@).subrange(0, i as int));
        }
        assert(fits@ =~= fitnesses(population@));
        self.pick(rng, fits.as_slice())
    }
}

/// Each child gene is the gene of the first or of the second parent at that
/// place, by a fair coin drawn gene after gene.
pub struct UniformCrossover;

impl UniformCrossover {
    pub fn new() -> (r: Self) {
        UniformCrossover
    }

    /// The child whose gene `i` is the first parent's where `flips[i]`
    /// holds, the second parent's otherwise.
    pub fn cross_by<G: Copy>(flips: &Vec<bool>, parent_a: &Chromosome<G>, parent_b: &Chromosome<G>) -> (r: Chromosome<G>)
        requires
            flips@.len() == parent_a@.len(),
            parent_a@.len() == parent_b@.len(),
        ensures
            r@.len() == parent_a@.len(),
            forall|i: int| 0 <= i < r@.len()
                ==> #[trigger] r@[i] == if flips@[i] { parent_a@[i] } else { parent_b@[i] },
    {
        let mut genes: Vec<G> = Vec::new();
        let mut i: usize = 0;
        while i < parent_a.len()
            invariant
                flips@.len() == parent_a@.len(),
                parent_a@.len() == parent_b@.len(),
                i <= parent_a@.len(),
                genes@.len() == i,
                forall|k: int| 0 <= k < i
                    ==> #[trigger] genes@[k] == if flips@[k] { parent_a@[k] } else { parent_b@[k] },
            decreases parent_a@.len() - i,
        {
            if flips[i] {
                genes.push(parent_a.index(i));
            } else {
                genes.push(parent_b.index(i));
            }
            i += 1;
        }
        Chromosome::from_genes(genes)
    }
}

impl Default for UniformCrossover {
    fn default() -> (r: Self)
        ensures
            r == (UniformCrossover {}),
    {
        UniformCrossover
    }
}

impl<G: Copy> CrossoverMethod<G> for UniformCrossover {
    /// Draws one coin per gene, in gene order, then crosses by them.
    fn crossover(
        &self,
        rng: &mut StdRng,
        parent_a: &Chromosome<G>,
        parent_b: &Chromosome<G>,
    ) -> (r: Chromosome<G>) {
        let mut flips: Vec<bool> = Vec::new();
        let mut i: usize = 0;
        while i < parent_a.len()
            invariant
                i <= parent_a@.len(),
                flips@.len() == i,
            decreases parent_a@.len() - i,
        {
            flips.push(coin_flip(rng));
            i += 1;
        }
        let r = UniformCrossover::cross_by(&flips, parent_a, parent_b);
        assert forall|k: int| 0 <= k < r@.len() implies #[trigger] r@[k] == parent_a@[k] || r@[k] == parent_b@[k] by {
            assert(r@[k] == if flips@[k] { parent_a@[k] } else { parent_b@[k] });
        }
        r
    }
}

/// Least, greatest and total fitness of a population, and its size.
pub struct Statistics {
    min_fitness: u32,
    max_fitness: u32,
    sum_fitness: u128,
    size: usize,
}

impl Statistics {
    /// The statistics are those of the fitnesses `s`.
    pub open spec fn describes(&self, s: Seq<u32>) -> bool {
        &&& self.spec_min() == fitness_min(s)
        &&& self.spec_max() == fitness_max(s)
        &&& self.spec_sum() == fitness_sum(s)
        &&& self.spec_size() == s.len()
    }

    pub closed spec fn spec_min(&self) -> int {
        self.min_fitness as int
    }

    pub closed spec fn spec_max(&self) -> int {
        self.max_fitness as int
    }

    pub closed spec fn spec_sum(&self) -> int {
        self.sum_fitness as int
    }

    pub closed spec fn spec_size(&self) -> int {
        self.size as int
    }

    /// Statistics over the fitness of every individual of `population`.
    pub fn new<G: Copy, I: Individual<G>>(population: &[I]) -> (r: Self)
        requires
            population@.len() > 0,
        ensures
            r.describes(fitnesses(population@)),
    {
        let ghost fs = fitnesses(population@);
        let first = population[0].fitness();
        let mut min_fitness: u32 = first;
        let mut max_fitness: u32 = first;
        let mut sum_fitness: u128 = first as u128;
        let mut i: usize = 1;
        proof {
            assert(fs.subrange(0, 1).drop_last() =~= Seq::<u32>::empty());
            assert(fs[0] == population@[0].spec_fitness());
            assert(fs.subrange(0, 1).last() == fs[0]);
            assert(fitness_sum(fs.subrange(0, 1).drop_last()) == 0);
        }
        while i < population.len()
            invariant
                fs == fitnesses(population@),
                1 <= i <= population@.len(),
                min_fitness == fitness_min(fs.subrange(0, i as int)),
                max_fitness == fitness_max(fs.subrange(0, i as int)),
                sum_fitness == fitness_sum(fs.subrange(0, i as int)),
                sum_fitness <= i * 0xffff_ffffu128,
            decreases population@.len() - i,
        {
            let f = population[i].fitness();
            proof {
                assert(fs.subrange(0, i + 1).drop_last() =~= fs.subrange(0, i as int));
                assert(sum_fitness + f <= (i + 1) * 0xffff_ffffu128) by (nonlinear_arith)
                    requires sum_fitness <= i * 0xffff_ffffu128, f <= 0xffff_ffffu128;
                assert(i * 0xffff_ffffu128 <= 0xffff_ffff_ffff_ffffu128 * 0xffff_ffffu128) by (nonlinear_arith)
                    requires i <= 0xffff_ffff_ffff_ffffu128;
            }
            if f < min_fitness {
                min_fitness = f;
            }
            if f > max_fitness {
                max_fitness = f;
            }
            sum_fitness = sum_fitness + f as u128;
            i += 1;
        }
        proof {
            assert(fs.subrange(0, i as int) =~= fs);
        }
        Statistics { min_fitness, max_fitness, sum_fitness, size: population.len() }
    }

    pub fn min_fitness(&self) -> (r: u32)
        ensures
            r == self.spec_min(),
    {
        self.min_fitness
    }

    pub fn max_fitness(&self) -> (r: u32)
        ensures
            r == self.spec_max(),
    {
        self.max_fitness
    }

    /// The total fitness; the average is this divided by `size`.
    pub fn sum_fitness(&self) -> (r: u128)
        ensures
            r == self.spec_sum(),
    {
        self.sum_fitness
    }

    pub fn size(&self) -> (r: usize)
        ensures
            r == self.spec_size(),
    {
        self.size
    }
}

/// Over any non-empty population the average fitness lies between the least
/// and the greatest: `min * n <= sum <= max * n`.
pub proof fn lemma_statistics_ordered(s: Seq<u32>)
    requires
        s.len() > 0,
    ensures
        fitness_min(s) * s.len() <= fitness_sum(s) <= fitness_max(s) * s.len(),
    decreases s.len(),
{
    if s.len() == 1 {
        assert(s.drop_last().len() == 0);
        assert(fitness_sum(s.drop_last()) == 0);
        assert(fitness_sum(s) == s[0]);
        assert(fitness_min(s) == s[0] && fitness_max(s) == s[0]);
    } else {
        let t = s.drop_last();
        lemma_statistics_ordered(t);
        let n = t.len() as int;
        assert(fitness_min(s) <= fitness_min(t) && fitness_min(s) <= s.last());
        assert(fitness_max(s) >= fitness_max(t) && fitness_max(s) >= s.last());
        assert(fitness_min(s) * n <= fitness_min(t) * n) by (nonlinear_arith)
            requires fitness_min(s) <= fitness_min(t), n >= 0;
        assert(fitness_max(t) * n <= fitness_max(s) * n) by (nonlinear_arith)
            requires fitness_max(s) >= fitness_max(t), n >= 0;
        assert(fitness_min(s) * (n + 1) == fitness_min(s) * n + fitness_min(s)) by (nonlinear_arith);
        assert(fitness_max(s) * (n + 1) == fitness_max(s) * n + fitness_max(s)) by (nonlinear_arith);
        assert(s.len() == n + 1);
        assert(fitness_sum(s) == fitness_sum(t) + s.last());
    }
}

/// A generational genetic algorithm: a selection strategy, a crossover
/// strategy and a mutation strategy.
pub struct GeneticAlgorithm<S, C, M> {
    selection_method: S,
    crossover_method: C,
    mutation_method: M,
}

/// Every individual of the population carries a chromosome of `len` genes.
pub open spec fn uniform_length<G: Copy, I: Individual<G>>(population: Seq<I>, len: nat) -> bool {
    forall|i: int| 0 <= i < population.len() ==> (#[trigger] population[i]).spec_chromosome().len() == len
}

impl<S: SelectionMethod, C, M> GeneticAlgorithm<S, C, M> {
    pub fn new(selection_method: S, crossover_method: C, mutation_method: M) -> (r: Self) {
        GeneticAlgorithm { selection_method, crossover_method, mutation_method }
    }

    /// One generation: for each place of the new population, in order, two
    /// parents are selected, crossed and the child mutated and grown into an
    /// individual. The statistics are those of the population given.
    pub fn evolve<G: Copy, I: Individual<G>>(&self, rng: &mut StdRng, population: &[I]) -> (r: (Vec<I>, Statistics))
        where
            C: CrossoverMethod<G>,
            M: MutationMethod<G>,
        requires
            population@.len() > 0,
            fitness_sum(fitnesses(population@)) > 0,
            uniform_length(population@, population@[0].spec_chromosome().len()),
        ensures
            r.0@.len() == population@.len(),
            uniform_length(r.0@, population@[0].spec_chromosome().len()),
            r.1.describes(fitnesses(population@)),
    {
        let mut next: Vec<I> = Vec::new();
        let mut slot: usize = 0;
        while slot < population.len()
            invariant
                population@.len() > 0,
                fitness_sum(fitnesses(population@)) > 0,
                uniform_length(population@, population@[0].spec_chromosome().len()),
                uniform_length(next@, population@[0].spec_chromosome().len()),
                slot <= population@.len(),
                next@.len() == slot,
            decreases population@.len() - slot,
        {
            let a = self.selection_method.select(rng, population);
            let b = self.selection_method.select(rng, population);
            let parent_a = population[a].chromosome();
            let parent_b = population[b].chromosome();
            let mut child = self.crossover_method.crossover(rng, parent_a, parent_b);
            mutate(&self.mutation_method, rng, &mut child);
            let ghost before = next@;
            next.push(I::create(child));
            proof {
                assert forall|k: int| 0 <= k < next@.len()
                    implies (#[trigger] next@[k]).spec_chromosome().len() == population@[0].spec_chromosome().len() by {
                    if k < before.len() {
                        assert(next@[k] == before[k]);
                    }
                }
            }
            slot += 1;
        }
        let stats = Statistics::new(population);
        (next, stats)
    }
}

} // verus!
