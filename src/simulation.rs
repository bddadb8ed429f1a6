use vstd::prelude::*;
use crate::chromosome::Chromosome;
use crate::genetic::Individual;
use crate::network::{LayerTopology, Network, weight_count};

verus! {

/// Number of steps in one generation.
pub const GENERATION_LENGTH: usize = 2500;

/// Number of collectors in the sea.
pub const COLLECTORS: usize = 40;

/// Number of wastes in the sea.
pub const WASTES: usize = 60;

/// Whether a step taken at generation age `age` ends the generation.
pub open spec fn ends_generation(age: nat) -> bool {
    age + 1 > GENERATION_LENGTH
}

/// The generation age after a step taken at age `age`.
pub open spec fn next_age(age: nat) -> nat {
    if ends_generation(age) {
        0
    } else {
        age + 1
    }
}

/// The generation age after `k` steps from a fresh start.
pub open spec fn age_after(k: nat) -> nat
    decreases k,
{
    if k == 0 {
        0
    } else {
        next_age(age_after((k - 1) as nat))
    }
}

/// Counts the steps of a generation and says when it ends.
pub struct GenerationClock {
    age: usize,
}

impl GenerationClock {
    pub closed spec fn spec_age(&self) -> nat {
        self.age as nat
    }

    pub open spec fn wf(&self) -> bool {
        self.spec_age() <= GENERATION_LENGTH
    }

    pub fn new() -> (r: Self)
        ensures
            r.wf(),
            r.spec_age() == 0,
    {
        GenerationClock { age: 0 }
    }

    pub fn age(&self) -> (r: usize)
        ensures
            r == self.spec_age(),
    {
        self.age
    }

    /// Counts one step; true when it ends the generation, which sets the age
    /// back to zero.
    pub fn tick(&mut self) -> (r: bool)
        requires
            old(self).wf(),
        ensures
            final(self).wf(),
            r == ends_generation(old(self).spec_age()),
            final(self).spec_age() == next_age(old(self).spec_age()),
    {
        self.age = self.age + 1;
        if self.age > GENERATION_LENGTH {
            self.age = 0;
            true
        } else {
            false
        }
    }
}

/// From a fresh start the age after `k` steps is `k` modulo one more than
/// the generation length, and the step numbered `k + 1` ends a generation
/// exactly when `k + 1` is a multiple of it: statistics come on the 2501st
/// step, none on the 2500 before, and the count starts again after.
pub proof fn lemma_generation_period(k: nat)
    ensures
        age_after(k) == k % (GENERATION_LENGTH as nat + 1),
        ends_generation(age_after(k)) <==> (k + 1) % (GENERATION_LENGTH as nat + 1) == 0,
    decreases k,
{
    let p = GENERATION_LENGTH as nat + 1;
    if k > 0 {
        lemma_generation_period((k - 1) as nat);
        let a = age_after((k - 1) as nat);
        assert(a == (k - 1) as nat % p);
        if ends_generation(a) {
            assert(k % p == 0) by {
                let q = (k - 1) as int / p as int;
                vstd::arithmetic::div_mod::lemma_fundamental_div_mod((k - 1) as int, p as int);
                assert(k == (q + 1) * p) by (nonlinear_arith)
                    requires (k - 1) as int == p * q + (p - 1), k >= 1;
                vstd::arithmetic::div_mod::lemma_fundamental_div_mod_converse(k as int, p as int, q + 1, 0);
            }
        } else {
            assert(k % p == a + 1) by {
                vstd::arithmetic::div_mod::lemma_fundamental_div_mod((k - 1) as int, p as int);
                vstd::arithmetic::div_mod::lemma_fundamental_div_mod_converse(k as int, p as int, (k - 1) as int / p as int, (a + 1) as int);
            }
        }
    }
    let b = age_after(k);
    assert(b < p);
    if b + 1 == p {
        assert((k + 1) % p == 0) by {
            let q = k as int / p as int;
            vstd::arithmetic::div_mod::lemma_fundamental_div_mod(k as int, p as int);
            assert((k + 1) as int == (q + 1) * p) by (nonlinear_arith)
                requires k as int == p * q + (p - 1);
            vstd::arithmetic::div_mod::lemma_fundamental_div_mod_converse((k + 1) as int, p as int, k as int / p as int + 1, 0);
        }
    } else {
        assert((k + 1) % p == b + 1) by {
            vstd::arithmetic::div_mod::lemma_fundamental_div_mod(k as int, p as int);
            vstd::arithmetic::div_mod::lemma_fundamental_div_mod_converse((k + 1) as int, p as int, k as int / p as int, (b + 1) as int);
        }
    }
}

/// The brain's levels for an eye of `cells` cells: the eye's cells, twice as
/// many hidden neurons, and two outputs (speed and rotation).
pub open spec fn brain_topology(cells: nat) -> Seq<LayerTopology> {
    seq![
        LayerTopology { neurons: cells as usize },
        LayerTopology { neurons: (2 * cells) as usize },
        LayerTopology { neurons: 2 },
    ]
}

/// The number of parameters of the brain of an eye of `cells` cells.
pub open spec fn brain_weight_count(cells: nat) -> nat {
    2 * cells * (cells + 1) + 2 * (2 * cells + 1)
}

proof fn lemma_brain_weight_count(cells: nat)
    requires
        2 * cells <= usize::MAX,
    ensures
        weight_count(brain_topology(cells)) == brain_weight_count(cells),
{
    let t = brain_topology(cells);
    assert(t.drop_last().drop_last().len() < 2);
    assert(weight_count(t.drop_last().drop_last()) == 0);
    assert(t.drop_last().last() == t[1] && t.drop_last()[0] == t[0]);
    assert(t[1].neurons as nat == 2 * cells && t[0].neurons as nat == cells);
    assert(t.last() == t[2] && t[t.len() - 2] == t[1]);
    assert(weight_count(t.drop_last()) == (2 * cells) * (cells + 1));
}

/// A collector's brain: a network whose topology follows from its eye.
pub struct Brain<W> {
    nn: Network<W>,
}

impl<W: Copy> Brain<W> {
    pub closed spec fn spec_network(&self) -> Network<W> {
        self.nn
    }

    /// The network's levels for an eye of `cells` cells.
    pub fn topology(cells: usize) -> (r: Vec<LayerTopology>)
        requires
            2 * cells <= usize::MAX,
        ensures
            r@ == brain_topology(cells as nat),
    {
        let r = vec![
            LayerTopology { neurons: cells },
            LayerTopology { neurons: 2 * cells },
            LayerTopology { neurons: 2 },
        ];
        assert(r@ =~= brain_topology(cells as nat));
        r
    }

    /// How many genes a chromosome of a brain for `cells` cells holds.
    pub fn weight_count(cells: usize) -> (r: usize)
        requires
            brain_weight_count(cells as nat) <= usize::MAX,
        ensures
            r == brain_weight_count(cells as nat),
            2 * cells <= usize::MAX,
            r == weight_count(brain_topology(cells as nat)),
    {
        proof {
            assert(2 * cells <= 2 * (cells as nat) * (cells as nat + 1)) by (nonlinear_arith);
            lemma_brain_weight_count(cells as nat);
        }
        2 * cells * (cells + 1) + 2 * (2 * cells + 1)
    }

    /// Wraps a network in a brain.
    pub fn from_network(nn: Network<W>) -> (r: Self)
        ensures
            r.spec_network() == nn,
    {
        Brain { nn }
    }

    /// The brain for an eye of `cells` cells whose parameters are the genes
    /// of `chromosome`, in the network's flat order.
    pub fn from_chromosome(chromosome: Chromosome<W>, cells: usize) -> (r: Self)
        requires
            2 * cells <= usize::MAX,
            chromosome@.len() == weight_count(brain_topology(cells as nat)),
        ensures
            r.spec_network().shaped(brain_topology(cells as nat)),
            r.spec_network().chained(cells as nat),
            r.spec_network().flat() == chromosome@,
    {
        let topology = Self::topology(cells);
        let nn = Network::from_weights(topology.as_slice(), chromosome.into_genes());
        Brain { nn }
    }

    /// The brain's parameters as a chromosome, in the network's flat order.
    pub fn as_chromosome(&self) -> (r: Chromosome<W>)
        ensures
            r@ == self.spec_network().flat(),
    {
        Chromosome::from_genes(self.nn.weights())
    }

    pub fn network(&self) -> (r: &Network<W>)
        ensures
            *r == self.spec_network(),
    {
        &self.nn
    }
}

/// A collector seen by the genetic algorithm: its fitness and its brain's
/// chromosome.
pub struct CollectorIndividual<G> {
    fitness: u32,
    chromosome: Chromosome<G>,
}

impl<G: Copy> CollectorIndividual<G> {
    pub fn new(fitness: u32, chromosome: Chromosome<G>) -> (r: Self)
        ensures
            r.spec_fitness() == fitness,
            r.spec_chromosome() == chromosome@,
    {
        CollectorIndividual { fitness, chromosome }
    }

    /// Gives the chromosome back, to grow a collector from.
    pub fn into_chromosome(self) -> (r: Chromosome<G>)
        ensures
            r@ == self.spec_chromosome(),
    {
        self.chromosome
    }
}

impl<G: Copy> Individual<G> for CollectorIndividual<G> {
    closed spec fn spec_fitness(&self) -> u32 {
        self.fitness
    }

    closed spec fn spec_chromosome(&self) -> Seq<G> {
        self.chromosome@
    }

    fn fitness(&self) -> (r: u32) {
        self.fitness
    }

    fn chromosome(&self) -> (r: &Chromosome<G>) {
        &self.chromosome
    }

    /// A freshly grown individual has collected nothing yet.
    fn create(chromosome: Chromosome<G>) -> Self {
        CollectorIndividual { fitness: 0, chromosome }
    }
}

} // verus!
