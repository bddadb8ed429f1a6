use evolution_sim::chromosome::Chromosome;
use evolution_sim::genetic::{
    mutate, CrossoverMethod, GeneticAlgorithm, Individual, MutationMethod, RouletteWheelSelection,
    SelectionMethod, Statistics, UniformCrossover,
};
use evolution_sim::simulation::CollectorIndividual;
use rand::rngs::StdRng;
use rand::SeedableRng;

struct Unchanged;

impl MutationMethod<i32> for Unchanged {
    fn mutate_gene(&self, _rng: &mut StdRng, gene: i32) -> i32 {
        gene
    }
}

struct Negate;

impl MutationMethod<i32> for Negate {
    fn mutate_gene(&self, _rng: &mut StdRng, gene: i32) -> i32 {
        -gene
    }
}

fn individual(fitness: u32, genes: Vec<i32>) -> CollectorIndividual<i32> {
    CollectorIndividual::new(fitness, Chromosome::from_genes(genes))
}

#[test]
fn chromosome_round_trip() {
    let c = Chromosome::from_genes(vec![1.5f32, -2.0, 0.25]);
    let d = Chromosome::from_genes(c.iter());
    assert_eq!(d.len(), 3);
    assert_eq!(d.into_genes(), vec![1.5, -2.0, 0.25]);
    assert_eq!(c.index(1), -2.0);
}

#[test]
fn chromosome_set_replaces_one_gene() {
    let mut c = Chromosome::from_genes(vec![1, 2, 3]);
    c.set(1, 7);
    assert_eq!(c.into_genes(), vec![1, 7, 3]);
}

#[test]
fn uniform_crossover_takes_each_gene_from_a_parent() {
    let mut rng = StdRng::seed_from_u64(7);
    let a = Chromosome::from_genes((0..100).collect::<Vec<i32>>());
    let b = Chromosome::from_genes((0..100).map(|x| -x - 1).collect::<Vec<i32>>());
    let child = UniformCrossover::new().crossover(&mut rng, &a, &b);
    assert_eq!(child.len(), 100);
    let genes = child.into_genes();
    let mut from_a = 0;
    for (i, g) in genes.iter().enumerate() {
        let i = i as i32;
        assert!(*g == i || *g == -i - 1);
        if *g == i {
            from_a += 1;
        }
    }
    assert!(from_a > 0 && from_a < 100);
}

#[test]
fn uniform_crossover_of_empty_parents() {
    let mut rng = StdRng::seed_from_u64(1);
    let a: Chromosome<i32> = Chromosome::from_genes(vec![]);
    let b: Chromosome<i32> = Chromosome::from_genes(vec![]);
    assert_eq!(UniformCrossover::new().crossover(&mut rng, &a, &b).len(), 0);
}

#[test]
fn crossover_is_reproducible_from_a_seed() {
    let a = Chromosome::from_genes((0..50).collect::<Vec<i32>>());
    let b = Chromosome::from_genes((100..150).collect::<Vec<i32>>());
    let mut r1 = StdRng::seed_from_u64(42);
    let mut r2 = StdRng::seed_from_u64(42);
    let c1 = UniformCrossover::new().crossover(&mut r1, &a, &b).into_genes();
    let c2 = UniformCrossover::new().crossover(&mut r2, &a, &b).into_genes();
    assert_eq!(c1, c2);
}

#[test]
fn roulette_never_picks_zero_fitness() {
    let mut rng = StdRng::seed_from_u64(11);
    let sel = RouletteWheelSelection::new();
    for _ in 0..200 {
        assert_eq!(sel.pick(&mut rng, &[0, 5, 0]), 1);
    }
    for _ in 0..200 {
        let r = sel.pick(&mut rng, &[0, 3, 0, 2]);
        assert!(r == 1 || r == 3);
    }
}

#[test]
fn roulette_select_on_population() {
    let mut rng = StdRng::seed_from_u64(9);
    let pop = vec![individual(0, vec![1]), individual(0, vec![2]), individual(4, vec![3])];
    for _ in 0..100 {
        assert_eq!(RouletteWheelSelection::new().select(&mut rng, &pop), 2);
    }
}

#[test]
fn statistics_of_population() {
    let pop = vec![individual(3, vec![]), individual(1, vec![]), individual(8, vec![]), individual(4, vec![])];
    let s = Statistics::new(&pop);
    assert_eq!(s.min_fitness(), 1);
    assert_eq!(s.max_fitness(), 8);
    assert_eq!(s.sum_fitness(), 16);
    assert_eq!(s.size(), 4);
    assert!(s.min_fitness() as u128 * 4 <= s.sum_fitness());
    assert!(s.sum_fitness() <= s.max_fitness() as u128 * 4);
}

#[test]
fn statistics_of_single_individual() {
    let s = Statistics::new(&[individual(u32::MAX, vec![])]);
    assert_eq!(s.min_fitness(), u32::MAX);
    assert_eq!(s.max_fitness(), u32::MAX);
    assert_eq!(s.sum_fitness(), u32::MAX as u128);
}

#[test]
fn evolve_keeps_population_size() {
    let mut rng = StdRng::seed_from_u64(2);
    let ga = GeneticAlgorithm::new(RouletteWheelSelection::new(), UniformCrossover::new(), Unchanged);
    let pop = vec![
        individual(1, vec![1, 1, 1]),
        individual(2, vec![2, 2, 2]),
        individual(0, vec![3, 3, 3]),
        individual(5, vec![4, 4, 4]),
        individual(1, vec![5, 5, 5]),
    ];
    let (next, stats) = ga.evolve(&mut rng, &pop);
    assert_eq!(next.len(), 5);
    assert_eq!(stats.min_fitness(), 0);
    assert_eq!(stats.max_fitness(), 5);
    assert_eq!(stats.sum_fitness(), 9);
    for i in &next {
        assert_eq!(i.fitness(), 0);
        assert_eq!(i.chromosome().len(), 3);
        for g in i.chromosome().iter() {
            // the individual of fitness 0 is never a parent
            assert!(g != 3);
        }
    }
}

#[test]
fn evolve_is_reproducible_from_a_seed() {
    let ga = GeneticAlgorithm::new(RouletteWheelSelection::new(), UniformCrossover::new(), Unchanged);
    let pop: Vec<_> = (0..10).map(|i| individual(i, vec![i as i32; 8])).collect();
    let mut r1 = StdRng::seed_from_u64(99);
    let mut r2 = StdRng::seed_from_u64(99);
    let a: Vec<Vec<i32>> = ga.evolve(&mut r1, &pop).0.into_iter().map(|i| i.into_chromosome().into_genes()).collect();
    let b: Vec<Vec<i32>> = ga.evolve(&mut r2, &pop).0.into_iter().map(|i| i.into_chromosome().into_genes()).collect();
    assert_eq!(a, b);
}

#[test]
fn cross_by_follows_the_flips() {
    let a = Chromosome::from_genes(vec![1, 2, 3, 4]);
    let b = Chromosome::from_genes(vec![-1, -2, -3, -4]);
    let child = UniformCrossover::cross_by(&vec![true, false, false, true], &a, &b);
    assert_eq!(child.into_genes(), vec![1, -2, -3, 4]);
}

#[test]
fn crossing_a_chromosome_with_itself_keeps_it() {
    let mut rng = StdRng::seed_from_u64(4);
    let a = Chromosome::from_genes(vec![5, 6, 7]);
    assert_eq!(UniformCrossover::new().crossover(&mut rng, &a, &a).into_genes(), vec![5, 6, 7]);
}

#[test]
fn mutate_applies_to_every_gene_in_order() {
    let mut rng = StdRng::seed_from_u64(0);
    let mut c = Chromosome::from_genes(vec![1, -2, 3]);
    mutate(&Negate, &mut rng, &mut c);
    assert_eq!(c.into_genes(), vec![-1, 2, -3]);
}

#[test]
fn evolve_children_keep_the_chromosome_length() {
    let mut rng = StdRng::seed_from_u64(8);
    let ga = GeneticAlgorithm::new(RouletteWheelSelection::new(), UniformCrossover::new(), Negate);
    let pop = vec![individual(1, vec![1, 2]), individual(3, vec![3, 4])];
    let (next, _) = ga.evolve(&mut rng, &pop);
    for i in &next {
        let genes = i.chromosome().iter();
        assert_eq!(genes.len(), 2);
        assert!(genes[0] == -1 || genes[0] == -3);
        assert!(genes[1] == -2 || genes[1] == -4);
    }
}
