use neuroevolution::algorithm::GeneticAlgorithm;
use neuroevolution::chromosome::Chromosome;
use neuroevolution::crossover::{CrossoverMethod, UniformCrossover};
use neuroevolution::individual::Individual;
use neuroevolution::mutation::{GaussianMutation, MutationMethod};
use neuroevolution::selection::{RouletteWheelSelection, SelectionMethod};
use neuroevolution::statistics::Statistics;
use rand::seq::SliceRandom;
use rand::{Rng, SeedableRng};
use rand_chacha::ChaCha8Rng;
use std::collections::BTreeMap;

#[derive(Clone, Debug)]
enum TestIndividual {
    /// For tests that require using chromosome
    WithChromosome { chromosome: Chromosome<f32> },

    /// For tests that require using fitness
    WithFitness { fitness: u32 },
}

impl TestIndividual {
    fn new(fitness: u32) -> Self {
        Self::WithFitness { fitness }
    }

    fn sum(&self) -> f32 {
        self.chromosome().iter().iter().sum()
    }
}

impl Individual for TestIndividual {
    type Gene = f32;

    fn create(chromosome: Chromosome<f32>) -> Self {
        Self::WithChromosome { chromosome }
    }

    fn chromosome(&self) -> &Chromosome<f32> {
        match self {
            Self::WithChromosome { chromosome } => chromosome,
            Self::WithFitness { .. } => {
                panic!("an individual that was given a fitness has no chromosome")
            }
        }
    }

    fn fitness(&self) -> u32 {
        match self {
            Self::WithChromosome { chromosome } => chromosome.len() as u32,
            Self::WithFitness { fitness } => *fitness,
        }
    }
}

/// Selects by roulette wheel, each individual weighted by the sum of its genes.
struct SumSelection;

impl SelectionMethod<TestIndividual> for SumSelection {
    fn select<'a>(
        &self,
        rng: &mut ChaCha8Rng,
        population: &'a [TestIndividual],
    ) -> &'a TestIndividual {
        population
            .choose_weighted(rng, |individual| individual.sum())
            .expect("got empty population")
    }
}

fn individual(genes: &[f32]) -> TestIndividual {
    TestIndividual::create(Chromosome::new(genes.iter().cloned().collect()))
}

fn nudge(coeff: f32) -> impl Fn(&mut ChaCha8Rng, f32, bool) -> f32 {
    move |rng: &mut ChaCha8Rng, gene: f32, negative: bool| {
        let sign = if negative { -1.0 } else { 1.0 };
        gene + sign * coeff * rng.gen::<f32>()
    }
}

fn mutated(chance: (u32, u32), coeff: f32) -> Vec<f32> {
    let mut rng = ChaCha8Rng::from_seed(Default::default());
    let mut child = Chromosome::new(vec![1.0, 2.0, 3.0, 4.0, 5.0]);

    GaussianMutation::new(chance.0, chance.1, nudge(coeff)).mutate(&mut rng, &mut child);

    child.into_vec()
}

fn close(actual: &[f32], expected: &[f32]) -> bool {
    approx::Relative::default().eq(actual, expected)
}

#[test]
fn roulette_wheel_selection() {
    let mut rng = ChaCha8Rng::from_seed(Default::default());

    let population = vec![
        TestIndividual::new(2),
        TestIndividual::new(1),
        TestIndividual::new(4),
        TestIndividual::new(3),
    ];

    let mut actual_histogram = BTreeMap::new();

    for _ in 0..1000 {
        let fitness = RouletteWheelSelection
            .select(&mut rng, &population)
            .fitness() as i32;

        *actual_histogram.entry(fitness).or_insert(0) += 1;
    }

    let expected_histogram = BTreeMap::from_iter([(1, 98), (2, 202), (3, 278), (4, 422)]);

    assert_eq!(actual_histogram, expected_histogram);
}

#[test]
fn roulette_wheel_never_selects_an_individual_without_fitness() {
    let mut rng = ChaCha8Rng::from_seed(Default::default());
    let population = vec![
        TestIndividual::new(0),
        TestIndividual::new(5),
        TestIndividual::new(0),
    ];

    for _ in 0..200 {
        let chosen = RouletteWheelSelection.select(&mut rng, &population);
        assert_eq!(chosen.fitness(), 5);
    }
}

#[test]
fn total_fitness_is_the_sum_or_nothing() {
    let population = vec![
        TestIndividual::new(2),
        TestIndividual::new(1),
        TestIndividual::new(4),
    ];
    assert_eq!(RouletteWheelSelection::total_fitness(&population), Some(7));

    let heavy = vec![TestIndividual::new(u32::MAX), TestIndividual::new(1)];
    assert_eq!(RouletteWheelSelection::total_fitness(&heavy), None);

    let nobody: Vec<TestIndividual> = Vec::new();
    assert_eq!(RouletteWheelSelection::total_fitness(&nobody), Some(0));
}

#[test]
fn uniform_crossover() {
    let mut rng = ChaCha8Rng::from_seed(Default::default());
    let parent_a: Chromosome<f32> = Chromosome::new((1..=100).map(|n| n as f32).collect());
    let parent_b: Chromosome<f32> = Chromosome::new((1..=100).map(|n| -n as f32).collect());
    let child = UniformCrossover.crossover(&mut rng, &parent_a, &parent_b);

    // Number of genes different between `child` and `parent_a`
    let diff_a = child
        .iter()
        .iter()
        .zip(parent_a.into_vec())
        .filter(|(c, p)| *c != p)
        .count();

    // Number of genes different between `child` and `parent_b`
    let diff_b = child
        .iter()
        .iter()
        .zip(parent_b.into_vec())
        .filter(|(c, p)| *c != p)
        .count();

    assert_eq!(diff_a, 49);
    assert_eq!(diff_b, 51);
}

#[test]
fn combine_takes_each_gene_from_the_parent_its_coin_names() {
    let parent_a = Chromosome::new(vec![1, 2, 3, 4]);
    let parent_b = Chromosome::new(vec![-1, -2, -3, -4]);
    let coins = vec![true, false, false, true];

    let child = UniformCrossover::combine(&parent_a, &parent_b, &coins);

    assert_eq!(child.into_vec(), vec![1, -2, -3, 4]);
}

#[test]
fn genetic_algorithm() {
    let mut rng = ChaCha8Rng::from_seed(Default::default());

    let ga = GeneticAlgorithm::new(
        SumSelection,
        UniformCrossover,
        GaussianMutation::new(1, 2, nudge(0.5)),
    );

    let mut population = vec![
        individual(&[0.0, 0.0, 0.0]),
        individual(&[1.0, 1.0, 1.0]),
        individual(&[1.0, 2.0, 1.0]),
        individual(&[1.0, 2.0, 4.0]),
    ];

    for _ in 0..10 {
        population = ga.evolve(&mut rng, &population).0;
    }

    let expected_population = vec![
        individual(&[0.4476949, 2.0648358, 4.3058133]),
        individual(&[1.2126867, 1.5538777, 2.886911]),
        individual(&[1.0617678, 2.265739, 4.428764]),
        individual(&[0.95909685, 2.4618788, 4.024733]),
    ];

    assert_eq!(population.len(), expected_population.len());
    for (actual, expected) in population.iter().zip(&expected_population) {
        assert!(
            close(actual.chromosome().iter(), expected.chromosome().iter()),
            "{:?} is not {:?}",
            actual,
            expected
        );
    }
}

#[test]
fn evolve_keeps_the_size_and_reports_the_generation_it_replaces() {
    let mut rng = ChaCha8Rng::from_seed(Default::default());
    let ga = GeneticAlgorithm::new(
        SumSelection,
        UniformCrossover,
        GaussianMutation::new(0, 1, nudge(1.0)),
    );
    let population = vec![
        individual(&[1.0, 1.0]),
        individual(&[2.0, 2.0]),
        individual(&[3.0, 3.0]),
    ];

    let (offspring, stats) = ga.evolve(&mut rng, &population);

    assert_eq!(offspring.len(), 3);
    for child in &offspring {
        assert_eq!(child.chromosome().len(), 2);
        let gene = *child.chromosome().index(0);
        assert!(gene == 1.0 || gene == 2.0 || gene == 3.0);
    }
    assert_eq!(stats.size, 3);
    assert_eq!(stats.min_fitness, 2);
    assert_eq!(stats.max_fitness, 2);
    assert_eq!(stats.sum_fitness, 6);
}

#[test]
fn statistics_of_a_population() {
    let population = vec![
        TestIndividual::new(30),
        TestIndividual::new(10),
        TestIndividual::new(20),
        TestIndividual::new(40),
    ];

    let stats = Statistics::new(&population);

    assert_eq!(stats.min_fitness, 10);
    assert_eq!(stats.max_fitness, 40);
    assert_eq!(stats.sum_fitness, 100);
    assert_eq!(stats.size, 4);
    assert_eq!(stats.sum_fitness as f32 / stats.size as f32, 25.0);
}

#[test]
fn statistics_of_the_largest_fitness_do_not_overflow() {
    let population = vec![
        TestIndividual::new(u32::MAX),
        TestIndividual::new(u32::MAX),
    ];

    let stats = Statistics::new(&population);

    assert_eq!(stats.min_fitness, u32::MAX);
    assert_eq!(stats.max_fitness, u32::MAX);
    assert_eq!(stats.sum_fitness, 2 * (u32::MAX as u128));
}

#[test]
fn does_not_change_the_original_chromosome() {
    // given zero chance, and zero coefficient
    let actual = mutated((0, 1), 0.0);
    let expected = vec![1.0, 2.0, 3.0, 4.0, 5.0];

    assert!(close(actual.as_slice(), expected.as_slice()));
}

#[test]
fn does_not_change_original_chromosome() {
    // given zero chance, and non-zero coefficient
    let actual = mutated((0, 1), 1.0);
    let expected = vec![1.0, 2.0, 3.0, 4.0, 5.0];

    assert!(close(actual.as_slice(), expected.as_slice()));
    assert_eq!(actual, expected);
}

#[test]
fn lib_does_not_change_the_original_chromosome() {
    let expected = vec![1.0, 2.0, 3.0, 4.0, 5.0];

    // given fifty-fifty chance, and zero coefficient
    let actual = mutated((1, 2), 0.0);
    assert!(close(actual.as_slice(), expected.as_slice()));

    // given max chance, and zero coefficient
    let actual = mutated((1, 1), 0.0);
    assert!(close(actual.as_slice(), expected.as_slice()));
}

#[test]
fn slightly_changes_the_original_chromosome() {
    let actual = mutated((1, 2), 1.0);
    let expected = vec![1.0, 1.5512497, 3.0, 4.319361, 5.0];

    assert!(close(actual.as_slice(), expected.as_slice()));
}

#[test]
fn entirely_changes_the_original_chromosome() {
    let actual = mutated((1, 1), 1.0);
    let expected = vec![1.9090631, 2.2324157, 2.5512497, 3.901025, 4.2773824];

    assert!(close(actual.as_slice(), expected.as_slice()));
}

#[test]
fn mutation_with_max_chance_shifts_every_gene_by_the_coefficient_at_most() {
    let before = [1.0f32, 2.0, 3.0, 4.0, 5.0];
    let actual = mutated((1, 1), 0.25);

    for (after, before) in actual.iter().zip(before) {
        assert!(*after != before);
        assert!((after - before).abs() <= 0.25);
    }
}

#[test]
fn chromosome_hands_out_its_genes() {
    let mut chromosome = Chromosome::new(vec![3, 1, 2]);

    assert_eq!(chromosome.len(), 3);
    assert_eq!(*chromosome.index(1), 1);
    assert_eq!(chromosome.iter(), &[3, 1, 2]);

    for gene in chromosome.iter_mut() {
        *gene += 10;
    }

    assert_eq!(chromosome.into_vec(), vec![13, 11, 12]);
}

#[test]
fn touch_keeps_a_gene_that_was_missed_and_hands_a_gene_that_was_hit_to_the_kernel() {
    let mut rng = ChaCha8Rng::from_seed(Default::default());
    // a kernel that draws nothing: it shifts the gene by three
    let shift = |_: &mut ChaCha8Rng, gene: i32, negative: bool| -> i32 {
        if negative {
            gene - 3
        } else {
            gene + 3
        }
    };
    let mutation = GaussianMutation::new(1, 2, shift);

    assert_eq!(mutation.touch(&mut rng, 10, false, false), 10);
    assert_eq!(mutation.touch(&mut rng, 10, true, false), 10);
    assert_eq!(mutation.touch(&mut rng, 10, false, true), 13);
    assert_eq!(mutation.touch(&mut rng, 10, true, true), 7);
}

#[test]
fn touch_calls_the_kernel_once_for_a_hit_and_not_at_all_for_a_miss() {
    let mut rng = ChaCha8Rng::from_seed(Default::default());
    let mut twin = ChaCha8Rng::from_seed(Default::default());
    let mutation = GaussianMutation::new(1, 2, nudge(0.5));

    assert_eq!(mutation.touch(&mut rng, 1.0, true, false), 1.0);
    // nothing was drawn for the miss
    assert_eq!(rng.get_word_pos(), twin.get_word_pos());

    let out = mutation.touch(&mut rng, 1.0, true, true);
    assert_eq!(out, 1.0 - 0.5 * twin.gen::<f32>());
    assert_eq!(rng.get_word_pos(), twin.get_word_pos());
}

#[test]
fn mutation_with_a_chance_in_between_changes_some_genes_and_keeps_others() {
    let actual = mutated((1, 2), 1.0);
    let before = [1.0f32, 2.0, 3.0, 4.0, 5.0];

    let changed = actual.iter().zip(before).filter(|(a, b)| *a != b).count();

    assert_eq!(changed, 2);
    for (after, before) in actual.iter().zip(before) {
        assert!((after - before).abs() <= 1.0);
    }
}

/// Hands on the genes of the first parent.
struct FirstParent;

impl CrossoverMethod<f32> for FirstParent {
    fn crossover(
        &self,
        _: &mut ChaCha8Rng,
        parent_a: &Chromosome<f32>,
        _: &Chromosome<f32>,
    ) -> Chromosome<f32> {
        Chromosome::new(parent_a.iter().to_vec())
    }
}

#[test]
fn breed_crosses_the_parents_in_their_order_and_mutates_what_comes_of_it() {
    let mut rng = ChaCha8Rng::from_seed(Default::default());
    let shift = |_: &mut ChaCha8Rng, gene: f32, _: bool| -> f32 { gene + 100.0 };
    let ga = GeneticAlgorithm::new(SumSelection, FirstParent, GaussianMutation::new(1, 1, shift));
    let first = individual(&[1.0, 2.0, 3.0]);
    let second = individual(&[7.0, 8.0, 9.0]);

    let child = ga.breed(&mut rng, &first, &second);
    assert_eq!(child.chromosome().iter(), &[101.0, 102.0, 103.0]);

    let child = ga.breed(&mut rng, &second, &first);
    assert_eq!(child.chromosome().iter(), &[107.0, 108.0, 109.0]);
}

#[test]
fn breed_takes_every_gene_from_one_parent_or_the_other() {
    let mut rng = ChaCha8Rng::from_seed(Default::default());
    let ga = GeneticAlgorithm::new(
        SumSelection,
        UniformCrossover,
        GaussianMutation::new(0, 1, nudge(1.0)),
    );
    let first = individual(&[1.0, 2.0, 3.0, 4.0, 5.0, 6.0]);
    let second = individual(&[-1.0, -2.0, -3.0, -4.0, -5.0, -6.0]);

    let child = ga.breed(&mut rng, &first, &second);

    let genes = child.chromosome().iter();
    assert_eq!(genes.len(), 6);
    for (at, gene) in genes.iter().enumerate() {
        assert_eq!(gene.abs(), (at + 1) as f32);
    }
}

#[test]
fn a_chance_given_as_a_ratio_draws_as_the_same_chance_given_as_a_float() {
    // 0.01 as a single-precision number is 10737418 in 2^30
    assert_eq!(0.01f32 as f64, 10_737_418.0 / (1u64 << 30) as f64);

    let genes: Vec<f32> = (0..20_000).map(|n| n as f32).collect();

    let mut rng = ChaCha8Rng::from_seed(Default::default());
    let mut child = Chromosome::new(genes.clone());
    GaussianMutation::new(10_737_418, 1 << 30, nudge(0.3)).mutate(&mut rng, &mut child);

    let mut rng = ChaCha8Rng::from_seed(Default::default());
    let mut expected = genes.clone();
    for gene in expected.iter_mut() {
        let sign = if rng.gen_bool(0.5) { -1.0 } else { 1.0 };

        if rng.gen_bool(0.01f32 as f64) {
            *gene += sign * 0.3 * rng.gen::<f32>();
        }
    }

    assert_eq!(child.into_vec(), expected);
    assert!(expected.iter().zip(&genes).any(|(after, before)| after != before));
}

/// An individual with a fitness that is given apart from its genes.
#[derive(Clone, Debug)]
struct Scored {
    fitness: u32,
    chromosome: Chromosome<f32>,
}

impl Individual for Scored {
    type Gene = f32;

    fn create(chromosome: Chromosome<f32>) -> Self {
        Self {
            fitness: 0,
            chromosome,
        }
    }

    fn chromosome(&self) -> &Chromosome<f32> {
        &self.chromosome
    }

    fn fitness(&self) -> u32 {
        self.fitness
    }
}

#[test]
fn evolve_by_the_roulette_wheel_breeds_from_the_fit_only() {
    let mut rng = ChaCha8Rng::from_seed(Default::default());
    let ga = GeneticAlgorithm::new(
        RouletteWheelSelection,
        UniformCrossover,
        GaussianMutation::new(0, 1, nudge(1.0)),
    );
    let scored = |fitness: u32, gene: f32| Scored {
        fitness,
        chromosome: Chromosome::new(vec![gene; 4]),
    };
    let population = vec![
        scored(0, 9.0),
        scored(3, 1.0),
        scored(0, 8.0),
        scored(1, 2.0),
        scored(0, 7.0),
    ];
    assert_eq!(RouletteWheelSelection::total_fitness(&population), Some(4));

    let (offspring, stats) = ga.evolve(&mut rng, &population);

    assert_eq!(offspring.len(), 5);
    for child in &offspring {
        assert_eq!(child.fitness(), 0);
        assert_eq!(child.chromosome().len(), 4);
        for gene in child.chromosome().iter() {
            assert!(*gene == 1.0 || *gene == 2.0);
        }
    }
    assert_eq!(stats.min_fitness, 0);
    assert_eq!(stats.max_fitness, 3);
    assert_eq!(stats.sum_fitness, 4);
    assert_eq!(stats.size, 5);
}
