//! The genetic algorithm: one generation makes the next.

use crate::crossover::CrossoverMethod;
use crate::individual::{is_greatest, is_least, scores, total, uniform, Individual};
use crate::mutation::MutationMethod;
use crate::selection::SelectionMethod;
use crate::statistics::Statistics;
use rand_chacha::ChaCha8Rng;
use vstd::prelude::*;

verus! {

/// A genetic algorithm: a way to select parents, a way to cross their
/// chromosomes and a way to mutate the child's.
pub struct GeneticAlgorithm<S, C, M> {
    selection_method: S,
    crossover_method: C,
    mutation_method: M,
}

/// Whether `child` may be the genes of a child of `parent_a` and
/// `parent_b`, in this order: their genes were crossed, and what came of
/// that was mutated.
pub open spec fn child_of<T, C: CrossoverMethod<T>, M: MutationMethod<T>>(
    crossover_method: C,
    mutation_method: M,
    parent_a: Seq<T>,
    parent_b: Seq<T>,
    child: Seq<T>,
) -> bool {
    exists|crossed: Seq<T>|
        #[trigger] crossover_method.crosses(parent_a, parent_b, crossed) && mutation_method.mutates(
            crossed,
            child,
        )
}

/// Whether `child` may be bred from `population` by the three methods: two
/// members were selected, and the child has the genes of a child of the
/// two.
pub open spec fn bred<
    I: Individual,
    S: SelectionMethod<I>,
    C: CrossoverMethod<I::Gene>,
    M: MutationMethod<I::Gene>,
>(
    selection_method: S,
    crossover_method: C,
    mutation_method: M,
    population: Seq<I>,
    child: I,
) -> bool {
    exists|a: int, b: int|
        {
            &&& 0 <= a < population.len()
            &&& 0 <= b < population.len()
            &&& selection_method.selects(population, population[a])
            &&& selection_method.selects(population, population[b])
            &&& #[trigger] child_of(
                crossover_method,
                mutation_method,
                population[a].genes(),
                population[b].genes(),
                child.genes(),
            )
        }
}

impl<S, C, M> GeneticAlgorithm<S, C, M> {
    /// The algorithm that works by the three given methods.
    pub fn new(selection_method: S, crossover_method: C, mutation_method: M) -> (algorithm: Self)
        ensures
            algorithm.selection_method() == selection_method,
            algorithm.crossover_method() == crossover_method,
            algorithm.mutation_method() == mutation_method,
    {
        GeneticAlgorithm { selection_method, crossover_method, mutation_method }
    }

    /// The way this algorithm selects parents.
    pub closed spec fn selection_method(&self) -> S {
        self.selection_method
    }

    /// The way this algorithm crosses chromosomes.
    pub closed spec fn crossover_method(&self) -> C {
        self.crossover_method
    }

    /// The way this algorithm mutates chromosomes.
    pub closed spec fn mutation_method(&self) -> M {
        self.mutation_method
    }

    /// Makes the child of two parents that were selected, `parent_a` first
    /// and `parent_b` second: their chromosomes are crossed, in this
    /// order; the chromosome that comes of that is mutated; and the child
    /// is created from it.
    pub fn breed<I>(&self, rng: &mut ChaCha8Rng, parent_a: &I, parent_b: &I) -> (child: I)
        where
            I: Individual,
            C: CrossoverMethod<I::Gene>,
            M: MutationMethod<I::Gene>,
        requires
            parent_a.genes().len() == parent_b.genes().len(),
            self.mutation_method().ready(),
        ensures
            child.genes().len() == parent_a.genes().len(),
            child_of(
                self.crossover_method(),
                self.mutation_method(),
                parent_a.genes(),
                parent_b.genes(),
                child.genes(),
            ),
    {
        let mut chromosome = self.crossover_method.crossover(
            rng,
            parent_a.chromosome(),
            parent_b.chromosome(),
        );
        let ghost crossed = chromosome@;
        self.mutation_method.mutate(rng, &mut chromosome);
        proof {
            assert(self.crossover_method().crosses(parent_a.genes(), parent_b.genes(), crossed));
        }
        I::create(chromosome)
    }

    /// Makes the next generation of `population`, as many members as it
    /// has, one after the other: two parents are selected, first one and
    /// then the other, each from the whole population, and `breed` makes
    /// their child, of the first and the second in this order. Returns the
    /// new generation and the statistics of `population`, the generation
    /// that it replaces.
    pub fn evolve<I>(&self, rng: &mut ChaCha8Rng, population: &[I]) -> (next: (Vec<I>, Statistics))
        where
            I: Individual,
            S: SelectionMethod<I>,
            C: CrossoverMethod<I::Gene>,
            M: MutationMethod<I::Gene>,
        requires
            population@.len() > 0,
            self.selection_method().admits(population@),
            self.mutation_method().ready(),
            uniform(population@, population@[0].genes().len() as int),
        ensures
            next.0@.len() == population@.len(),
            uniform(next.0@, population@[0].genes().len() as int),
            forall|k: int|
                0 <= k < next.0@.len() ==> bred(
                    self.selection_method(),
                    self.crossover_method(),
                    self.mutation_method(),
                    population@,
                    #[trigger] next.0@[k],
                ),
            is_least(scores(population@), next.1.min_fitness),
            is_greatest(scores(population@), next.1.max_fitness),
            next.1.sum_fitness == total(scores(population@)),
            next.1.size == population@.len(),
    {
        let mut new_population: Vec<I> = Vec::new();
        let mut k: usize = 0;
        while k < population.len()
            invariant
                0 <= k <= population@.len(),
                population@.len() > 0,
                self.selection_method().admits(population@),
                self.mutation_method().ready(),
                uniform(population@, population@[0].genes().len() as int),
                new_population@.len() == k,
                uniform(new_population@, population@[0].genes().len() as int),
                forall|i: int|
                    0 <= i < k ==> bred(
                        self.selection_method(),
                        self.crossover_method(),
                        self.mutation_method(),
                        population@,
                        #[trigger] new_population@[i],
                    ),
            decreases population@.len() - k,
        {
            let first = self.selection_method.select(rng, population);
            let second = self.selection_method.select(rng, population);
            let created = self.breed(rng, first, second);
            proof {
                let a = choose|a: int| 0 <= a < population@.len() && population@[a] == *first;
                let b = choose|b: int| 0 <= b < population@.len() && population@[b] == *second;
                assert(child_of(
                    self.crossover_method(),
                    self.mutation_method(),
                    population@[a].genes(),
                    population@[b].genes(),
                    created.genes(),
                ));
                assert(bred(
                    self.selection_method(),
                    self.crossover_method(),
                    self.mutation_method(),
                    population@,
                    created,
                ));
            }
            new_population.push(created);
            k += 1;
        }
        let stats = Statistics::new(population);
        (new_population, stats)
    }
}

} // verus!
