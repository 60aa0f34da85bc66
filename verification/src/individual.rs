//! Individuals: what a genetic algorithm breeds.

use crate::chromosome::Chromosome;
use vstd::prelude::*;

verus! {

/// One member of a population: it is made from a chromosome, has a
/// chromosome, and has a fitness by which it is chosen as a parent.
pub trait Individual: Sized {
    /// The type of a gene.
    type Gene: Copy;

    /// The genes of this individual.
    open spec fn genes(&self) -> Seq<Self::Gene> {
        arbitrary()
    }

    /// The fitness of this individual.
    open spec fn score(&self) -> u32 {
        arbitrary()
    }

    /// An individual with the given chromosome.
    fn create(chromosome: Chromosome<Self::Gene>) -> (individual: Self)
        ensures
            individual.genes() == chromosome@,
    ;

    /// The fitness of this individual: a count, such as that of the food it
    /// has eaten.
    fn fitness(&self) -> (fitness: u32)
        ensures
            fitness == self.score(),
    ;

    /// The chromosome of this individual.
    fn chromosome(&self) -> (chromosome: &Chromosome<Self::Gene>)
        ensures
            chromosome@ == self.genes(),
    ;
}

/// The fitness of each member of `population`, in order.
pub open spec fn scores<I: Individual>(population: Seq<I>) -> Seq<u32> {
    Seq::new(population.len(), |i: int| population[i].score())
}

/// The sum of `scores`.
pub open spec fn total(scores: Seq<u32>) -> nat
    decreases scores.len(),
{
    if scores.len() == 0 {
        0
    } else {
        total(scores.drop_last()) + scores.last() as nat
    }
}

/// Whether `least` is one of `scores` and none of them is less.
pub open spec fn is_least(scores: Seq<u32>, least: u32) -> bool {
    &&& scores.contains(least)
    &&& forall|i: int| 0 <= i < scores.len() ==> least <= #[trigger] scores[i]
}

/// Whether `greatest` is one of `scores` and none of them is more.
pub open spec fn is_greatest(scores: Seq<u32>, greatest: u32) -> bool {
    &&& scores.contains(greatest)
    &&& forall|i: int| 0 <= i < scores.len() ==> greatest >= #[trigger] scores[i]
}

/// Scores of which none is above `bound` sum to no more than as many times
/// `bound`.
pub proof fn lemma_total_at_most(scores: Seq<u32>, bound: int)
    requires
        forall|i: int| 0 <= i < scores.len() ==> #[trigger] scores[i] <= bound,
    ensures
        total(scores) <= scores.len() * bound,
    decreases scores.len(),
{
    if scores.len() > 0 {
        let front = scores.drop_last();
        assert forall|i: int| 0 <= i < front.len() implies #[trigger] front[i] <= bound by {
            assert(front[i] == scores[i]);
        }
        lemma_total_at_most(front, bound);
        assert(front.len() * bound + bound == scores.len() * bound) by (nonlinear_arith)
            requires
                front.len() + 1 == scores.len(),
        ;
    } else {
        assert(scores.len() * bound == 0) by (nonlinear_arith)
            requires
                scores.len() == 0,
        ;
    }
}

/// The first `k` of some scores sum to no more than all of them, and all
/// of them to no more than as many times the greatest value of a score.
pub proof fn lemma_total_bounds(scores: Seq<u32>, k: int)
    requires
        0 <= k <= scores.len(),
    ensures
        total(scores.take(k)) <= total(scores) <= scores.len() * u32::MAX,
    decreases scores.len(),
{
    if scores.len() == 0 {
        assert(scores.take(k) =~= scores);
    } else {
        let front = scores.drop_last();
        if k < scores.len() {
            lemma_total_bounds(front, k);
            assert(front.take(k) =~= scores.take(k));
        } else {
            lemma_total_bounds(front, k - 1);
            assert(scores.take(k) =~= scores);
        }
        assert(front.len() * u32::MAX + u32::MAX == scores.len() * u32::MAX) by (nonlinear_arith)
            requires
                front.len() + 1 == scores.len(),
        ;
    }
}

/// Whether all members of `population` have `len` genes.
pub open spec fn uniform<I: Individual>(population: Seq<I>, len: int) -> bool {
    forall|i: int| 0 <= i < population.len() ==> (#[trigger] population[i]).genes().len() == len
}

} // verus!
