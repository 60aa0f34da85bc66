//! Selection: how a parent is chosen from a population.

use crate::individual::{lemma_total_bounds, scores, total, Individual};
use crate::random::choose_by_fitness;
use rand_chacha::ChaCha8Rng;
use vstd::prelude::*;

verus! {

/// A way to choose one member of a population as a parent.
pub trait SelectionMethod<I: Individual> {
    /// The populations that this method can choose from: all of them,
    /// unless a method says otherwise.
    open spec fn admits(&self, population: Seq<I>) -> bool {
        true
    }

    /// Whether this method may choose `chosen` from `population`, of which
    /// it is a member: any member, unless a method says otherwise.
    open spec fn selects(&self, population: Seq<I>, chosen: I) -> bool {
        true
    }

    /// Chooses one member of `population`.
    fn select<'a>(&self, rng: &mut ChaCha8Rng, population: &'a [I]) -> (chosen: &'a I)
        requires
            population@.len() > 0,
            self.admits(population@),
        ensures
            population@.contains(*chosen),
            self.selects(population@, *chosen),
    ;
}

/// Chooses a member with a chance in proportion to its fitness.
#[derive(Clone, Copy, Debug)]
pub struct RouletteWheelSelection;

impl RouletteWheelSelection {
    /// The sum of the fitness of `population`, or `None` where it does not
    /// fit a `u32`.
    pub fn total_fitness<I: Individual>(population: &[I]) -> (fitness: Option<u32>)
        ensures
            match fitness {
                Some(sum) => sum == total(scores(population@)),
                None => total(scores(population@)) > u32::MAX,
            },
    {
        let ghost all = scores(population@);
        let mut sum: u32 = 0;
        let mut k: usize = 0;
        while k < population.len()
            invariant
                0 <= k <= population@.len(),
                all == scores(population@),
                sum == total(all.take(k as int)),
            decreases population@.len() - k,
        {
            let fitness: u32 = population[k].fitness();
            proof {
                assert(all.take(k + 1).drop_last() =~= all.take(k as int));
                assert(all.take(k + 1).last() == fitness);
                lemma_total_bounds(all, k + 1);
            }
            sum = match sum.checked_add(fitness) {
                Some(more) => more,
                None => {
                    return None;
                },
            };
            k += 1;
        }
        proof {
            assert(all.take(all.len() as int) =~= all);
        }
        Some(sum)
    }
}

impl<I: Individual> SelectionMethod<I> for RouletteWheelSelection {
    /// A population whose fitness sums to more than nothing, and to no more
    /// than a `u32` holds.
    open spec fn admits(&self, population: Seq<I>) -> bool {
        0 < total(scores(population)) <= u32::MAX
    }

    /// A member whose fitness is not zero.
    open spec fn selects(&self, population: Seq<I>, chosen: I) -> bool {
        chosen.score() > 0
    }

    /// Chooses a member of `population`, each with a chance in proportion
    /// to its fitness: one of fitness zero is never chosen.
    fn select<'a>(&self, rng: &mut ChaCha8Rng, population: &'a [I]) -> (chosen: &'a I) {
        choose_by_fitness(rng, population)
    }
}

} // verus!
