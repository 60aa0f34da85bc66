//! Statistics of a population.

use crate::individual::{is_greatest, is_least, lemma_total_bounds, scores, total, Individual};
use vstd::prelude::*;

verus! {

/// The least, the greatest and the sum of the fitness of a population,
/// with its size: the average is `sum_fitness` over `size`.
#[derive(Clone, Copy, Debug)]
pub struct Statistics {
    pub min_fitness: u32,
    pub max_fitness: u32,
    pub sum_fitness: u128,
    pub size: usize,
}

impl Statistics {
    /// The statistics of `population`, which has a member.
    pub fn new<I: Individual>(population: &[I]) -> (stats: Self)
        requires
            population@.len() > 0,
        ensures
            is_least(scores(population@), stats.min_fitness),
            is_greatest(scores(population@), stats.max_fitness),
            stats.sum_fitness == total(scores(population@)),
            stats.size == population@.len(),
    {
        let ghost all = scores(population@);
        let mut min_fitness: u32 = population[0].fitness();
        let mut max_fitness: u32 = min_fitness;
        let mut sum_fitness: u128 = 0;
        let ghost mut least: int = 0;
        let ghost mut greatest: int = 0;
        let mut k: usize = 0;
        while k < population.len()
            invariant
                0 <= k <= population@.len(),
                all == scores(population@),
                0 <= least < all.len(),
                0 <= greatest < all.len(),
                all[least] == min_fitness,
                all[greatest] == max_fitness,
                forall|i: int| 0 <= i < k ==> min_fitness <= #[trigger] all[i],
                forall|i: int| 0 <= i < k ==> max_fitness >= #[trigger] all[i],
                sum_fitness == total(all.take(k as int)),
            decreases population@.len() - k,
        {
            let fitness: u32 = population[k].fitness();
            proof {
                assert(all.take(k + 1).drop_last() =~= all.take(k as int));
                assert(all.take(k + 1).last() == fitness);
                lemma_total_bounds(all, k + 1);
                assert(all.len() * u32::MAX <= usize::MAX * u32::MAX) by (nonlinear_arith)
                    requires
                        all.len() <= usize::MAX,
                ;
            }
            if fitness < min_fitness {
                min_fitness = fitness;
                proof {
                    least = k as int;
                }
            }
            if fitness > max_fitness {
                max_fitness = fitness;
                proof {
                    greatest = k as int;
                }
            }
            sum_fitness = sum_fitness + fitness as u128;
            k += 1;
        }
        proof {
            assert(all.take(all.len() as int) =~= all);
        }
        Statistics { min_fitness, max_fitness, sum_fitness, size: population.len() }
    }
}

} // verus!
