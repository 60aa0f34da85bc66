//! Crossover: how the genes of two parents make those of a child.

use crate::chromosome::Chromosome;
use crate::random::gen_ratio;
use rand_chacha::ChaCha8Rng;
use vstd::prelude::*;

verus! {

/// A way to make a child's chromosome from those of two parents of one
/// length.
pub trait CrossoverMethod<T> {
    /// Whether this method may make `child` of `parent_a` and `parent_b`:
    /// any child, unless a method says otherwise.
    open spec fn crosses(&self, parent_a: Seq<T>, parent_b: Seq<T>, child: Seq<T>) -> bool {
        true
    }

    /// The chromosome of a child of `parent_a` and `parent_b`.
    fn crossover(
        &self,
        rng: &mut ChaCha8Rng,
        parent_a: &Chromosome<T>,
        parent_b: &Chromosome<T>,
    ) -> (child: Chromosome<T>)
        requires
            parent_a@.len() == parent_b@.len(),
        ensures
            child@.len() == parent_a@.len(),
            self.crosses(parent_a@, parent_b@, child@),
    ;
}

/// Takes each gene from one parent or the other, as a fair coin falls.
#[derive(Clone, Copy, Debug)]
pub struct UniformCrossover;

/// The child that takes gene `i` from `parent_a` where `coins[i]` holds and
/// from `parent_b` where it does not.
pub open spec fn mix<T>(parent_a: Seq<T>, parent_b: Seq<T>, coins: Seq<bool>) -> Seq<T> {
    Seq::new(
        parent_a.len(),
        |i: int|
            if coins[i] {
                parent_a[i]
            } else {
                parent_b[i]
            },
    )
}

impl UniformCrossover {
    /// The child that takes each gene from `parent_a` where the coin of
    /// that gene holds and from `parent_b` where it does not.
    pub fn combine<T: Copy>(
        parent_a: &Chromosome<T>,
        parent_b: &Chromosome<T>,
        coins: &Vec<bool>,
    ) -> (child: Chromosome<T>)
        requires
            parent_a@.len() == parent_b@.len(),
            coins@.len() == parent_a@.len(),
        ensures
            child@ == mix(parent_a@, parent_b@, coins@),
    {
        let mut genes: Vec<T> = Vec::new();
        let mut i: usize = 0;
        while i < parent_a.len()
            invariant
                0 <= i <= parent_a@.len(),
                parent_a@.len() == parent_b@.len(),
                coins@.len() == parent_a@.len(),
                genes@ =~= mix(parent_a@, parent_b@, coins@).take(i as int),
            decreases parent_a@.len() - i,
        {
            let gene = if coins[i] {
                *parent_a.index(i)
            } else {
                *parent_b.index(i)
            };
            genes.push(gene);
            i += 1;
        }
        proof {
            assert(genes@ =~= mix(parent_a@, parent_b@, coins@));
        }
        Chromosome::new(genes)
    }
}

impl<T: Copy> CrossoverMethod<T> for UniformCrossover {
    /// A child that takes each gene from one parent or the other, as some
    /// coins say, one per gene.
    open spec fn crosses(&self, parent_a: Seq<T>, parent_b: Seq<T>, child: Seq<T>) -> bool {
        exists|coins: Seq<bool>|
            coins.len() == parent_a.len() && child == #[trigger] mix(parent_a, parent_b, coins)
    }

    /// Flips one fair coin per gene, in gene order, and takes each gene
    /// from the parent that its coin names.
    fn crossover(
        &self,
        rng: &mut ChaCha8Rng,
        parent_a: &Chromosome<T>,
        parent_b: &Chromosome<T>,
    ) -> (child: Chromosome<T>)
        ensures
            forall|i: int|
                0 <= i < child@.len() ==> #[trigger] child@[i] == parent_a@[i] || child@[i]
                    == parent_b@[i],
    {
        let mut coins: Vec<bool> = Vec::new();
        let mut i: usize = 0;
        while i < parent_a.len()
            invariant
                0 <= i <= parent_a@.len(),
                coins@.len() == i,
            decreases parent_a@.len() - i,
        {
            coins.push(gen_ratio(rng, 1, 2));
            i += 1;
        }
        let child = Self::combine(parent_a, parent_b, &coins);
        proof {
            assert(child@ == mix(parent_a@, parent_b@, coins@));
        }
        child
    }
}

} // verus!
