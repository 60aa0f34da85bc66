//! The bridge between animals and the genetic algorithm: an animal seen as
//! an individual, and an individual made into an animal.

use crate::animal::{brain_topology, genome_len, well_formed, Animal, AnimalView, Pose};
use crate::chromosome::Chromosome;
use crate::eye::Eye;
use crate::individual::Individual;
use crate::network::{decode, flatten};
use vstd::prelude::*;

verus! {

/// What the genetic algorithm keeps of an animal: the genes of its brain,
/// and how often it has eaten.
pub struct AnimalIndividual<T> {
    fitness: u32,
    chromosome: Chromosome<T>,
}

impl<T: Copy> Individual for AnimalIndividual<T> {
    type Gene = T;

    closed spec fn genes(&self) -> Seq<T> {
        self.chromosome@
    }

    closed spec fn score(&self) -> u32 {
        self.fitness
    }

    /// An individual with the given chromosome, that has eaten nothing.
    fn create(chromosome: Chromosome<T>) -> (individual: Self)
        ensures
            individual.score() == 0,
    {
        AnimalIndividual { fitness: 0, chromosome }
    }

    /// How often the animal has eaten in the generation that ended.
    fn fitness(&self) -> (fitness: u32) {
        self.fitness
    }

    /// The genes of the animal's brain.
    fn chromosome(&self) -> (chromosome: &Chromosome<T>) {
        &self.chromosome
    }
}

impl<T: Copy> AnimalIndividual<T> {
    /// What the genetic algorithm keeps of `animal`: the genes of its brain
    /// as its chromosome, and its count of meals as its fitness.
    pub fn from_animal(animal: &Animal<T>) -> (individual: Self)
        ensures
            individual.genes() == flatten(animal@.brain),
            individual.score() == animal@.satiation,
    {
        AnimalIndividual { fitness: animal.satiation(), chromosome: animal.as_chromosome() }
    }

    /// The animal with the given eye and pose whose brain is built from
    /// the chromosome of this individual, and that has eaten nothing; or
    /// `None` where the chromosome has fewer or more genes than that brain
    /// takes. Nothing but the brain is inherited.
    pub fn into_animal(self, eye: Eye<T>, pose: Pose<T>) -> (animal: Option<Animal<T>>)
        ensures
            animal is Some <==> 2 * eye.cell_count() <= usize::MAX && self.genes().len()
                == genome_len(eye.cell_count()),
            animal is Some ==> animal->0@ == (AnimalView {
                pose,
                eye,
                brain: decode(brain_topology(eye.cell_count()), self.genes()),
                satiation: 0,
            }) && well_formed(animal->0@),
    {
        Animal::from_chromosome(eye, pose, self.chromosome)
    }
}

} // verus!
