//! The simulation: a world that lives step by step, and whose animals are
//! bred anew when a generation has lived.

use crate::algorithm::{bred, GeneticAlgorithm};
use crate::animal::{
    brain_topology, genome_len, hatched, lemma_well_formed_brain, newborn, well_formed, Animal,
    AnimalView, Pose,
};
use crate::animal_individual::AnimalIndividual;
use crate::crossover::UniformCrossover;
use crate::eye::Eye;
use crate::food::{spawned, Food, Point};
use crate::individual::{
    is_greatest, is_least, lemma_total_at_most, lemma_total_bounds, scores, total, uniform,
    Individual,
};
use crate::mutation::MutationMethod;
use crate::network::{decode, flatten};
use crate::physics::{
    all_collided, all_moved, all_pondered, process_brains, process_collisions, process_movements,
};
use crate::selection::RouletteWheelSelection;
use crate::statistics::Statistics;
use crate::world::{alike, fresh, satiations, World, WorldView};
use rand_chacha::ChaCha8Rng;
use vstd::prelude::*;

verus! {

/// Number of steps that a generation lives.
pub const GENERATION_LENGTH: usize = 2500;

/// Number of animals of a world that is made at random.
pub const ANIMALS: usize = 40;

/// Number of pieces of food of a world that is made at random.
pub const FOODS: usize = 60;

/// The kernels that compute what the simulation does not: whether an
/// animal touches a piece of food; where a piece of food is put; in which
/// cell of an eye a piece of food falls, and with what energy; what an
/// empty cell holds, and how an energy is put on what a cell holds; what a
/// neuron gives; what an animal makes of the answer of its brain; where
/// its pose takes it; and with what pose an animal is born.
pub struct Physics<T, C, P, L, D, F, R, A, H> {
    pub touches: C,
    pub spawn: P,
    pub locate: L,
    pub zero: T,
    pub accumulate: D,
    pub activate: F,
    pub respond: R,
    pub advance: A,
    pub hatch: H,
}

/// How a step has ended.
#[derive(Clone, Copy, Debug)]
pub enum Step {
    /// The generation lives on.
    Lived,
    /// The generation was replaced by its children; these are the
    /// statistics of the generation that went.
    Evolved(Statistics),
    /// The generation has lived its steps, and no animal of it has eaten:
    /// there is nothing to select parents by, and it was not replaced.
    Barren,
}

/// A world, the genetic algorithm that breeds its animals, and the age of
/// the generation that lives in it.
pub struct Simulation<T, M> {
    world: World<T>,
    ga: GeneticAlgorithm<RouletteWheelSelection, UniformCrossover, M>,
    age: usize,
}

/// Whether the kernels take whatever the simulation hands them.
pub open spec fn ready<
    T,
    C: Fn(Point<T>, Point<T>) -> bool,
    P: Fn(&mut ChaCha8Rng) -> Point<T>,
    L: Fn(&Eye<T>, Point<T>, T, Point<T>) -> Option<(usize, T)>,
    D: Fn(T, T) -> T,
    F: Fn(T, &Vec<T>, &Vec<T>) -> T,
    R: Fn(T, T, T, T) -> (T, T),
    A: Fn(Pose<T>) -> Point<T>,
    H: Fn(&mut ChaCha8Rng) -> Pose<T>,
>(physics: Physics<T, C, P, L, D, F, R, A, H>) -> bool {
    &&& forall|animal: Point<T>, food: Point<T>| call_requires(physics.touches, (animal, food))
    &&& forall|rng: &mut ChaCha8Rng| call_requires(physics.spawn, (rng,))
    &&& forall|eye: &Eye<T>, from: Point<T>, heading: T, food: Point<T>|
        call_requires(physics.locate, (eye, from, heading, food))
    &&& forall|held: T, energy: T| call_requires(physics.accumulate, (held, energy))
    &&& forall|bias: T, weights: &Vec<T>, signals: &Vec<T>|
        weights@.len() == signals@.len() ==> call_requires(
            physics.activate,
            (bias, weights, signals),
        )
    &&& forall|speed: T, rotation: T, faster: T, turn: T|
        call_requires(physics.respond, (speed, rotation, faster, turn))
    &&& forall|pose: Pose<T>| call_requires(physics.advance, (pose,))
    &&& forall|rng: &mut ChaCha8Rng| call_requires(physics.hatch, (rng,))
}

/// Whether `population` is `animals` as the genetic algorithm sees them:
/// of each animal, in order, the genes of its brain and its count of
/// meals.
pub open spec fn portrays<T: Copy>(
    population: Seq<AnimalIndividual<T>>,
    animals: Seq<AnimalView<T>>,
) -> bool {
    &&& population.len() == animals.len()
    &&& forall|i: int|
        0 <= i < animals.len() ==> (#[trigger] population[i]).genes() == flatten(animals[i].brain)
            && population[i].score() == animals[i].satiation
}

/// Whether the brain of each of `animals` is read from the chromosome of
/// the one of `offspring` that stands where it stands.
pub open spec fn inherits<T: Copy>(
    offspring: Seq<AnimalIndividual<T>>,
    animals: Seq<AnimalView<T>>,
) -> bool {
    &&& offspring.len() == animals.len()
    &&& forall|k: int|
        0 <= k < animals.len() ==> (#[trigger] animals[k]).brain == decode(
            brain_topology(animals[k].eye.cell_count()),
            offspring[k].genes(),
        )
}

/// Whether `after` is `before` after its generation was replaced: there
/// are as many animals and as much food; every animal has the eye that the
/// animals shared, a pose that `hatch` gave, no meal counted, and a brain
/// that is read from the chromosome of a child that was bred from the old
/// animals, selected by their meals; and every piece of food lies where
/// `spawn` put it.
pub open spec fn evolved<
    T: Copy,
    M: MutationMethod<T>,
    P: Fn(&mut ChaCha8Rng) -> Point<T>,
    H: Fn(&mut ChaCha8Rng) -> Pose<T>,
>(mutation_method: M, spawn: P, hatch: H, before: WorldView<T>, after: WorldView<T>) -> bool {
    &&& after.animals.len() == before.animals.len()
    &&& after.foods.len() == before.foods.len()
    &&& fresh(spawn, hatch, before.animals[0].eye, after)
    &&& exists|population: Seq<AnimalIndividual<T>>, offspring: Seq<AnimalIndividual<T>>|
        #![trigger portrays(population, before.animals), inherits(offspring, after.animals)]
        {
            &&& portrays(population, before.animals)
            &&& inherits(offspring, after.animals)
            &&& forall|k: int|
                0 <= k < offspring.len() ==> bred(
                    RouletteWheelSelection,
                    UniformCrossover,
                    mutation_method,
                    population,
                    #[trigger] offspring[k],
                )
        }
}

/// Whether a step takes the world `before`, at age `age`, to the world
/// `after`, at age `new_age`, and ends as `outcome` says: the collision
/// pass, the brain pass and the movement pass are made in this order; the
/// generation is then one step older; and where it has thereby lived more
/// steps than a generation lives, it is replaced and the age is zero
/// again, unless no animal has eaten.
pub open spec fn stepped<
    T: Copy,
    M: MutationMethod<T>,
    C: Fn(Point<T>, Point<T>) -> bool,
    P: Fn(&mut ChaCha8Rng) -> Point<T>,
    L: Fn(&Eye<T>, Point<T>, T, Point<T>) -> Option<(usize, T)>,
    D: Fn(T, T) -> T,
    F: Fn(T, &Vec<T>, &Vec<T>) -> T,
    R: Fn(T, T, T, T) -> (T, T),
    A: Fn(Pose<T>) -> Point<T>,
    H: Fn(&mut ChaCha8Rng) -> Pose<T>,
>(
    mutation_method: M,
    physics: Physics<T, C, P, L, D, F, R, A, H>,
    before: WorldView<T>,
    age: usize,
    after: WorldView<T>,
    new_age: usize,
    outcome: Step,
) -> bool {
    exists|fed: WorldView<T>, steered: WorldView<T>, moved: WorldView<T>|
        #![trigger
            all_collided(physics.touches, physics.spawn, before, fed),
            all_pondered(
                physics.locate,
                physics.zero,
                physics.accumulate,
                physics.activate,
                physics.respond,
                fed,
                steered,
            ),
            all_moved(physics.advance, steered, moved)]
        {
            &&& all_collided(physics.touches, physics.spawn, before, fed)
            &&& all_pondered(
                physics.locate,
                physics.zero,
                physics.accumulate,
                physics.activate,
                physics.respond,
                fed,
                steered,
            )
            &&& all_moved(physics.advance, steered, moved)
            &&& match outcome {
                Step::Lived => {
                    &&& age + 1 <= GENERATION_LENGTH
                    &&& after == moved
                    &&& new_age == age + 1
                },
                Step::Evolved(stats) => {
                    &&& age + 1 > GENERATION_LENGTH
                    &&& total(satiations(moved.animals)) > 0
                    &&& evolved(mutation_method, physics.spawn, physics.hatch, moved, after)
                    &&& new_age == 0
                    &&& is_least(satiations(moved.animals), stats.min_fitness)
                    &&& is_greatest(satiations(moved.animals), stats.max_fitness)
                    &&& stats.sum_fitness == total(satiations(moved.animals))
                    &&& stats.size == moved.animals.len()
                },
                Step::Barren => {
                    &&& age + 1 > GENERATION_LENGTH
                    &&& total(satiations(moved.animals)) == 0
                    &&& after == moved
                    &&& new_age == age + 1
                },
            }
        }
}

/// A step makes and loses neither animals nor food: the world has as many
/// of both after it as before, whether the generation lives on or is
/// replaced.
pub proof fn lemma_step_keeps_the_sizes<
    T: Copy,
    M: MutationMethod<T>,
    C: Fn(Point<T>, Point<T>) -> bool,
    P: Fn(&mut ChaCha8Rng) -> Point<T>,
    L: Fn(&Eye<T>, Point<T>, T, Point<T>) -> Option<(usize, T)>,
    D: Fn(T, T) -> T,
    F: Fn(T, &Vec<T>, &Vec<T>) -> T,
    R: Fn(T, T, T, T) -> (T, T),
    A: Fn(Pose<T>) -> Point<T>,
    H: Fn(&mut ChaCha8Rng) -> Pose<T>,
>(
    mutation_method: M,
    physics: Physics<T, C, P, L, D, F, R, A, H>,
    before: WorldView<T>,
    age: usize,
    after: WorldView<T>,
    new_age: usize,
    outcome: Step,
)
    requires
        stepped(mutation_method, physics, before, age, after, new_age, outcome),
    ensures
        after.animals.len() == before.animals.len(),
        after.foods.len() == before.foods.len(),
        new_age == 0 || new_age == age + 1,
{
}

impl<T, M> Simulation<T, M> {
    /// What the world is.
    pub closed spec fn world_view(&self) -> WorldView<T> {
        self.world@
    }

    /// Number of steps that the generation has lived.
    pub closed spec fn ticks(&self) -> usize {
        self.age
    }

    /// The way the genetic algorithm mutates.
    pub closed spec fn mutation_method(&self) -> M {
        self.ga.mutation_method()
    }

    /// Whether the generation has lived its steps, and is to be replaced.
    pub open spec fn due(&self) -> bool {
        self.ticks() > GENERATION_LENGTH
    }
}

/// Whether a world at age `age` is sound: its animals are alike; none of
/// them has eaten more often than once per piece of food in each step that
/// the generation has lived; and the meals that all of them can count in a
/// generation fit a `u32`.
pub open spec fn sound<T>(world: WorldView<T>, age: int) -> bool {
    &&& alike(world.animals)
    &&& world.animals.len() * world.foods.len() * (GENERATION_LENGTH + 1) <= u32::MAX
    &&& forall|i: int|
        0 <= i < world.animals.len() ==> (#[trigger] world.animals[i]).satiation <= age
            * world.foods.len()
}

/// In a sound world an animal can eat every piece of food once more, and
/// the meals of all animals sum to what a `u32` holds.
proof fn lemma_sound_bounds<T>(world: WorldView<T>, age: int)
    requires
        sound(world, age),
        0 <= age <= GENERATION_LENGTH + 1,
    ensures
        total(satiations(world.animals)) <= u32::MAX,
        age <= GENERATION_LENGTH ==> forall|i: int|
            0 <= i < world.animals.len() ==> (#[trigger] world.animals[i]).satiation
                + world.foods.len() <= u32::MAX,
{
    let animals = world.animals.len() as int;
    let foods = world.foods.len() as int;
    let most = (GENERATION_LENGTH + 1) * foods;
    assert(age * foods <= most) by (nonlinear_arith)
        requires
            0 <= age <= GENERATION_LENGTH + 1,
            0 <= foods,
            most == (GENERATION_LENGTH + 1) * foods,
    ;
    assert(animals * most == animals * foods * (GENERATION_LENGTH + 1)) by (nonlinear_arith)
        requires
            most == (GENERATION_LENGTH + 1) * foods,
    ;
    let all = satiations(world.animals);
    assert forall|i: int| 0 <= i < all.len() implies #[trigger] all[i] <= most by {
        assert(world.animals[i].satiation <= age * foods);
    }
    lemma_total_at_most(all, most);
    if age <= GENERATION_LENGTH {
        assert forall|i: int| 0 <= i < world.animals.len() implies (
        #[trigger] world.animals[i]).satiation + world.foods.len() <= u32::MAX by {
            assert(age * foods + foods <= most) by (nonlinear_arith)
                requires
                    0 <= age <= GENERATION_LENGTH,
                    0 <= foods,
                    most == (GENERATION_LENGTH + 1) * foods,
            ;
            assert(most <= animals * most) by (nonlinear_arith)
                requires
                    1 <= animals,
                    0 <= most,
            ;
        }
    }
}

impl<T: Copy, M: MutationMethod<T>> Simulation<T, M> {
    /// Whether the simulation is well formed: its world is sound at its
    /// age, its mutation can be used, and its generation has lived at most
    /// one step more than a generation lives.
    pub open spec fn well_formed(&self) -> bool {
        &&& sound(self.world_view(), self.ticks() as int)
        &&& self.mutation_method().ready()
        &&& self.ticks() <= GENERATION_LENGTH + 1
    }

    /// The simulation of `world` at age zero, whose genetic algorithm
    /// selects by roulette wheel, crosses uniformly and mutates by
    /// `mutation_method`.
    pub fn new(world: World<T>, mutation_method: M) -> (simulation: Self)
        requires
            sound(world@, 0),
            mutation_method.ready(),
        ensures
            simulation.world_view() == world@,
            simulation.mutation_method() == mutation_method,
            simulation.ticks() == 0,
            simulation.well_formed(),
    {
        Simulation {
            world,
            ga: GeneticAlgorithm::new(RouletteWheelSelection, UniformCrossover, mutation_method),
            age: 0,
        }
    }

    /// The simulation, at age zero, of a world that is made at random, with
    /// `ANIMALS` animals and `FOODS` pieces of food; its genetic algorithm
    /// selects by roulette wheel, crosses uniformly and mutates by
    /// `mutation_method`.
    pub fn random<
        G: Fn(&mut ChaCha8Rng) -> T,
        H: Fn(&mut ChaCha8Rng) -> Pose<T>,
        P: Fn(&mut ChaCha8Rng) -> Point<T>,
    >(
        rng: &mut ChaCha8Rng,
        mutation_method: M,
        eye: Eye<T>,
        draw: &G,
        hatch: &H,
        spawn: &P,
    ) -> (simulation: Self)
        requires
            mutation_method.ready(),
            2 * eye.cell_count() <= usize::MAX,
            genome_len(eye.cell_count()) <= usize::MAX,
            forall|r: &mut ChaCha8Rng| call_requires(*draw, (r,)),
            forall|r: &mut ChaCha8Rng| call_requires(*hatch, (r,)),
            forall|r: &mut ChaCha8Rng| call_requires(*spawn, (r,)),
        ensures
            simulation.well_formed(),
            simulation.mutation_method() == mutation_method,
            simulation.ticks() == 0,
            simulation.world_view().animals.len() == ANIMALS,
            simulation.world_view().foods.len() == FOODS,
            fresh(*spawn, *hatch, eye, simulation.world_view()),
    {
        let world = World::random(rng, eye, ANIMALS, FOODS, draw, hatch, spawn);
        Self::new(world, mutation_method)
    }

    /// The world.
    pub fn world(&self) -> (world: &World<T>)
        ensures
            world@ == self.world_view(),
    {
        &self.world
    }

    /// Number of steps that the generation has lived.
    pub fn age(&self) -> (age: usize)
        ensures
            age == self.ticks(),
    {
        self.age
    }

    /// How often the animals have eaten, all together, or `None` where
    /// that does not fit a `u32`.
    pub fn total_satiation(&self) -> (sum: Option<u32>)
        ensures
            match sum {
                Some(n) => n == total(satiations(self.world_view().animals)),
                None => total(satiations(self.world_view().animals)) > u32::MAX,
            },
    {
        let animals = self.world.animals();
        let ghost meals = satiations(self.world_view().animals);
        let mut sum: u32 = 0;
        let mut i: usize = 0;
        while i < animals.len()
            invariant
                0 <= i <= animals@.len(),
                meals == satiations(self.world_view().animals),
                animals@.len() == meals.len(),
                forall|k: int|
                    0 <= k < animals@.len() ==> (#[trigger] animals@[k])@.satiation == meals[k],
                sum == total(meals.take(i as int)),
            decreases animals@.len() - i,
        {
            let satiation: u32 = animals[i].satiation();
            proof {
                assert(meals.take(i + 1).drop_last() =~= meals.take(i as int));
                assert(meals.take(i + 1).last() == satiation);
                lemma_total_bounds(meals, i + 1);
            }
            sum = match sum.checked_add(satiation) {
                Some(more) => more,
                None => {
                    return None;
                },
            };
            i += 1;
        }
        proof {
            assert(meals.take(meals.len() as int) =~= meals);
        }
        Some(sum)
    }

    /// The animals as the genetic algorithm sees them, in order: of each
    /// the genes of its brain and its count of meals.
    fn snapshot(&self) -> (population: Vec<AnimalIndividual<T>>)
        ensures
            portrays(population@, self.world_view().animals),
            scores(population@) == satiations(self.world_view().animals),
    {
        let animals = self.world.animals();
        let mut population: Vec<AnimalIndividual<T>> = Vec::new();
        let mut i: usize = 0;
        while i < animals.len()
            invariant
                0 <= i <= animals@.len(),
                animals@.len() == self.world_view().animals.len(),
                forall|k: int|
                    0 <= k < animals@.len() ==> (#[trigger] animals@[k])@
                        == self.world_view().animals[k],
                population@.len() == i,
                forall|k: int|
                    0 <= k < i ==> (#[trigger] population@[k]).score()
                        == self.world_view().animals[k].satiation,
                forall|k: int|
                    0 <= k < i ==> (#[trigger] population@[k]).genes() == flatten(
                        self.world_view().animals[k].brain,
                    ),
            decreases animals@.len() - i,
        {
            population.push(AnimalIndividual::from_animal(&animals[i]));
            i += 1;
        }
        proof {
            assert(scores(population@) =~= satiations(self.world_view().animals));
        }
        population
    }

    /// Replaces the generation. Every animal is seen as an individual, with
    /// the genes of its brain and its count of meals, and the genetic
    /// algorithm makes as many children of them as there are animals. Then
    /// `hatch` gives a pose for each child, in order, and `spawn` a place
    /// for each piece of food, in order. The animals give way to the
    /// children, each with the eye that the animals shared, a brain that is
    /// read from its chromosome, and no meal counted; and the age is zero
    /// again. Returns the statistics of the animals that went.
    pub fn evolve<P: Fn(&mut ChaCha8Rng) -> Point<T>, H: Fn(&mut ChaCha8Rng) -> Pose<T>>(
        &mut self,
        rng: &mut ChaCha8Rng,
        spawn: &P,
        hatch: &H,
    ) -> (stats: Statistics)
        requires
            old(self).well_formed(),
            total(satiations(old(self).world_view().animals)) > 0,
            forall|r: &mut ChaCha8Rng| call_requires(*spawn, (r,)),
            forall|r: &mut ChaCha8Rng| call_requires(*hatch, (r,)),
        ensures
            final(self).well_formed(),
            final(self).mutation_method() == old(self).mutation_method(),
            final(self).ticks() == 0,
            evolved(
                old(self).mutation_method(),
                *spawn,
                *hatch,
                old(self).world_view(),
                final(self).world_view(),
            ),
            is_least(satiations(old(self).world_view().animals), stats.min_fitness),
            is_greatest(satiations(old(self).world_view().animals), stats.max_fitness),
            stats.sum_fitness == total(satiations(old(self).world_view().animals)),
            stats.size == old(self).world_view().animals.len(),
    {
        let ghost before = self.world_view();
        let population = self.snapshot();
        proof {
            lemma_sound_bounds(before, self.ticks() as int);
            assert(before.animals.len() > 0) by {
                if before.animals.len() == 0 {
                    assert(satiations(before.animals) =~= Seq::<u32>::empty());
                }
            }
            assert forall|i: int| 0 <= i < population@.len() implies (
            #[trigger] population@[i]).genes().len() == genome_len(
                before.animals[0].eye.cell_count(),
            ) by {
                lemma_well_formed_brain(before.animals[i]);
            }
        }
        let (children, stats) = self.ga.evolve(rng, population.as_slice());
        let ghost offspring = children@;
        let eye: Eye<T> = *self.world.animals()[0].eye();
        let animals: usize = children.len();
        let foods: usize = self.world.foods().len();

        let mut poses: Vec<Pose<T>> = Vec::new();
        let mut i: usize = 0;
        while i < animals
            invariant
                0 <= i <= animals,
                poses@.len() == i,
                forall|r: &mut ChaCha8Rng| call_requires(*hatch, (r,)),
                forall|k: int| 0 <= k < i ==> hatched(*hatch, #[trigger] poses@[k]),
            decreases animals - i,
        {
            let pose = hatch(rng);
            proof {
                assert(hatched(*hatch, pose));
            }
            poses.push(pose);
            i += 1;
        }

        let mut places: Vec<Food<T>> = Vec::new();
        let mut j: usize = 0;
        while j < foods
            invariant
                0 <= j <= foods,
                places@.len() == j,
                forall|r: &mut ChaCha8Rng| call_requires(*spawn, (r,)),
                forall|k: int| 0 <= k < j ==> spawned(*spawn, (#[trigger] places@[k])@),
            decreases foods - j,
        {
            let place = spawn(rng);
            proof {
                assert(spawned(*spawn, place));
            }
            places.push(Food::new(place));
            j += 1;
        }

        let mut rest = children;
        let mut stack: Vec<Animal<T>> = Vec::new();
        while rest.len() > 0
            invariant
                animals == children@.len() == poses@.len(),
                2 * eye.cell_count() <= usize::MAX,
                uniform(children@, genome_len(eye.cell_count())),
                rest@ == children@.take(rest@.len() as int),
                rest@.len() + stack@.len() == animals,
                forall|k: int|
                    0 <= k < stack@.len() ==> {
                        let animal = (#[trigger] stack@[k])@;
                        &&& animal.satiation == 0
                        &&& animal.eye == eye
                        &&& well_formed(animal)
                        &&& animal.pose == poses@[animals - 1 - k]
                        &&& animal.brain == decode(
                            brain_topology(eye.cell_count()),
                            children@[animals - 1 - k].genes(),
                        )
                    },
            decreases rest@.len(),
        {
            let at: usize = rest.len() - 1;
            let individual = rest.pop().unwrap();
            assert(individual == children@[at as int]);
            match individual.into_animal(eye, poses[at]) {
                Some(animal) => {
                    let ghost built = stack@;
                    stack.push(animal);
                    assert forall|k: int| 0 <= k < stack@.len() implies {
                        let animal = (#[trigger] stack@[k])@;
                        &&& animal.satiation == 0
                        &&& animal.eye == eye
                        &&& well_formed(animal)
                        &&& animal.pose == poses@[animals - 1 - k]
                        &&& animal.brain == decode(
                            brain_topology(eye.cell_count()),
                            children@[animals - 1 - k].genes(),
                        )
                    } by {
                        if k < built.len() {
                            assert(stack@[k] == built[k]);
                        }
                    }
                },
                None => {
                    assert(false);
                },
            }
        }
        let mut born: Vec<Animal<T>> = Vec::new();
        while stack.len() > 0
            invariant
                stack@.len() + born@.len() == animals == poses@.len(),
                offspring == children@,
                forall|k: int|
                    0 <= k < stack@.len() ==> {
                        let animal = (#[trigger] stack@[k])@;
                        &&& animal.satiation == 0
                        &&& animal.eye == eye
                        &&& well_formed(animal)
                        &&& animal.pose == poses@[animals - 1 - k]
                        &&& animal.brain == decode(
                            brain_topology(eye.cell_count()),
                            children@[animals - 1 - k].genes(),
                        )
                    },
                forall|k: int|
                    0 <= k < born@.len() ==> {
                        let animal = (#[trigger] born@[k])@;
                        &&& animal.satiation == 0
                        &&& animal.eye == eye
                        &&& well_formed(animal)
                        &&& animal.pose == poses@[k]
                        &&& animal.brain == decode(
                            brain_topology(eye.cell_count()),
                            offspring[k].genes(),
                        )
                    },
            decreases stack@.len(),
        {
            let animal = stack.pop().unwrap();
            born.push(animal);
        }
        self.world = World::new(born, places);
        self.age = 0;
        proof {
            let after = self.world_view();
            assert forall|i: int| 0 <= i < after.animals.len() implies newborn(
                *hatch,
                before.animals[0].eye,
                #[trigger] after.animals[i],
            ) by {
                assert(after.animals[i] == born@[i]@);
            }
            assert forall|j: int| 0 <= j < after.foods.len() implies spawned(
                *spawn,
                #[trigger] after.foods[j],
            ) by {
                assert(after.foods[j] == places@[j]@);
            }
            assert(after.animals.len() * after.foods.len() * (GENERATION_LENGTH + 1)
                == before.animals.len() * before.foods.len() * (GENERATION_LENGTH + 1));
            assert(inherits(offspring, after.animals)) by {
                assert forall|k: int| 0 <= k < after.animals.len() implies (
                #[trigger] after.animals[k]).brain == decode(
                    brain_topology(after.animals[k].eye.cell_count()),
                    offspring[k].genes(),
                ) by {
                    assert(after.animals[k] == born@[k]@);
                }
            }
            assert(portrays(population@, before.animals));
        }
        stats
    }

    /// One step of the simulation: the collision pass, the brain pass and
    /// the movement pass, in this order; then the generation is one step
    /// older, and where it has thereby lived more steps than a generation
    /// lives, it is replaced. Where no animal of it has eaten, there is
    /// nothing to select parents by: the generation stays, and no further
    /// step can be made.
    pub fn step<
        C: Fn(Point<T>, Point<T>) -> bool,
        P: Fn(&mut ChaCha8Rng) -> Point<T>,
        L: Fn(&Eye<T>, Point<T>, T, Point<T>) -> Option<(usize, T)>,
        D: Fn(T, T) -> T,
        F: Fn(T, &Vec<T>, &Vec<T>) -> T,
        R: Fn(T, T, T, T) -> (T, T),
        A: Fn(Pose<T>) -> Point<T>,
        H: Fn(&mut ChaCha8Rng) -> Pose<T>,
    >(&mut self, rng: &mut ChaCha8Rng, physics: &Physics<T, C, P, L, D, F, R, A, H>) -> (outcome:
        Step)
        requires
            old(self).well_formed(),
            !old(self).due(),
            ready(*physics),
        ensures
            final(self).well_formed(),
            final(self).mutation_method() == old(self).mutation_method(),
            stepped(
                old(self).mutation_method(),
                *physics,
                old(self).world_view(),
                old(self).ticks(),
                final(self).world_view(),
                final(self).ticks(),
                outcome,
            ),
            outcome is Barren <==> final(self).due(),
    {
        let ghost before = self.world_view();
        proof {
            lemma_sound_bounds(before, self.ticks() as int);
        }
        process_collisions(&mut self.world, rng, &physics.touches, &physics.spawn);
        let ghost fed = self.world_view();
        proof {
            assert(alike(fed.animals));
        }
        process_brains(
            &mut self.world,
            &physics.locate,
            physics.zero,
            &physics.accumulate,
            &physics.activate,
            &physics.respond,
        );
        let ghost steered = self.world_view();
        proof {
            assert(alike(steered.animals));
        }
        process_movements(&mut self.world, &physics.advance);
        let ghost moved = self.world_view();
        self.age = self.age + 1;
        proof {
            assert(sound(moved, self.ticks() as int)) by {
                assert(alike(moved.animals));
                assert forall|i: int| 0 <= i < moved.animals.len() implies (
                #[trigger] moved.animals[i]).satiation <= self.ticks() * moved.foods.len() by {
                    assert(moved.animals[i].satiation == steered.animals[i].satiation);
                    assert(steered.animals[i].satiation == fed.animals[i].satiation);
                    assert(fed.animals[i].satiation <= before.animals[i].satiation
                        + before.foods.len());
                    let lived = old(self).ticks() as int;
                    let foods = before.foods.len() as int;
                    assert((lived + 1) * foods == lived * foods + foods) by (nonlinear_arith);
                }
            }
            lemma_sound_bounds(moved, self.ticks() as int);
        }
        if self.age <= GENERATION_LENGTH {
            return Step::Lived;
        }
        match self.total_satiation() {
            Some(meals) => {
                if meals == 0 {
                    Step::Barren
                } else {
                    let stats = self.evolve(rng, &physics.spawn, &physics.hatch);
                    Step::Evolved(stats)
                }
            },
            None => {
                assert(false);
                Step::Barren
            },
        }
    }
}

} // verus!
