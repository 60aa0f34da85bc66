//! The world: the animals and the food in it.

use crate::animal::{genome_len, newborn, well_formed, Animal, AnimalView, Pose};
use crate::eye::Eye;
use crate::food::{spawned, Food, Point};
use rand_chacha::ChaCha8Rng;
use vstd::prelude::*;

verus! {

/// What a world is: its animals and where its food lies, both in order.
pub struct WorldView<T> {
    pub animals: Seq<AnimalView<T>>,
    pub foods: Seq<Point<T>>,
}

/// The world.
pub struct World<T> {
    animals: Vec<Animal<T>>,
    foods: Vec<Food<T>>,
}

impl<T> View for World<T> {
    type V = WorldView<T>;

    closed spec fn view(&self) -> WorldView<T> {
        WorldView {
            animals: Seq::new(self.animals@.len(), |i: int| self.animals@[i]@),
            foods: Seq::new(self.foods@.len(), |j: int| self.foods@[j]@),
        }
    }
}

/// Whether the animals are well formed and share one eye, so that one
/// genetic algorithm can breed them.
pub open spec fn alike<T>(animals: Seq<AnimalView<T>>) -> bool {
    forall|i: int|
        0 <= i < animals.len() ==> well_formed(#[trigger] animals[i]) && animals[i].eye
            == animals[0].eye
}

/// Whether `world` is as a world is made: every animal is newborn with
/// the eye `eye`, and every piece of food lies where `spawn` put it.
pub open spec fn fresh<T, P: Fn(&mut ChaCha8Rng) -> Point<T>, H: Fn(&mut ChaCha8Rng) -> Pose<T>>(
    spawn: P,
    hatch: H,
    eye: Eye<T>,
    world: WorldView<T>,
) -> bool {
    &&& forall|i: int|
        0 <= i < world.animals.len() ==> newborn(hatch, eye, #[trigger] world.animals[i])
    &&& forall|j: int| 0 <= j < world.foods.len() ==> spawned(spawn, #[trigger] world.foods[j])
}

/// How often each of the animals has eaten, in order.
pub open spec fn satiations<T>(animals: Seq<AnimalView<T>>) -> Seq<u32> {
    Seq::new(animals.len(), |i: int| animals[i].satiation)
}

impl<T: Copy> World<T> {
    /// The world of the given animals and food.
    pub fn new(animals: Vec<Animal<T>>, foods: Vec<Food<T>>) -> (world: Self)
        ensures
            world@.animals.len() == animals@.len(),
            world@.foods.len() == foods@.len(),
            forall|i: int| 0 <= i < animals@.len() ==> #[trigger] world@.animals[i] == animals@[i]@,
            forall|j: int| 0 <= j < foods@.len() ==> #[trigger] world@.foods[j] == foods@[j]@,
    {
        World { animals, foods }
    }

    /// A world of `animals` animals and `foods` pieces of food. First the
    /// animals are made, one after the other, each with the eye `eye`,
    /// genes that `draw` gives and a pose that `hatch` gives; then the
    /// food is put, piece by piece, where `spawn` says.
    pub fn random<
        G: Fn(&mut ChaCha8Rng) -> T,
        H: Fn(&mut ChaCha8Rng) -> Pose<T>,
        P: Fn(&mut ChaCha8Rng) -> Point<T>,
    >(
        rng: &mut ChaCha8Rng,
        eye: Eye<T>,
        animals: usize,
        foods: usize,
        draw: &G,
        hatch: &H,
        spawn: &P,
    ) -> (world: Self)
        requires
            2 * eye.cell_count() <= usize::MAX,
            genome_len(eye.cell_count()) <= usize::MAX,
            forall|r: &mut ChaCha8Rng| call_requires(*draw, (r,)),
            forall|r: &mut ChaCha8Rng| call_requires(*hatch, (r,)),
            forall|r: &mut ChaCha8Rng| call_requires(*spawn, (r,)),
        ensures
            world@.animals.len() == animals,
            world@.foods.len() == foods,
            fresh(*spawn, *hatch, eye, world@),
    {
        let mut herd: Vec<Animal<T>> = Vec::new();
        let mut i: usize = 0;
        while i < animals
            invariant
                0 <= i <= animals,
                herd@.len() == i,
                2 * eye.cell_count() <= usize::MAX,
                genome_len(eye.cell_count()) <= usize::MAX,
                forall|r: &mut ChaCha8Rng| call_requires(*draw, (r,)),
                forall|r: &mut ChaCha8Rng| call_requires(*hatch, (r,)),
                forall|k: int| 0 <= k < i ==> newborn(*hatch, eye, (#[trigger] herd@[k])@),
            decreases animals - i,
        {
            herd.push(Animal::random(rng, eye, draw, hatch));
            i += 1;
        }
        let mut places: Vec<Food<T>> = Vec::new();
        let mut j: usize = 0;
        while j < foods
            invariant
                0 <= j <= foods,
                places@.len() == j,
                forall|r: &mut ChaCha8Rng| call_requires(*spawn, (r,)),
                forall|k: int| 0 <= k < j ==> spawned(*spawn, (#[trigger] places@[k])@),
            decreases foods - j,
        {
            let place = spawn(rng);
            proof {
                assert(spawned(*spawn, place));
            }
            places.push(Food::new(place));
            j += 1;
        }
        let world = World { animals: herd, foods: places };
        proof {
            assert forall|i: int| 0 <= i < world@.animals.len() implies newborn(
                *hatch,
                eye,
                #[trigger] world@.animals[i],
            ) by {
                assert(world@.animals[i] == herd@[i]@);
            }
            assert forall|j: int| 0 <= j < world@.foods.len() implies spawned(
                *spawn,
                #[trigger] world@.foods[j],
            ) by {
                assert(world@.foods[j] == places@[j]@);
            }
        }
        world
    }

    /// The animals, in order.
    pub fn animals(&self) -> (animals: &[Animal<T>])
        ensures
            animals@.len() == self@.animals.len(),
            forall|i: int| 0 <= i < animals@.len() ==> (#[trigger] animals@[i])@ == self@.animals[i],
    {
        self.animals.as_slice()
    }

    /// The food, in order.
    pub fn foods(&self) -> (foods: &[Food<T>])
        ensures
            foods@.len() == self@.foods.len(),
            forall|j: int| 0 <= j < foods@.len() ==> (#[trigger] foods@[j])@ == self@.foods[j],
    {
        self.foods.as_slice()
    }

    /// Animal `animal` eats food `food`: it counts one more meal, and the
    /// food is put at `respawn`. Nothing else changes.
    pub fn feed(&mut self, animal: usize, food: usize, respawn: Point<T>)
        requires
            animal < old(self)@.animals.len(),
            food < old(self)@.foods.len(),
            old(self)@.animals[animal as int].satiation < u32::MAX,
        ensures
            final(self)@ == (WorldView {
                animals: old(self)@.animals.update(
                    animal as int,
                    AnimalView {
                        satiation: (old(self)@.animals[animal as int].satiation + 1) as u32,
                        ..old(self)@.animals[animal as int]
                    },
                ),
                foods: old(self)@.foods.update(food as int, respawn),
            }),
    {
        self.animals[animal].eat();
        self.foods[food] = Food::new(respawn);
        proof {
            assert(self@.animals =~= old(self)@.animals.update(
                animal as int,
                AnimalView {
                    satiation: (old(self)@.animals[animal as int].satiation + 1) as u32,
                    ..old(self)@.animals[animal as int]
                },
            ));
            assert(self@.foods =~= old(self)@.foods.update(food as int, respawn));
        }
    }

    /// Animal `animal` takes a new speed and a new rotation. Nothing else
    /// changes.
    pub fn steer(&mut self, animal: usize, speed: T, rotation: T)
        requires
            animal < old(self)@.animals.len(),
        ensures
            final(self)@ == (WorldView {
                animals: old(self)@.animals.update(
                    animal as int,
                    AnimalView {
                        pose: Pose {
                            position: old(self)@.animals[animal as int].pose.position,
                            rotation,
                            speed,
                        },
                        ..old(self)@.animals[animal as int]
                    },
                ),
                foods: old(self)@.foods,
            }),
    {
        self.animals[animal].steer(speed, rotation);
        proof {
            assert(self@.animals =~= old(self)@.animals.update(
                animal as int,
                AnimalView {
                    pose: Pose {
                        position: old(self)@.animals[animal as int].pose.position,
                        rotation,
                        speed,
                    },
                    ..old(self)@.animals[animal as int]
                },
            ));
            assert(self@.foods =~= old(self)@.foods);
        }
    }

    /// Animal `animal` is put at `position`. Nothing else changes.
    pub fn relocate(&mut self, animal: usize, position: Point<T>)
        requires
            animal < old(self)@.animals.len(),
        ensures
            final(self)@ == (WorldView {
                animals: old(self)@.animals.update(
                    animal as int,
                    AnimalView {
                        pose: Pose {
                            position,
                            rotation: old(self)@.animals[animal as int].pose.rotation,
                            speed: old(self)@.animals[animal as int].pose.speed,
                        },
                        ..old(self)@.animals[animal as int]
                    },
                ),
                foods: old(self)@.foods,
            }),
    {
        self.animals[animal].relocate(position);
        proof {
            assert(self@.animals =~= old(self)@.animals.update(
                animal as int,
                AnimalView {
                    pose: Pose {
                        position,
                        rotation: old(self)@.animals[animal as int].pose.rotation,
                        speed: old(self)@.animals[animal as int].pose.speed,
                    },
                    ..old(self)@.animals[animal as int]
                },
            ));
            assert(self@.foods =~= old(self)@.foods);
        }
    }
}

} // verus!
