use nalgebra as na;
use neuroevolution::animal::{Animal, Pose};
use neuroevolution::animal_individual::AnimalIndividual;
use neuroevolution::chromosome::Chromosome;
use neuroevolution::eye::Eye;
use neuroevolution::food::{Food, Point};
use neuroevolution::individual::Individual;
use neuroevolution::mutation::GaussianMutation;
use neuroevolution::network::Network;
use neuroevolution::physics::{process_brains, process_collisions, process_movements};
use neuroevolution::simulation::{Physics, Simulation, Step, ANIMALS, FOODS, GENERATION_LENGTH};
use neuroevolution::world::World;
use rand::{Rng, SeedableRng};
use rand_chacha::ChaCha8Rng;
use std::f32::consts::{FRAC_PI_2, FRAC_PI_4, PI};

const SPEED_MIN: f32 = 0.001;
const SPEED_MAX: f32 = 0.005;
const SPEED_ACCEL: f32 = 0.2;
const ROTATION_ACCEL: f32 = FRAC_PI_2;

type Nudge = fn(&mut ChaCha8Rng, f32, bool) -> f32;

type Kernels = Physics<
    f32,
    fn(Point<f32>, Point<f32>) -> bool,
    fn(&mut ChaCha8Rng) -> Point<f32>,
    fn(&Eye<f32>, Point<f32>, f32, Point<f32>) -> Option<(usize, f32)>,
    fn(f32, f32) -> f32,
    fn(f32, &Vec<f32>, &Vec<f32>) -> f32,
    fn(f32, f32, f32, f32) -> (f32, f32),
    fn(Pose<f32>) -> Point<f32>,
    fn(&mut ChaCha8Rng) -> Pose<f32>,
>;

fn touches(animal: Point<f32>, food: Point<f32>) -> bool {
    let distance = na::distance(
        &na::Point2::new(animal.x, animal.y),
        &na::Point2::new(food.x, food.y),
    );

    distance <= 0.01
}

fn spawn(rng: &mut ChaCha8Rng) -> Point<f32> {
    let point: na::Point2<f32> = rng.gen();

    Point {
        x: point.x,
        y: point.y,
    }
}

fn hatch(rng: &mut ChaCha8Rng) -> Pose<f32> {
    let position = spawn(rng);
    let rotation: na::Rotation2<f32> = rng.gen();

    Pose {
        position,
        rotation: rotation.angle(),
        speed: 0.002,
    }
}

fn locate(
    eye: &Eye<f32>,
    position: Point<f32>,
    rotation: f32,
    food: Point<f32>,
) -> Option<(usize, f32)> {
    let fov_range = eye.fov_range();
    let fov_angle = eye.fov_angle();

    let vec = na::Point2::new(food.x, food.y) - na::Point2::new(position.x, position.y);
    let dist = vec.norm();

    if dist >= fov_range {
        return None;
    }

    let angle = na::Rotation2::rotation_between(&na::Vector2::y(), &vec).angle();
    let angle = angle - na::Rotation2::new(rotation).angle();
    let angle = na::wrap(angle, -PI, PI);

    if angle < -fov_angle / 2.0 || angle > fov_angle / 2.0 {
        return None;
    }

    let angle = angle + fov_angle / 2.0;
    let cell = angle / fov_angle;
    let cell = cell * (eye.cells() as f32);
    let energy = (fov_range - dist) / fov_range;

    Some((cell as usize, energy))
}

fn accumulate(held: f32, energy: f32) -> f32 {
    held + energy
}

fn relu(bias: f32, weights: &Vec<f32>, inputs: &Vec<f32>) -> f32 {
    assert_eq!(inputs.len(), weights.len());

    let output = inputs
        .iter()
        .zip(weights)
        .map(|(input, weight)| input * weight)
        .sum::<f32>();

    (bias + output).max(0.0)
}

fn respond(speed: f32, rotation: f32, faster: f32, turn: f32) -> (f32, f32) {
    let faster = faster.clamp(-SPEED_ACCEL, SPEED_ACCEL);
    let turn = turn.clamp(-ROTATION_ACCEL, ROTATION_ACCEL);

    let speed = (speed + faster).clamp(SPEED_MIN, SPEED_MAX);
    let rotation = na::Rotation2::new(rotation).angle() + turn;

    (speed, rotation)
}

fn advance(pose: Pose<f32>) -> Point<f32> {
    let mut position = na::Point2::new(pose.position.x, pose.position.y);

    position += na::Rotation2::new(pose.rotation) * na::Vector2::new(0.0, pose.speed);

    Point {
        x: na::wrap(position.x, 0.0, 1.0),
        y: na::wrap(position.y, 0.0, 1.0),
    }
}

fn draw(rng: &mut ChaCha8Rng) -> f32 {
    rng.gen_range(-1.0..=1.0)
}

fn nudge(rng: &mut ChaCha8Rng, gene: f32, negative: bool) -> f32 {
    let sign = if negative { -1.0 } else { 1.0 };

    gene + sign * 0.3 * rng.gen::<f32>()
}

fn physics() -> Kernels {
    Physics {
        touches,
        spawn,
        locate,
        zero: 0.0,
        accumulate,
        activate: relu,
        respond,
        advance,
        hatch,
    }
}

fn eye() -> Eye<f32> {
    Eye::new(0.25, PI + FRAC_PI_4, 9)
}

fn simulation(rng: &mut ChaCha8Rng) -> Simulation<f32, GaussianMutation<Nudge>> {
    Simulation::random(
        rng,
        // 0.01 as a single-precision number
        GaussianMutation::new(10_737_418, 1 << 30, nudge as Nudge),
        eye(),
        &draw,
        &hatch,
        &spawn,
    )
}

/// An animal at the given pose whose brain gives nothing, whatever it sees.
fn still_animal(x: f32, y: f32, rotation: f32, speed: f32) -> Animal<f32> {
    let eye = Eye::new(0.25, PI, 1);
    let genes = vec![0.0; 2 * (1 + 1) + 2 * (2 + 1)];
    let pose = Pose {
        position: Point { x, y },
        rotation,
        speed,
    };

    Animal::from_chromosome(eye, pose, Chromosome::new(genes)).expect("six genes make a brain")
}

fn places(world: &World<f32>) -> Vec<(f32, f32, f32, f32, u32)> {
    world
        .animals()
        .iter()
        .map(|animal| {
            (
                animal.position().x,
                animal.position().y,
                animal.rotation(),
                animal.speed(),
                animal.satiation(),
            )
        })
        .collect()
}

fn foods(world: &World<f32>) -> Vec<(f32, f32)> {
    world
        .foods()
        .iter()
        .map(|food| (food.position().x, food.position().y))
        .collect()
}

#[test]
fn a_world_made_at_random_has_its_animals_and_its_food() {
    let mut rng = ChaCha8Rng::from_seed(Default::default());
    let simulation = simulation(&mut rng);

    assert_eq!(simulation.age(), 0);
    assert_eq!(simulation.world().animals().len(), ANIMALS);
    assert_eq!(simulation.world().foods().len(), FOODS);
    for animal in simulation.world().animals() {
        assert_eq!(animal.satiation(), 0);
        assert_eq!(animal.speed(), 0.002);
        assert_eq!(animal.eye().cells(), 9);
        assert_eq!(animal.brain().weights().len(), 18 * (9 + 1) + 2 * (18 + 1));
        assert!((0.0..1.0).contains(&animal.position().x));
        assert!((0.0..1.0).contains(&animal.position().y));
    }
}

#[test]
fn an_animal_made_at_random_draws_its_brain_and_then_its_pose() {
    let mut rng = ChaCha8Rng::from_seed(Default::default());
    let animal = Animal::random(&mut rng, eye(), &draw, &hatch);

    let mut rng = ChaCha8Rng::from_seed(Default::default());
    let genes: Vec<f32> = (0..218).map(|_| rng.gen_range(-1.0..=1.0)).collect();
    let position: na::Point2<f32> = rng.gen();
    let rotation: na::Rotation2<f32> = rng.gen();

    assert_eq!(animal.as_chromosome().into_vec(), genes);
    assert_eq!(animal.position().x, position.x);
    assert_eq!(animal.position().y, position.y);
    assert_eq!(animal.rotation(), rotation.angle());
    assert_eq!(animal.pose().speed, 0.002);
}

#[test]
fn a_step_makes_the_generation_one_step_older() {
    let mut rng = ChaCha8Rng::from_seed(Default::default());
    let mut simulation = simulation(&mut rng);
    let physics = physics();

    for age in 1..=10 {
        let outcome = simulation.step(&mut rng, &physics);

        assert!(matches!(outcome, Step::Lived));
        assert_eq!(simulation.age(), age);
        assert_eq!(simulation.world().animals().len(), ANIMALS);
        assert_eq!(simulation.world().foods().len(), FOODS);
    }
}

#[test]
fn steps_are_reproducible_from_the_seed() {
    let run = || {
        let mut rng = ChaCha8Rng::from_seed([7; 32]);
        let mut simulation = simulation(&mut rng);
        let physics = physics();
        let mut states = Vec::new();

        for _ in 0..200 {
            simulation.step(&mut rng, &physics);
            states.push((places(simulation.world()), foods(simulation.world())));
        }

        states
    };

    assert_eq!(run(), run());
}

#[test]
fn a_generation_is_replaced_when_it_has_lived_its_steps() {
    let mut rng = ChaCha8Rng::from_seed(Default::default());
    let mut simulation = simulation(&mut rng);
    let physics = physics();

    for _ in 0..GENERATION_LENGTH {
        assert!(matches!(simulation.step(&mut rng, &physics), Step::Lived));
    }
    assert_eq!(simulation.age(), GENERATION_LENGTH);

    let meals: Vec<u32> = {
        // what the last step of the generation will add is counted below
        simulation
            .world()
            .animals()
            .iter()
            .map(|animal| animal.satiation())
            .collect()
    };
    assert!(meals.iter().sum::<u32>() > 0);

    match simulation.step(&mut rng, &physics) {
        Step::Evolved(stats) => {
            assert_eq!(stats.size, ANIMALS);
            assert!(stats.min_fitness <= stats.max_fitness);
            assert!(stats.sum_fitness >= meals.iter().sum::<u32>() as u128);
            assert!(stats.max_fitness >= *meals.iter().max().unwrap());
        }
        outcome => panic!("the generation was not replaced: {:?}", outcome),
    }

    assert_eq!(simulation.age(), 0);
    assert_eq!(simulation.world().animals().len(), ANIMALS);
    assert_eq!(simulation.world().foods().len(), FOODS);
    for animal in simulation.world().animals() {
        assert_eq!(animal.satiation(), 0);
        assert_eq!(animal.speed(), 0.002);
        assert_eq!(animal.brain().weights().len(), 218);
    }
}

#[test]
fn a_generation_that_has_not_eaten_is_not_replaced() {
    let mut rng = ChaCha8Rng::from_seed(Default::default());
    let mut simulation = simulation(&mut rng);
    let never: fn(Point<f32>, Point<f32>) -> bool = |_, _| false;
    let physics = Physics {
        touches: never,
        ..physics()
    };

    for _ in 0..GENERATION_LENGTH {
        assert!(matches!(simulation.step(&mut rng, &physics), Step::Lived));
    }
    let before = (places(simulation.world()), foods(simulation.world()));

    assert!(matches!(simulation.step(&mut rng, &physics), Step::Barren));

    assert_eq!(simulation.age(), GENERATION_LENGTH + 1);
    assert_eq!(simulation.total_satiation(), Some(0));
    assert_eq!(foods(simulation.world()), before.1);
    assert_eq!(places(simulation.world()).len(), before.0.len());
}

#[test]
fn an_animal_that_touches_food_eats_it() {
    let mut rng = ChaCha8Rng::from_seed(Default::default());
    let mut world = World::new(
        vec![
            still_animal(0.5, 0.5, 0.0, 0.002),
            still_animal(0.1, 0.1, 0.0, 0.002),
        ],
        vec![
            Food::new(Point { x: 0.5, y: 0.505 }),
            Food::new(Point { x: 0.9, y: 0.9 }),
            Food::new(Point { x: 0.495, y: 0.5 }),
        ],
    );
    let spawn: fn(&mut ChaCha8Rng) -> Point<f32> = |_| Point { x: 0.7, y: 0.3 };

    process_collisions(&mut world, &mut rng, &touches, &spawn);

    // the first animal straddled two pieces of food and has eaten both
    assert_eq!(world.animals()[0].satiation(), 2);
    assert_eq!(world.animals()[1].satiation(), 0);
    assert_eq!(foods(&world), vec![(0.7, 0.3), (0.9, 0.9), (0.7, 0.3)]);
    assert_eq!(world.animals()[0].position().x, 0.5);
}

#[test]
fn food_that_was_eaten_is_met_by_later_animals_where_it_lies_then() {
    let mut rng = ChaCha8Rng::from_seed(Default::default());
    let mut world = World::new(
        vec![
            still_animal(0.5, 0.5, 0.0, 0.002),
            still_animal(0.7, 0.3, 0.0, 0.002),
            still_animal(0.5, 0.5, 0.0, 0.002),
        ],
        vec![Food::new(Point { x: 0.5, y: 0.5 })],
    );
    // the food is put on the second animal, whoever eats it
    let spawn: fn(&mut ChaCha8Rng) -> Point<f32> = |_| Point { x: 0.7, y: 0.3 };

    process_collisions(&mut world, &mut rng, &touches, &spawn);

    // the first animal has eaten it where it lay, the second where it was
    // put, and the third, which sits where it lay at first, not at all
    assert_eq!(world.animals()[0].satiation(), 1);
    assert_eq!(world.animals()[1].satiation(), 1);
    assert_eq!(world.animals()[2].satiation(), 0);
    assert_eq!(foods(&world), vec![(0.7, 0.3)]);
}

#[test]
fn a_position_wraps_around_the_world() {
    // heading along the X axis: a rotation of -PI/2 turns the Y axis onto it
    let mut world = World::new(
        vec![
            still_animal(0.999, 0.5, -FRAC_PI_2, 0.01),
            still_animal(0.001, 0.5, FRAC_PI_2, 0.01),
        ],
        Vec::new(),
    );

    process_movements(&mut world, &advance);

    assert!((world.animals()[0].position().x - 0.009).abs() < 1e-6);
    assert!((world.animals()[0].position().y - 0.5).abs() < 1e-6);
    assert!((world.animals()[1].position().x - 0.991).abs() < 1e-6);
    assert_eq!(world.animals()[0].rotation(), -FRAC_PI_2);
    assert_eq!(world.animals()[0].speed(), 0.01);
}

#[test]
fn the_brain_pass_changes_speed_and_rotation_within_their_bounds() {
    let eye = Eye::new(0.25, PI, 1);
    // the hidden layer gives nothing; the outputs are biases alone: the
    // first asks for much more speed, the second for much more rotation
    let genes = vec![0.0, 0.0, 0.0, 0.0, 7.0, 0.0, 0.0, 9.0, 0.0, 0.0];
    let pose = Pose {
        position: Point { x: 0.5, y: 0.5 },
        rotation: 0.25,
        speed: 0.002,
    };
    let animal = Animal::from_chromosome(eye, pose, Chromosome::new(genes)).unwrap();
    let mut world = World::new(vec![animal], vec![Food::new(Point { x: 0.5, y: 0.6 })]);

    process_brains(&mut world, &locate, 0.0, &accumulate, &relu, &respond);

    let animal = &world.animals()[0];
    assert_eq!(animal.speed(), SPEED_MAX);
    assert!((animal.rotation() - (0.25 + ROTATION_ACCEL)).abs() < 1e-6);
    assert_eq!(animal.position().x, 0.5);
    assert_eq!(animal.position().y, 0.5);
    assert_eq!(foods(&world), vec![(0.5, 0.6)]);
}

#[test]
fn the_brain_is_asked_what_the_eye_sees() {
    let eye = Eye::new(0.5, FRAC_PI_2, 1);
    // the hidden layer hands on what the one cell holds; the first output
    // takes it as it is, the second not at all
    let genes = vec![0.0, 1.0, 0.0, 0.0, 0.0, 1.0, 0.0, 0.0, 0.0, 0.0];
    let pose = Pose {
        position: Point { x: 0.5, y: 0.5 },
        rotation: 0.0,
        speed: 0.0,
    };
    let animal = Animal::from_chromosome(eye, pose, Chromosome::new(genes)).unwrap();
    let mut world = World::new(vec![animal], vec![Food::new(Point { x: 0.5, y: 0.75 })]);
    let plain: fn(f32, f32, f32, f32) -> (f32, f32) = |_, _, faster, turn| (faster, turn);

    process_brains(&mut world, &locate, 0.0, &accumulate, &relu, &plain);

    // the food lies 0.25 ahead of an eye that sees 0.5 far
    assert_eq!(world.animals()[0].speed(), 0.5);
    assert_eq!(world.animals()[0].rotation(), 0.0);
}

#[test]
fn the_world_changes_one_thing_at_a_time() {
    let mut world = World::new(
        vec![
            still_animal(0.1, 0.2, 0.3, 0.004),
            still_animal(0.5, 0.6, 0.7, 0.008),
        ],
        vec![
            Food::new(Point { x: 0.25, y: 0.75 }),
            Food::new(Point { x: 0.5, y: 0.5 }),
        ],
    );

    world.feed(1, 0, Point { x: 0.125, y: 0.875 });
    assert_eq!(
        places(&world),
        vec![(0.1, 0.2, 0.3, 0.004, 0), (0.5, 0.6, 0.7, 0.008, 1)]
    );
    assert_eq!(foods(&world), vec![(0.125, 0.875), (0.5, 0.5)]);

    world.steer(0, 0.002, 1.5);
    assert_eq!(
        places(&world),
        vec![(0.1, 0.2, 1.5, 0.002, 0), (0.5, 0.6, 0.7, 0.008, 1)]
    );

    world.relocate(1, Point { x: 0.9, y: 0.8 });
    assert_eq!(
        places(&world),
        vec![(0.1, 0.2, 1.5, 0.002, 0), (0.9, 0.8, 0.7, 0.008, 1)]
    );
    assert_eq!(foods(&world), vec![(0.125, 0.875), (0.5, 0.5)]);
}

#[test]
fn the_brain_of_an_animal_has_the_topology_of_its_eye() {
    let layers = Animal::<f32>::topology(9).unwrap();
    let widths: Vec<usize> = layers.iter().map(|layer| layer.neurons).collect();

    assert_eq!(widths, vec![9, 18, 2]);
    assert_eq!(Network::<f32>::weight_count(&layers), Some(218));
    assert!(Animal::<f32>::topology(usize::MAX / 2 + 1).is_none());
}

#[test]
fn an_animal_is_made_of_a_chromosome_of_the_right_length_only() {
    let pose = Pose {
        position: Point { x: 0.5, y: 0.5 },
        rotation: 0.0,
        speed: 0.002,
    };
    let eye = || Eye::new(0.25, PI, 2);
    // 4 * (2 + 1) + 2 * (4 + 1)
    let genes: Vec<f32> = (0..22).map(|n| n as f32).collect();

    let animal = Animal::from_chromosome(eye(), pose, Chromosome::new(genes.clone())).unwrap();
    assert_eq!(animal.as_chromosome().into_vec(), genes);
    assert_eq!(animal.satiation(), 0);
    assert_eq!(animal.eye().cells(), 2);

    assert!(Animal::from_chromosome(eye(), pose, Chromosome::new(vec![0.0; 21])).is_none());
    assert!(Animal::from_chromosome(eye(), pose, Chromosome::new(vec![0.0; 23])).is_none());
}

#[test]
fn an_individual_carries_the_brain_and_the_meals_of_its_animal() {
    let mut world = World::new(
        vec![still_animal(0.5, 0.5, 0.0, 0.002)],
        vec![Food::new(Point { x: 0.5, y: 0.5 })],
    );
    world.feed(0, 0, Point { x: 0.9, y: 0.9 });
    world.feed(0, 0, Point { x: 0.1, y: 0.1 });
    let animal = &world.animals()[0];

    let individual = AnimalIndividual::from_animal(animal);

    assert_eq!(individual.fitness(), 2);
    assert_eq!(individual.chromosome().iter(), animal.brain().weights().as_slice());

    let pose = Pose {
        position: Point { x: 0.25, y: 0.75 },
        rotation: 1.0,
        speed: 0.003,
    };
    let reborn = individual.into_animal(Eye::new(0.25, PI, 1), pose).unwrap();

    // only the brain is inherited
    assert_eq!(reborn.brain().weights(), animal.brain().weights());
    assert_eq!(reborn.satiation(), 0);
    assert_eq!(reborn.position().x, 0.25);
    assert_eq!(reborn.rotation(), 1.0);
    assert_eq!(reborn.speed(), 0.003);
}

#[test]
fn an_individual_that_is_created_has_eaten_nothing() {
    let individual = AnimalIndividual::create(Chromosome::new(vec![1.0, 2.0, 3.0]));

    assert_eq!(individual.fitness(), 0);
    assert_eq!(individual.chromosome().iter(), &[1.0, 2.0, 3.0]);

    // three genes make no brain
    let mut rng = ChaCha8Rng::from_seed(Default::default());
    assert!(individual
        .into_animal(Eye::new(0.25, PI, 1), hatch(&mut rng))
        .is_none());
}

#[test]
fn evolve_breeds_the_animals_by_their_meals() {
    let mut rng = ChaCha8Rng::from_seed(Default::default());
    let world = World::new(
        vec![
            still_animal(0.5, 0.5, 0.0, 0.002),
            still_animal(0.1, 0.1, 0.0, 0.002),
            still_animal(0.9, 0.9, 0.0, 0.002),
        ],
        vec![
            Food::new(Point { x: 0.1, y: 0.3 }),
            Food::new(Point { x: 0.9, y: 0.3 }),
            Food::new(Point { x: 0.1, y: 0.6 }),
        ],
    );
    let mut simulation = Simulation::new(world, GaussianMutation::new(0, 1, nudge as Nudge));
    // an animal eats what lies straight above or below it, and what is
    // eaten is put where no animal is
    let below: fn(Point<f32>, Point<f32>) -> bool = |animal, food| animal.x == food.x;
    let aside: fn(&mut ChaCha8Rng) -> Point<f32> = |_| Point { x: 0.3, y: 0.3 };
    let physics = Physics {
        touches: below,
        spawn: aside,
        ..physics()
    };
    assert!(matches!(simulation.step(&mut rng, &physics), Step::Lived));
    assert_eq!(simulation.age(), 1);
    assert_eq!(simulation.total_satiation(), Some(3));

    let stats = simulation.evolve(&mut rng, &spawn, &hatch);

    assert_eq!(stats.min_fitness, 0);
    assert_eq!(stats.max_fitness, 2);
    assert_eq!(stats.sum_fitness, 3);
    assert_eq!(stats.size, 3);
    assert_eq!(simulation.age(), 0);
    assert_eq!(simulation.total_satiation(), Some(0));
    assert_eq!(simulation.world().animals().len(), 3);
    assert_eq!(simulation.world().foods().len(), 3);
    for animal in simulation.world().animals() {
        assert_eq!(animal.satiation(), 0);
        assert_eq!(animal.brain().weights(), vec![0.0; 10]);
        assert_eq!(animal.speed(), 0.002);
        assert_eq!(animal.eye().cells(), 1);
    }
}
