//! The passes of one step of the world, each over every animal in order.
//!
//! What an animal sees, what it makes of it and how it moves is computed
//! by kernels that the caller hands in; the passes say to whom they are
//! applied, in what order, and what becomes of the answers.

use crate::animal::{lemma_well_formed_brain, AnimalView, Pose};
use crate::eye::{lemma_seen_as_a_function, seen, sees_as_a_function, Eye};
use crate::food::{spawned, Point};
use crate::network::{fires_as_a_function, lemma_propagates_as_a_function, propagates};
use crate::world::{alike, World, WorldView};
use rand_chacha::ChaCha8Rng;
use vstd::prelude::*;

verus! {

/// The world in which animal `animal` has eaten food `food`: the animal has
/// counted one more meal, and the food lies at `respawn`.
pub open spec fn fed<T>(world: WorldView<T>, animal: int, food: int, respawn: Point<T>) -> WorldView<
    T,
> {
    WorldView {
        animals: world.animals.update(
            animal,
            AnimalView {
                satiation: (world.animals[animal].satiation + 1) as u32,
                ..world.animals[animal]
            },
        ),
        foods: world.foods.update(food, respawn),
    }
}

/// Whether `after` is `before` after animal `animal` has met food `food`:
/// where `touches` said that the two touch, the animal has eaten the food,
/// which lies where `spawn` put it; where it said that they do not,
/// nothing has changed.
pub open spec fn met<T, C: Fn(Point<T>, Point<T>) -> bool, P: Fn(&mut ChaCha8Rng) -> Point<T>>(
    touches: C,
    spawn: P,
    before: WorldView<T>,
    animal: int,
    food: int,
    after: WorldView<T>,
) -> bool {
    ||| {
        &&& call_ensures(touches, (before.animals[animal].pose.position, before.foods[food]), false)
        &&& after == before
    }
    ||| {
        &&& call_ensures(touches, (before.animals[animal].pose.position, before.foods[food]), true)
        &&& spawned(spawn, after.foods[food])
        &&& after == fed(before, animal, food, after.foods[food])
    }
}

/// Whether `after` is `before` after animal `animal` has met the first
/// `foods` pieces of food, one after the other.
pub open spec fn grazed<T, C: Fn(Point<T>, Point<T>) -> bool, P: Fn(&mut ChaCha8Rng) -> Point<T>>(
    touches: C,
    spawn: P,
    before: WorldView<T>,
    animal: int,
    foods: nat,
    after: WorldView<T>,
) -> bool
    decreases foods,
{
    if foods == 0 {
        after == before
    } else {
        exists|world: WorldView<T>|
            grazed(touches, spawn, before, animal, (foods - 1) as nat, world) && #[trigger] met(
                touches,
                spawn,
                world,
                animal,
                foods - 1,
                after,
            )
    }
}

/// Whether `after` is `before` after each of the first `animals` animals,
/// one after the other, has met every piece of food.
pub open spec fn collided<T, C: Fn(Point<T>, Point<T>) -> bool, P: Fn(&mut ChaCha8Rng) -> Point<T>>(
    touches: C,
    spawn: P,
    before: WorldView<T>,
    animals: nat,
    after: WorldView<T>,
) -> bool
    decreases animals,
{
    if animals == 0 {
        after == before
    } else {
        exists|world: WorldView<T>|
            collided(touches, spawn, before, (animals - 1) as nat, world) && #[trigger] grazed(
                touches,
                spawn,
                world,
                animals - 1,
                world.foods.len(),
                after,
            )
    }
}

/// Whether `after` has the animals and as much food as `before`, and no
/// animal has changed but in its count of meals, which has not fallen and
/// has risen by `meals` at most.
pub open spec fn nourished<T>(before: WorldView<T>, after: WorldView<T>, meals: int) -> bool {
    &&& after.foods.len() == before.foods.len()
    &&& after.animals.len() == before.animals.len()
    &&& forall|i: int|
        0 <= i < before.animals.len() ==> (#[trigger] after.animals[i]) == (AnimalView {
            satiation: after.animals[i].satiation,
            ..before.animals[i]
        }) && before.animals[i].satiation <= after.animals[i].satiation
            <= before.animals[i].satiation + meals
}

/// Whether `after` is `before` after the collision pass: every animal has
/// met every piece of food.
pub open spec fn all_collided<
    T,
    C: Fn(Point<T>, Point<T>) -> bool,
    P: Fn(&mut ChaCha8Rng) -> Point<T>,
>(touches: C, spawn: P, before: WorldView<T>, after: WorldView<T>) -> bool {
    &&& collided(touches, spawn, before, before.animals.len(), after)
    &&& nourished(before, after, before.foods.len() as int)
}

/// The collision pass: every animal in turn meets every piece of food in
/// turn. An animal that touches a piece of food where the two then are
/// eats it: it counts one more meal, and the food is put at once where
/// `spawn` says, so that animals that come later meet it there. No food is
/// made or lost, and no animal moves.
pub fn process_collisions<
    T: Copy,
    C: Fn(Point<T>, Point<T>) -> bool,
    P: Fn(&mut ChaCha8Rng) -> Point<T>,
>(world: &mut World<T>, rng: &mut ChaCha8Rng, touches: &C, spawn: &P)
    requires
        forall|animal: Point<T>, food: Point<T>| call_requires(*touches, (animal, food)),
        forall|r: &mut ChaCha8Rng| call_requires(*spawn, (r,)),
        forall|i: int|
            0 <= i < old(world)@.animals.len() ==> (#[trigger] old(world)@.animals[i]).satiation
                + old(world)@.foods.len() <= u32::MAX,
    ensures
        all_collided(*touches, *spawn, old(world)@, final(world)@),
{
    let animals: usize = world.animals().len();
    let foods: usize = world.foods().len();
    let mut i: usize = 0;
    while i < animals
        invariant
            0 <= i <= animals,
            animals == old(world)@.animals.len(),
            foods == old(world)@.foods.len(),
            forall|animal: Point<T>, food: Point<T>| call_requires(*touches, (animal, food)),
            forall|r: &mut ChaCha8Rng| call_requires(*spawn, (r,)),
            forall|k: int|
                0 <= k < animals ==> (#[trigger] old(world)@.animals[k]).satiation + foods
                    <= u32::MAX,
            collided(*touches, *spawn, old(world)@, i as nat, world@),
            nourished(old(world)@, world@, foods as int),
            forall|k: int| i <= k < animals ==> world@.animals[k] == old(world)@.animals[k],
        decreases animals - i,
    {
        let ghost start = world@;
        let mut j: usize = 0;
        while j < foods
            invariant
                0 <= j <= foods,
                0 <= i < animals,
                animals == old(world)@.animals.len() == start.animals.len(),
                foods == old(world)@.foods.len() == start.foods.len(),
                forall|animal: Point<T>, food: Point<T>| call_requires(*touches, (animal, food)),
                forall|r: &mut ChaCha8Rng| call_requires(*spawn, (r,)),
                start.animals[i as int].satiation + foods <= u32::MAX,
                grazed(*touches, *spawn, start, i as int, j as nat, world@),
                nourished(start, world@, j as int),
                forall|k: int| 0 <= k < animals && k != i ==> world@.animals[k] == start.animals[k],
            decreases foods - j,
        {
            let ghost before = world@;
            let animal = world.animals()[i].position();
            let food = world.foods()[j].position();
            if touches(animal, food) {
                let respawn = spawn(rng);
                world.feed(i, j, respawn);
                proof {
                    assert(world@.foods[j as int] == respawn);
                    assert(spawned(*spawn, respawn));
                    assert(world@ == fed(before, i as int, j as int, respawn));
                }
            }
            proof {
                let met_now = (j + 1) as nat;
                assert(met(*touches, *spawn, before, i as int, met_now - 1, world@));
                assert(grazed(*touches, *spawn, start, i as int, (met_now - 1) as nat, before));
                assert(grazed(*touches, *spawn, start, i as int, met_now, world@));
            }
            j += 1;
        }
        proof {
            let done = (i + 1) as nat;
            assert(grazed(*touches, *spawn, start, done - 1, start.foods.len(), world@));
            assert(collided(*touches, *spawn, old(world)@, (done - 1) as nat, start));
            assert(collided(*touches, *spawn, old(world)@, done, world@));
        }
        i += 1;
    }
}

/// Whether `after` is `before` moved to where `advance` puts it: nothing
/// but its position has changed.
pub open spec fn moved<T, A: Fn(Pose<T>) -> Point<T>>(
    advance: A,
    before: AnimalView<T>,
    after: AnimalView<T>,
) -> bool {
    &&& call_ensures(advance, (before.pose,), after.pose.position)
    &&& after == (AnimalView {
        pose: Pose {
            position: after.pose.position,
            rotation: before.pose.rotation,
            speed: before.pose.speed,
        },
        ..before
    })
}

/// Whether `after` is `before` after the movement pass: every animal has
/// moved, and the food has stayed.
pub open spec fn all_moved<T, A: Fn(Pose<T>) -> Point<T>>(
    advance: A,
    before: WorldView<T>,
    after: WorldView<T>,
) -> bool {
    &&& after.foods == before.foods
    &&& after.animals.len() == before.animals.len()
    &&& forall|i: int|
        0 <= i < before.animals.len() ==> moved(
            advance,
            before.animals[i],
            #[trigger] after.animals[i],
        )
}

/// The movement pass: every animal, in order, is put where `advance` says
/// that its pose takes it. The food stays.
pub fn process_movements<T: Copy, A: Fn(Pose<T>) -> Point<T>>(world: &mut World<T>, advance: &A)
    requires
        forall|pose: Pose<T>| call_requires(*advance, (pose,)),
    ensures
        all_moved(*advance, old(world)@, final(world)@),
{
    let count: usize = world.animals().len();
    let mut i: usize = 0;
    while i < count
        invariant
            0 <= i <= count,
            count == old(world)@.animals.len(),
            forall|pose: Pose<T>| call_requires(*advance, (pose,)),
            world@.foods == old(world)@.foods,
            world@.animals.len() == old(world)@.animals.len(),
            forall|k: int| i <= k < count ==> world@.animals[k] == old(world)@.animals[k],
            forall|k: int|
                0 <= k < i ==> moved(*advance, old(world)@.animals[k], #[trigger] world@.animals[k]),
        decreases count - i,
    {
        let pose = world.animals()[i].pose();
        let position = advance(pose);
        world.relocate(i, position);
        i += 1;
    }
}

/// Whether `after` is `before` after it has looked at `foods` and thought:
/// its eye saw the food from where it is and heads; its brain made two
/// values of that, the first for its speed and the second for its
/// rotation; and `respond` made its new speed and rotation of its old ones
/// and those two. Nothing but its speed and rotation has changed.
pub open spec fn pondered<
    T,
    L: Fn(&Eye<T>, Point<T>, T, Point<T>) -> Option<(usize, T)>,
    A: Fn(T, T) -> T,
    F: Fn(T, &Vec<T>, &Vec<T>) -> T,
    R: Fn(T, T, T, T) -> (T, T),
>(
    locate: L,
    zero: T,
    accumulate: A,
    activate: F,
    respond: R,
    foods: Seq<Point<T>>,
    before: AnimalView<T>,
    after: AnimalView<T>,
) -> bool {
    &&& after == (AnimalView {
        pose: Pose {
            position: before.pose.position,
            rotation: after.pose.rotation,
            speed: after.pose.speed,
        },
        ..before
    })
    &&& exists|vision: Seq<T>, response: Seq<T>|
        #![trigger
            seen(
                locate,
                zero,
                accumulate,
                before.eye,
                before.pose.position,
                before.pose.rotation,
                foods,
                vision,
            ),
            call_ensures(
                respond,
                (before.pose.speed, before.pose.rotation, response[0], response[1]),
                (after.pose.speed, after.pose.rotation),
            )]
        {
            &&& seen(
                locate,
                zero,
                accumulate,
                before.eye,
                before.pose.position,
                before.pose.rotation,
                foods,
                vision,
            )
            &&& propagates(activate, before.brain, vision, response)
            &&& response.len() == 2
            &&& call_ensures(
                respond,
                (before.pose.speed, before.pose.rotation, response[0], response[1]),
                (after.pose.speed, after.pose.rotation),
            )
        }
}

/// Whether `after` is `before` after the brain pass: every animal has
/// looked at the food and thought, and the food has stayed.
pub open spec fn all_pondered<
    T,
    L: Fn(&Eye<T>, Point<T>, T, Point<T>) -> Option<(usize, T)>,
    A: Fn(T, T) -> T,
    F: Fn(T, &Vec<T>, &Vec<T>) -> T,
    R: Fn(T, T, T, T) -> (T, T),
>(locate: L, zero: T, accumulate: A, activate: F, respond: R, before: WorldView<T>, after: WorldView<
    T,
>) -> bool {
    &&& after.foods == before.foods
    &&& after.animals.len() == before.animals.len()
    &&& forall|i: int|
        0 <= i < before.animals.len() ==> pondered(
            locate,
            zero,
            accumulate,
            activate,
            respond,
            before.foods,
            before.animals[i],
            #[trigger] after.animals[i],
        )
}

/// Whether `respond` is a function of what it is handed: it gives one
/// answer at most.
pub open spec fn responds_as_a_function<T, R: Fn(T, T, T, T) -> (T, T)>(respond: R) -> bool {
    forall|speed: T, rotation: T, faster: T, turn: T, answer: (T, T), other: (T, T)|
        #![trigger
            call_ensures(respond, (speed, rotation, faster, turn), answer),
            call_ensures(respond, (speed, rotation, faster, turn), other)]
        call_ensures(respond, (speed, rotation, faster, turn), answer) && call_ensures(
            respond,
            (speed, rotation, faster, turn),
            other,
        ) ==> answer == other
}

/// The brain pass draws nothing: where its kernels are functions, what it
/// makes of a world is determined by that world. Two runs of it on one
/// world end in one world.
pub proof fn lemma_brain_pass_is_a_function<
    T,
    L: Fn(&Eye<T>, Point<T>, T, Point<T>) -> Option<(usize, T)>,
    A: Fn(T, T) -> T,
    F: Fn(T, &Vec<T>, &Vec<T>) -> T,
    R: Fn(T, T, T, T) -> (T, T),
>(
    locate: L,
    zero: T,
    accumulate: A,
    activate: F,
    respond: R,
    before: WorldView<T>,
    after: WorldView<T>,
    other: WorldView<T>,
)
    requires
        forall|i: int|
            0 <= i < before.animals.len() ==> (#[trigger] before.animals[i]).eye.cell_count() > 0,
        sees_as_a_function(locate, accumulate),
        fires_as_a_function(activate),
        responds_as_a_function(respond),
        all_pondered(locate, zero, accumulate, activate, respond, before, after),
        all_pondered(locate, zero, accumulate, activate, respond, before, other),
    ensures
        after == other,
{
    assert forall|i: int| 0 <= i < before.animals.len() implies after.animals[i]
        == other.animals[i] by {
        let animal = before.animals[i];
        let first = after.animals[i];
        let second = other.animals[i];
        assert(pondered(locate, zero, accumulate, activate, respond, before.foods, animal, first));
        assert(pondered(locate, zero, accumulate, activate, respond, before.foods, animal, second));
        let (vision, response) = choose|vision: Seq<T>, response: Seq<T>|
            #![trigger
                seen(
                    locate,
                    zero,
                    accumulate,
                    animal.eye,
                    animal.pose.position,
                    animal.pose.rotation,
                    before.foods,
                    vision,
                ),
                call_ensures(
                    respond,
                    (animal.pose.speed, animal.pose.rotation, response[0], response[1]),
                    (first.pose.speed, first.pose.rotation),
                )]
            {
                &&& seen(
                    locate,
                    zero,
                    accumulate,
                    animal.eye,
                    animal.pose.position,
                    animal.pose.rotation,
                    before.foods,
                    vision,
                )
                &&& propagates(activate, animal.brain, vision, response)
                &&& response.len() == 2
                &&& call_ensures(
                    respond,
                    (animal.pose.speed, animal.pose.rotation, response[0], response[1]),
                    (first.pose.speed, first.pose.rotation),
                )
            };
        let (sight, answer) = choose|sight: Seq<T>, answer: Seq<T>|
            #![trigger
                seen(
                    locate,
                    zero,
                    accumulate,
                    animal.eye,
                    animal.pose.position,
                    animal.pose.rotation,
                    before.foods,
                    sight,
                ),
                call_ensures(
                    respond,
                    (animal.pose.speed, animal.pose.rotation, answer[0], answer[1]),
                    (second.pose.speed, second.pose.rotation),
                )]
            {
                &&& seen(
                    locate,
                    zero,
                    accumulate,
                    animal.eye,
                    animal.pose.position,
                    animal.pose.rotation,
                    before.foods,
                    sight,
                )
                &&& propagates(activate, animal.brain, sight, answer)
                &&& answer.len() == 2
                &&& call_ensures(
                    respond,
                    (animal.pose.speed, animal.pose.rotation, answer[0], answer[1]),
                    (second.pose.speed, second.pose.rotation),
                )
            };
        lemma_seen_as_a_function(
            locate,
            zero,
            accumulate,
            animal.eye,
            animal.pose.position,
            animal.pose.rotation,
            before.foods,
            vision,
            sight,
        );
        lemma_propagates_as_a_function(activate, animal.brain, vision, response, answer);
    }
    assert(after.animals =~= other.animals);
}

/// The movement pass draws nothing: where `advance` is a function, what
/// the pass makes of a world is determined by that world. Two runs of it
/// on one world end in one world.
pub proof fn lemma_movement_pass_is_a_function<T, A: Fn(Pose<T>) -> Point<T>>(
    advance: A,
    before: WorldView<T>,
    after: WorldView<T>,
    other: WorldView<T>,
)
    requires
        forall|pose: Pose<T>, point: Point<T>, second: Point<T>|
            #![trigger call_ensures(advance, (pose,), point), call_ensures(advance, (pose,), second)]
            call_ensures(advance, (pose,), point) && call_ensures(advance, (pose,), second)
                ==> point == second,
        all_moved(advance, before, after),
        all_moved(advance, before, other),
    ensures
        after == other,
{
    assert forall|i: int| 0 <= i < before.animals.len() implies after.animals[i]
        == other.animals[i] by {
        assert(moved(advance, before.animals[i], after.animals[i]));
        assert(moved(advance, before.animals[i], other.animals[i]));
    }
    assert(after.animals =~= other.animals);
}

/// The brain pass: every animal, in order, is shown the food as it lies,
/// its brain is asked, and it takes the speed and the rotation that
/// `respond` makes of the answer. No animal moves, and the food stays.
pub fn process_brains<
    T: Copy,
    L: Fn(&Eye<T>, Point<T>, T, Point<T>) -> Option<(usize, T)>,
    A: Fn(T, T) -> T,
    F: Fn(T, &Vec<T>, &Vec<T>) -> T,
    R: Fn(T, T, T, T) -> (T, T),
>(world: &mut World<T>, locate: &L, zero: T, accumulate: &A, activate: &F, respond: &R)
    requires
        alike(old(world)@.animals),
        forall|eye: &Eye<T>, from: Point<T>, heading: T, food: Point<T>|
            call_requires(*locate, (eye, from, heading, food)),
        forall|held: T, energy: T| call_requires(*accumulate, (held, energy)),
        forall|bias: T, weights: &Vec<T>, signals: &Vec<T>|
            weights@.len() == signals@.len() ==> call_requires(*activate, (bias, weights, signals)),
        forall|speed: T, rotation: T, faster: T, turn: T|
            call_requires(*respond, (speed, rotation, faster, turn)),
    ensures
        all_pondered(*locate, zero, *accumulate, *activate, *respond, old(world)@, final(world)@),
{
    let count: usize = world.animals().len();
    let mut i: usize = 0;
    while i < count
        invariant
            0 <= i <= count,
            count == old(world)@.animals.len(),
            alike(old(world)@.animals),
            forall|eye: &Eye<T>, from: Point<T>, heading: T, food: Point<T>|
                call_requires(*locate, (eye, from, heading, food)),
            forall|held: T, energy: T| call_requires(*accumulate, (held, energy)),
            forall|bias: T, weights: &Vec<T>, signals: &Vec<T>|
                weights@.len() == signals@.len() ==> call_requires(
                    *activate,
                    (bias, weights, signals),
                ),
            forall|speed: T, rotation: T, faster: T, turn: T|
                call_requires(*respond, (speed, rotation, faster, turn)),
            world@.foods == old(world)@.foods,
            world@.animals.len() == old(world)@.animals.len(),
            forall|k: int| i <= k < count ==> world@.animals[k] == old(world)@.animals[k],
            forall|k: int|
                0 <= k < i ==> pondered(
                    *locate,
                    zero,
                    *accumulate,
                    *activate,
                    *respond,
                    old(world)@.foods,
                    old(world)@.animals[k],
                    #[trigger] world@.animals[k],
                ),
        decreases count - i,
    {
        let ghost before = world@.animals[i as int];
        proof {
            lemma_well_formed_brain(before);
        }
        let animal = &world.animals()[i];
        let pose = animal.pose();
        let sight = world.foods();
        let vision = animal.eye().process_vision(
            pose.position,
            pose.rotation,
            sight,
            locate,
            zero,
            accumulate,
        );
        let ghost seen_now = vision@;
        let response = animal.brain().propogate(vision, activate);
        let (speed, rotation) = respond(pose.speed, pose.rotation, response[0], response[1]);
        world.steer(i, speed, rotation);
        proof {
            let after = world@.animals[i as int];
            assert(Seq::new(sight@.len(), |j: int| sight@[j]@) =~= old(world)@.foods);
            assert(seen(
                *locate,
                zero,
                *accumulate,
                before.eye,
                before.pose.position,
                before.pose.rotation,
                old(world)@.foods,
                seen_now,
            ));
            assert(call_ensures(
                *respond,
                (before.pose.speed, before.pose.rotation, response@[0], response@[1]),
                (after.pose.speed, after.pose.rotation),
            ));
            assert(pondered(
                *locate,
                zero,
                *accumulate,
                *activate,
                *respond,
                old(world)@.foods,
                before,
                after,
            ));
        }
        i += 1;
    }
}

} // verus!
