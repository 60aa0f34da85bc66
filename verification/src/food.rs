//! Food, and the points at which things lie.

use rand_chacha::ChaCha8Rng;
use vstd::prelude::*;

verus! {

/// A point of the world.
#[derive(Clone, Copy, Debug)]
pub struct Point<T> {
    pub x: T,
    pub y: T,
}

/// Whether `spawn` may give `point`.
pub open spec fn spawned<T, P: Fn(&mut ChaCha8Rng) -> Point<T>>(spawn: P, point: Point<T>) -> bool {
    exists|rng: &mut ChaCha8Rng| #[trigger] call_ensures(spawn, (rng,), point)
}

/// One piece of food: it lies at a point, and is moved when eaten.
#[derive(Clone, Copy, Debug)]
pub struct Food<T> {
    position: Point<T>,
}

impl<T> View for Food<T> {
    type V = Point<T>;

    /// Where the food lies.
    closed spec fn view(&self) -> Point<T> {
        self.position
    }
}

impl<T: Copy> Food<T> {
    /// A piece of food at `position`.
    pub fn new(position: Point<T>) -> (food: Self)
        ensures
            food@ == position,
    {
        Food { position }
    }

    /// Where the food lies.
    pub fn position(&self) -> (position: Point<T>)
        ensures
            position == self@,
    {
        self.position
    }
}

} // verus!
