//! The eye of an animal: what it can see, and in how many cells.

use crate::food::{Food, Point};
use vstd::prelude::*;

verus! {

/// The make of an eye: how far it sees, how wide, and into how many cells
/// its field of view is cut.
#[derive(Debug)]
pub struct Eye<T> {
    fov_range: T,
    fov_angle: T,
    cells: usize,
}

impl<T: Copy> Copy for Eye<T> {

}

impl<T: Copy> Clone for Eye<T> {
    fn clone(&self) -> (eye: Self)
        ensures
            eye == *self,
    {
        *self
    }
}

impl<T> Eye<T> {
    /// Every eye has a cell.
    #[verifier::type_invariant]
    spec fn has_a_cell(self) -> bool {
        self.cells > 0
    }

    /// How far the eye sees.
    pub closed spec fn range(&self) -> T {
        self.fov_range
    }

    /// How wide the eye sees.
    pub closed spec fn angle(&self) -> T {
        self.fov_angle
    }

    /// Number of cells of the eye.
    pub closed spec fn cell_count(&self) -> usize {
        self.cells
    }
}

impl<T: Copy> Eye<T> {
    /// An eye that sees `fov_range` far and `fov_angle` wide, in `cells`
    /// cells.
    pub fn new(fov_range: T, fov_angle: T, cells: usize) -> (eye: Self)
        requires
            cells > 0,
        ensures
            eye.range() == fov_range,
            eye.angle() == fov_angle,
            eye.cell_count() == cells,
    {
        Eye { fov_range, fov_angle, cells }
    }

    /// How far the eye sees.
    pub fn fov_range(&self) -> (range: T)
        ensures
            range == self.range(),
    {
        self.fov_range
    }

    /// How wide the eye sees.
    pub fn fov_angle(&self) -> (angle: T)
        ensures
            angle == self.angle(),
    {
        self.fov_angle
    }

    /// Number of cells of the eye.
    pub fn cells(&self) -> (cells: usize)
        ensures
            cells == self.cell_count(),
            cells > 0,
    {
        proof {
            use_type_invariant(self);
        }
        self.cells
    }
}

/// The cell that a piece of food falls into when `locate` has put it in
/// cell `cell`: that cell, or the last one where there is no such cell.
pub open spec fn bin<T>(eye: Eye<T>, cell: usize) -> int {
    if cell < eye.cell_count() {
        cell as int
    } else {
        eye.cell_count() - 1
    }
}

/// Whether `after` is what the cells `before` become when the eye is shown
/// one more piece of food: nothing changes where `locate` finds the food
/// out of sight; where it finds it in a cell with an energy, `accumulate` puts
/// that energy on what the cell held, and no other cell changes.
pub open spec fn noticed<
    T,
    L: Fn(&Eye<T>, Point<T>, T, Point<T>) -> Option<(usize, T)>,
    A: Fn(T, T) -> T,
>(
    locate: L,
    accumulate: A,
    eye: Eye<T>,
    position: Point<T>,
    rotation: T,
    food: Point<T>,
    before: Seq<T>,
    after: Seq<T>,
) -> bool {
    ||| {
        &&& call_ensures(locate, (&eye, position, rotation, food), None)
        &&& after == before
    }
    ||| exists|cell: usize, energy: T|
        {
            &&& #[trigger] call_ensures(
                locate,
                (&eye, position, rotation, food),
                Some((cell, energy)),
            )
            &&& call_ensures(accumulate, (before[bin(eye, cell)], energy), after[bin(eye, cell)])
            &&& after == before.update(bin(eye, cell), after[bin(eye, cell)])
        }
}

/// Whether `cells` is what the eye sees of `foods` from `position` when it
/// heads along `rotation`: one value per cell, `zero` in every cell before
/// any food is shown, and then changed by each piece of food in order.
pub open spec fn seen<
    T,
    L: Fn(&Eye<T>, Point<T>, T, Point<T>) -> Option<(usize, T)>,
    A: Fn(T, T) -> T,
>(
    locate: L,
    zero: T,
    accumulate: A,
    eye: Eye<T>,
    position: Point<T>,
    rotation: T,
    foods: Seq<Point<T>>,
    cells: Seq<T>,
) -> bool
    decreases foods.len(),
{
    if foods.len() == 0 {
        cells == Seq::new(eye.cell_count() as nat, |c: int| zero)
    } else {
        exists|earlier: Seq<T>|
            seen(locate, zero, accumulate, eye, position, rotation, foods.drop_last(), earlier)
                && #[trigger] noticed(
                locate,
                accumulate,
                eye,
                position,
                rotation,
                foods.last(),
                earlier,
                cells,
            )
    }
}

/// Whether `locate` and `accumulate` are functions of what they are
/// handed: each gives one answer at most.
pub open spec fn sees_as_a_function<
    T,
    L: Fn(&Eye<T>, Point<T>, T, Point<T>) -> Option<(usize, T)>,
    A: Fn(T, T) -> T,
>(locate: L, accumulate: A) -> bool {
    &&& forall|
        eye: &Eye<T>,
        from: Point<T>,
        heading: T,
        food: Point<T>,
        found: Option<(usize, T)>,
        other: Option<(usize, T)>,
    |
        #![trigger
            call_ensures(locate, (eye, from, heading, food), found),
            call_ensures(locate, (eye, from, heading, food), other)]
        call_ensures(locate, (eye, from, heading, food), found) && call_ensures(
            locate,
            (eye, from, heading, food),
            other,
        ) ==> found == other
    &&& forall|held: T, energy: T, sum: T, other: T|
        #![trigger
            call_ensures(accumulate, (held, energy), sum),
            call_ensures(accumulate, (held, energy), other)]
        call_ensures(accumulate, (held, energy), sum) && call_ensures(
            accumulate,
            (held, energy),
            other,
        ) ==> sum == other
}

/// An eye whose kernels are functions sees one thing at most: what it sees
/// is determined by where it is, where it heads and where the food lies.
pub proof fn lemma_seen_as_a_function<
    T,
    L: Fn(&Eye<T>, Point<T>, T, Point<T>) -> Option<(usize, T)>,
    A: Fn(T, T) -> T,
>(
    locate: L,
    zero: T,
    accumulate: A,
    eye: Eye<T>,
    position: Point<T>,
    rotation: T,
    foods: Seq<Point<T>>,
    cells: Seq<T>,
    others: Seq<T>,
)
    requires
        eye.cell_count() > 0,
        sees_as_a_function(locate, accumulate),
        seen(locate, zero, accumulate, eye, position, rotation, foods, cells),
        seen(locate, zero, accumulate, eye, position, rotation, foods, others),
    ensures
        cells == others,
    decreases foods.len(),
{
    if foods.len() > 0 {
        let earlier = choose|earlier: Seq<T>|
            seen(locate, zero, accumulate, eye, position, rotation, foods.drop_last(), earlier)
                && #[trigger] noticed(
                locate,
                accumulate,
                eye,
                position,
                rotation,
                foods.last(),
                earlier,
                cells,
            );
        let second = choose|second: Seq<T>|
            seen(locate, zero, accumulate, eye, position, rotation, foods.drop_last(), second)
                && #[trigger] noticed(
                locate,
                accumulate,
                eye,
                position,
                rotation,
                foods.last(),
                second,
                others,
            );
        lemma_seen_as_a_function(
            locate,
            zero,
            accumulate,
            eye,
            position,
            rotation,
            foods.drop_last(),
            earlier,
            second,
        );
        lemma_seen_len(
            locate,
            zero,
            accumulate,
            eye,
            position,
            rotation,
            foods.drop_last(),
            earlier,
        );
        assert(forall|cell: usize| 0 <= #[trigger] bin(eye, cell) < earlier.len());
        assert(cells =~= others);
    }
}

/// What an eye sees has one value per cell.
pub proof fn lemma_seen_len<
    T,
    L: Fn(&Eye<T>, Point<T>, T, Point<T>) -> Option<(usize, T)>,
    A: Fn(T, T) -> T,
>(
    locate: L,
    zero: T,
    accumulate: A,
    eye: Eye<T>,
    position: Point<T>,
    rotation: T,
    foods: Seq<Point<T>>,
    cells: Seq<T>,
)
    requires
        eye.cell_count() > 0,
        seen(locate, zero, accumulate, eye, position, rotation, foods, cells),
    ensures
        cells.len() == eye.cell_count(),
    decreases foods.len(),
{
    if foods.len() > 0 {
        let earlier = choose|earlier: Seq<T>|
            seen(locate, zero, accumulate, eye, position, rotation, foods.drop_last(), earlier)
                && #[trigger] noticed(
                locate,
                accumulate,
                eye,
                position,
                rotation,
                foods.last(),
                earlier,
                cells,
            );
        lemma_seen_len(
            locate,
            zero,
            accumulate,
            eye,
            position,
            rotation,
            foods.drop_last(),
            earlier,
        );
        assert(forall|cell: usize| 0 <= #[trigger] bin(eye, cell) < earlier.len());
    }
}

/// A cell into which no food falls holds `zero`, whatever falls into the
/// others: where `locate` finds every piece of `foods` out of sight or in
/// another cell than `cell`, the eye sees `zero` in `cell`.
pub proof fn lemma_empty_cell<
    T,
    L: Fn(&Eye<T>, Point<T>, T, Point<T>) -> Option<(usize, T)>,
    A: Fn(T, T) -> T,
>(
    locate: L,
    zero: T,
    accumulate: A,
    eye: Eye<T>,
    position: Point<T>,
    rotation: T,
    foods: Seq<Point<T>>,
    cells: Seq<T>,
    cell: int,
)
    requires
        eye.cell_count() > 0,
        0 <= cell < eye.cell_count(),
        forall|j: int, found: Option<(usize, T)>|
            0 <= j < foods.len() && #[trigger] call_ensures(
                locate,
                (&eye, position, rotation, foods[j]),
                found,
            ) ==> found is None || bin(eye, (found->0).0) != cell,
        seen(locate, zero, accumulate, eye, position, rotation, foods, cells),
    ensures
        cells.len() == eye.cell_count(),
        cells[cell] == zero,
    decreases foods.len(),
{
    if foods.len() > 0 {
        let earlier = choose|earlier: Seq<T>|
            seen(locate, zero, accumulate, eye, position, rotation, foods.drop_last(), earlier)
                && #[trigger] noticed(
                locate,
                accumulate,
                eye,
                position,
                rotation,
                foods.last(),
                earlier,
                cells,
            );
        assert forall|j: int, found: Option<(usize, T)>|
            0 <= j < foods.drop_last().len() && #[trigger] call_ensures(
                locate,
                (&eye, position, rotation, foods.drop_last()[j]),
                found,
            ) implies found is None || bin(eye, (found->0).0) != cell by {
            assert(foods.drop_last()[j] == foods[j]);
        }
        lemma_empty_cell(
            locate,
            zero,
            accumulate,
            eye,
            position,
            rotation,
            foods.drop_last(),
            earlier,
            cell,
        );
        assert(foods.last() == foods[foods.len() - 1]);
        assert(forall|at: usize| 0 <= #[trigger] bin(eye, at) < earlier.len());
    }
}

/// Food that is out of sight leaves nothing in the eye: where `locate`
/// finds every piece of `foods` out of sight, be it too far or beside the
/// field of view, every cell holds `zero`, however many pieces there are.
pub proof fn lemma_seen_nothing<
    T,
    L: Fn(&Eye<T>, Point<T>, T, Point<T>) -> Option<(usize, T)>,
    A: Fn(T, T) -> T,
>(
    locate: L,
    zero: T,
    accumulate: A,
    eye: Eye<T>,
    position: Point<T>,
    rotation: T,
    foods: Seq<Point<T>>,
    cells: Seq<T>,
)
    requires
        forall|j: int, found: Option<(usize, T)>|
            0 <= j < foods.len() && #[trigger] call_ensures(
                locate,
                (&eye, position, rotation, foods[j]),
                found,
            ) ==> found is None,
        seen(locate, zero, accumulate, eye, position, rotation, foods, cells),
    ensures
        cells == Seq::new(eye.cell_count() as nat, |c: int| zero),
    decreases foods.len(),
{
    if foods.len() > 0 {
        let earlier = choose|earlier: Seq<T>|
            seen(locate, zero, accumulate, eye, position, rotation, foods.drop_last(), earlier)
                && #[trigger] noticed(
                locate,
                accumulate,
                eye,
                position,
                rotation,
                foods.last(),
                earlier,
                cells,
            );
        assert forall|j: int, found: Option<(usize, T)>|
            0 <= j < foods.drop_last().len() && #[trigger] call_ensures(
                locate,
                (&eye, position, rotation, foods.drop_last()[j]),
                found,
            ) implies found is None by {
            assert(foods.drop_last()[j] == foods[j]);
        }
        lemma_seen_nothing(
            locate,
            zero,
            accumulate,
            eye,
            position,
            rotation,
            foods.drop_last(),
            earlier,
        );
        assert(foods.last() == foods[foods.len() - 1]);
    }
}

/// A single piece of food is seen in one cell at most: either every cell
/// holds `zero`, or one cell holds what `accumulate` made of `zero` and the energy
/// of the food, and every other cell holds `zero`. Food that `locate`
/// finds out of sight leaves `zero` in every cell.
pub proof fn lemma_seen_one<
    T,
    L: Fn(&Eye<T>, Point<T>, T, Point<T>) -> Option<(usize, T)>,
    A: Fn(T, T) -> T,
>(
    locate: L,
    zero: T,
    accumulate: A,
    eye: Eye<T>,
    position: Point<T>,
    rotation: T,
    food: Point<T>,
    cells: Seq<T>,
)
    requires
        eye.cell_count() > 0,
        seen(locate, zero, accumulate, eye, position, rotation, seq![food], cells),
    ensures
        cells.len() == eye.cell_count(),
        ({
            ||| call_ensures(locate, (&eye, position, rotation, food), None) && forall|c: int|
                0 <= c < cells.len() ==> cells[c] == zero
            ||| exists|cell: usize, energy: T|
                {
                    &&& #[trigger] call_ensures(
                        locate,
                        (&eye, position, rotation, food),
                        Some((cell, energy)),
                    )
                    &&& call_ensures(accumulate, (zero, energy), cells[bin(eye, cell)])
                    &&& forall|c: int|
                        0 <= c < cells.len() && c != bin(eye, cell) ==> cells[c] == zero
                }
        }),
{
    let foods = seq![food];
    let earlier = choose|earlier: Seq<T>|
        seen(locate, zero, accumulate, eye, position, rotation, foods.drop_last(), earlier)
            && #[trigger] noticed(
            locate,
            accumulate,
            eye,
            position,
            rotation,
            foods.last(),
            earlier,
            cells,
        );
    assert(foods.drop_last().len() == 0);
    assert(foods.last() == food);
    assert(earlier == Seq::new(eye.cell_count() as nat, |c: int| zero));
    lemma_seen_len(locate, zero, accumulate, eye, position, rotation, foods, cells);
}

impl<T: Copy> Eye<T> {
    /// What the eye sees of `foods` from `position` when it heads along
    /// `rotation`: one value per cell. Every cell starts at `zero`. Each
    /// piece of food, in order, is handed to `locate`, which says that it
    /// is out of sight, or in which cell it falls and with what energy;
    /// the last cell stands for every cell behind it; and `accumulate` puts the
    /// energy on what the cell holds. A cell into which no food falls
    /// holds `zero`.
    pub fn process_vision<
        L: Fn(&Eye<T>, Point<T>, T, Point<T>) -> Option<(usize, T)>,
        A: Fn(T, T) -> T,
    >(
        &self,
        position: Point<T>,
        rotation: T,
        foods: &[Food<T>],
        locate: &L,
        zero: T,
        accumulate: &A,
    ) -> (cells: Vec<T>)
        requires
            forall|eye: &Eye<T>, from: Point<T>, heading: T, food: Point<T>|
                call_requires(*locate, (eye, from, heading, food)),
            forall|held: T, energy: T| call_requires(*accumulate, (held, energy)),
        ensures
            cells@.len() == self.cell_count(),
            seen(
                *locate,
                zero,
                *accumulate,
                *self,
                position,
                rotation,
                Seq::new(foods@.len(), |j: int| foods@[j]@),
                cells@,
            ),
    {
        proof {
            use_type_invariant(self);
        }
        let ghost shown = Seq::new(foods@.len(), |j: int| foods@[j]@);
        let mut cells: Vec<T> = Vec::new();
        let mut c: usize = 0;
        while c < self.cells
            invariant
                0 <= c <= self.cells,
                cells@ =~= Seq::new(c as nat, |c: int| zero),
            decreases self.cells - c,
        {
            cells.push(zero);
            c += 1;
        }
        let mut j: usize = 0;
        while j < foods.len()
            invariant
                0 <= j <= foods@.len(),
                self.cells > 0,
                self.cells == self.cell_count(),
                cells@.len() == self.cells,
                shown == Seq::new(foods@.len(), |j: int| foods@[j]@),
                forall|eye: &Eye<T>, from: Point<T>, heading: T, food: Point<T>|
                    call_requires(*locate, (eye, from, heading, food)),
                forall|held: T, energy: T| call_requires(*accumulate, (held, energy)),
                seen(
                    *locate,
                    zero,
                    *accumulate,
                    *self,
                    position,
                    rotation,
                    shown.take(j as int),
                    cells@,
                ),
            decreases foods@.len() - j,
        {
            let ghost earlier = cells@;
            let food = foods[j].position();
            match locate(self, position, rotation, food) {
                Some((cell, energy)) => {
                    let at: usize = if cell < self.cells {
                        cell
                    } else {
                        self.cells - 1
                    };
                    let held = cells[at];
                    let sum = accumulate(held, energy);
                    cells.set(at, sum);
                    proof {
                        assert(at == bin(*self, cell));
                        assert(call_ensures(
                            *locate,
                            (self, position, rotation, food),
                            Some((cell, energy)),
                        ));
                    }
                },
                None => {},
            }
            proof {
                let now = shown.take(j + 1);
                assert(now.drop_last() =~= shown.take(j as int));
                assert(now.last() == food);
                assert(noticed(
                    *locate,
                    *accumulate,
                    *self,
                    position,
                    rotation,
                    now.last(),
                    earlier,
                    cells@,
                ));
            }
            j += 1;
        }
        proof {
            assert(shown.take(foods@.len() as int) =~= shown);
        }
        cells
    }
}

} // verus!
