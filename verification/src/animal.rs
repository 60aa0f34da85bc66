//! Animals: a body in the world, an eye, a brain, and a count of meals.

use crate::chromosome::Chromosome;
use crate::eye::Eye;
use crate::food::Point;
use crate::network::{
    accepts, decode, drawn, flatten, lemma_decode_flatten, lemma_shaped_accepts, shaped,
    weight_count, LayerTopology, Network, NeuronView,
};
use rand_chacha::ChaCha8Rng;
use vstd::prelude::*;

verus! {

/// Where an animal is, where it heads and how fast it goes.
#[derive(Clone, Copy, Debug)]
pub struct Pose<T> {
    pub position: Point<T>,
    pub rotation: T,
    pub speed: T,
}

/// What an animal is.
pub struct AnimalView<T> {
    pub pose: Pose<T>,
    pub eye: Eye<T>,
    pub brain: Seq<Seq<NeuronView<T>>>,
    pub satiation: u32,
}

/// An animal.
pub struct Animal<T> {
    pose: Pose<T>,
    eye: Eye<T>,
    brain: Network<T>,
    satiation: u32,
}

impl<T> View for Animal<T> {
    type V = AnimalView<T>;

    closed spec fn view(&self) -> AnimalView<T> {
        AnimalView { pose: self.pose, eye: self.eye, brain: self.brain@, satiation: self.satiation }
    }
}

/// The topology of the brain of an animal whose eye has `cells` cells: one
/// input per cell, a hidden layer of twice as many neurons, and two
/// outputs, the change of speed and the change of rotation.
pub open spec fn brain_topology(cells: usize) -> Seq<LayerTopology> {
    seq![
        LayerTopology { neurons: cells },
        LayerTopology { neurons: (2 * cells) as usize },
        LayerTopology { neurons: 2 },
    ]
}

/// Number of genes of an animal whose eye has `cells` cells.
pub open spec fn genome_len(cells: usize) -> int {
    weight_count(brain_topology(cells))
}

/// Whether `animal` is well formed: its brain has the topology that goes
/// with its eye.
pub open spec fn well_formed<T>(animal: AnimalView<T>) -> bool {
    &&& 2 * animal.eye.cell_count() <= usize::MAX
    &&& shaped(animal.brain, brain_topology(animal.eye.cell_count()))
}

/// Whether `hatch` may give `pose`.
pub open spec fn hatched<T, H: Fn(&mut ChaCha8Rng) -> Pose<T>>(hatch: H, pose: Pose<T>) -> bool {
    exists|rng: &mut ChaCha8Rng| #[trigger] call_ensures(hatch, (rng,), pose)
}

/// Whether `animal` is as an animal is born: with the eye `eye`, a brain of
/// the topology that goes with it, a pose that `hatch` gave, and no meal
/// counted.
pub open spec fn newborn<T, H: Fn(&mut ChaCha8Rng) -> Pose<T>>(
    hatch: H,
    eye: Eye<T>,
    animal: AnimalView<T>,
) -> bool {
    &&& animal.satiation == 0
    &&& animal.eye == eye
    &&& well_formed(animal)
    &&& hatched(hatch, animal.pose)
}

impl<T: Copy> Animal<T> {
    /// An animal with the eye `eye`: first the genes of its brain are drawn
    /// by `draw`, in their order, then `hatch` gives its pose. It has eaten
    /// nothing.
    pub fn random<G: Fn(&mut ChaCha8Rng) -> T, H: Fn(&mut ChaCha8Rng) -> Pose<T>>(
        rng: &mut ChaCha8Rng,
        eye: Eye<T>,
        draw: &G,
        hatch: &H,
    ) -> (animal: Self)
        requires
            2 * eye.cell_count() <= usize::MAX,
            genome_len(eye.cell_count()) <= usize::MAX,
            forall|r: &mut ChaCha8Rng| call_requires(*draw, (r,)),
            forall|r: &mut ChaCha8Rng| call_requires(*hatch, (r,)),
        ensures
            newborn(*hatch, eye, animal@),
            forall|i: int|
                0 <= i < flatten(animal@.brain).len() ==> drawn(
                    *draw,
                    #[trigger] flatten(animal@.brain)[i],
                ),
    {
        let layers = match Self::topology(eye.cells()) {
            Some(layers) => layers,
            None => {
                assert(false);
                Vec::new()
            },
        };
        let brain = Network::random(rng, layers.as_slice(), draw);
        let pose = hatch(rng);
        proof {
            assert(hatched(*hatch, pose));
        }
        Animal { pose, eye, brain, satiation: 0 }
    }

    /// The topology of the brain of an animal whose eye has `cells` cells,
    /// or `None` where twice that number does not fit the machine's word.
    pub fn topology(cells: usize) -> (layers: Option<Vec<LayerTopology>>)
        ensures
            layers is Some <==> 2 * cells <= usize::MAX,
            layers is Some ==> layers->0@ == brain_topology(cells),
    {
        match cells.checked_mul(2) {
            Some(hidden) => {
                let mut layers: Vec<LayerTopology> = Vec::new();
                layers.push(LayerTopology { neurons: cells });
                layers.push(LayerTopology { neurons: hidden });
                layers.push(LayerTopology { neurons: 2 });
                proof {
                    assert(layers@ =~= brain_topology(cells));
                }
                Some(layers)
            },
            None => None,
        }
    }

    /// The animal with the given eye and pose whose brain is built from
    /// `chromosome`, and that has eaten nothing; or `None` where the
    /// chromosome has fewer or more genes than that brain takes.
    pub fn from_chromosome(
        eye: Eye<T>,
        pose: Pose<T>,
        chromosome: Chromosome<T>,
    ) -> (animal: Option<Self>)
        ensures
            animal is Some <==> 2 * eye.cell_count() <= usize::MAX && chromosome@.len()
                == genome_len(eye.cell_count()),
            animal is Some ==> animal->0@ == (AnimalView {
                pose,
                eye,
                brain: decode(brain_topology(eye.cell_count()), chromosome@),
                satiation: 0,
            }) && well_formed(animal->0@),
    {
        let layers = match Self::topology(eye.cells()) {
            Some(layers) => layers,
            None => {
                return None;
            },
        };
        match Network::try_from_weights(layers.as_slice(), chromosome.into_vec()) {
            Some(brain) => Some(Animal { pose, eye, brain, satiation: 0 }),
            None => None,
        }
    }

    /// The genes of the animal's brain.
    pub fn as_chromosome(&self) -> (chromosome: Chromosome<T>)
        ensures
            chromosome@ == flatten(self@.brain),
    {
        Chromosome::new(self.brain.weights())
    }

    /// Where the animal is, where it heads and how fast it goes.
    pub fn pose(&self) -> (pose: Pose<T>)
        ensures
            pose == self@.pose,
    {
        self.pose
    }

    /// Where the animal is.
    pub fn position(&self) -> (position: Point<T>)
        ensures
            position == self@.pose.position,
    {
        self.pose.position
    }

    /// Where the animal heads.
    pub fn rotation(&self) -> (rotation: T)
        ensures
            rotation == self@.pose.rotation,
    {
        self.pose.rotation
    }

    /// How fast the animal goes.
    pub fn speed(&self) -> (speed: T)
        ensures
            speed == self@.pose.speed,
    {
        self.pose.speed
    }

    /// The eye of the animal.
    pub fn eye(&self) -> (eye: &Eye<T>)
        ensures
            *eye == self@.eye,
    {
        &self.eye
    }

    /// The brain of the animal.
    pub fn brain(&self) -> (brain: &Network<T>)
        ensures
            brain@ == self@.brain,
    {
        &self.brain
    }

    /// How often the animal has eaten in this generation.
    pub fn satiation(&self) -> (satiation: u32)
        ensures
            satiation == self@.satiation,
    {
        self.satiation
    }

    /// Counts one more meal.
    pub(crate) fn eat(&mut self)
        requires
            old(self)@.satiation < u32::MAX,
        ensures
            final(self)@ == (AnimalView { satiation: (old(self)@.satiation + 1) as u32, ..old(self)@ }),
    {
        self.satiation = self.satiation + 1;
    }

    /// Gives the animal a new speed and a new rotation.
    pub(crate) fn steer(&mut self, speed: T, rotation: T)
        ensures
            final(self)@ == (AnimalView {
                pose: Pose { position: old(self)@.pose.position, rotation, speed },
                ..old(self)@
            }),
    {
        self.pose.speed = speed;
        self.pose.rotation = rotation;
    }

    /// Puts the animal at `position`.
    pub(crate) fn relocate(&mut self, position: Point<T>)
        ensures
            final(self)@ == (AnimalView {
                pose: Pose {
                    position,
                    rotation: old(self)@.pose.rotation,
                    speed: old(self)@.pose.speed,
                },
                ..old(self)@
            }),
    {
        self.pose.position = position;
    }
}

/// An animal that is well formed has a brain that takes one input per cell
/// of its eye, gives two outputs, and has as many genes as its eye asks.
pub proof fn lemma_well_formed_brain<T>(animal: AnimalView<T>)
    requires
        well_formed(animal),
    ensures
        accepts(animal.brain, animal.eye.cell_count() as nat),
        animal.brain.len() == 2,
        animal.brain.last().len() == 2,
        flatten(animal.brain).len() == genome_len(animal.eye.cell_count()),
{
    let topology = brain_topology(animal.eye.cell_count());
    lemma_shaped_accepts(animal.brain, topology);
    lemma_decode_flatten(topology, animal.brain);
}

} // verus!
