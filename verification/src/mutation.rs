//! Mutation: how the chromosome of a child is changed by chance.

use crate::chromosome::Chromosome;
use crate::random::gen_ratio;
use rand_chacha::ChaCha8Rng;
use vstd::prelude::*;

verus! {

/// A way to change the genes of a child in place. The child has as many
/// genes after as before.
pub trait MutationMethod<T> {
    /// Whether this method can be used as it stands: it can, unless a
    /// method says otherwise.
    open spec fn ready(&self) -> bool {
        true
    }

    /// Whether this method may make `after` of `before`, which has as many
    /// genes: anything, unless a method says otherwise.
    open spec fn mutates(&self, before: Seq<T>, after: Seq<T>) -> bool {
        true
    }

    /// Changes genes of `child`.
    fn mutate(&self, rng: &mut ChaCha8Rng, child: &mut Chromosome<T>)
        requires
            self.ready(),
        ensures
            final(child)@.len() == old(child)@.len(),
            self.mutates(old(child)@, final(child)@),
    ;
}

/// Changes each gene with a given chance, by an amount that a kernel
/// draws: the kernel is handed the generator, the gene, and whether the
/// change is to be taken off the gene or put on it, and gives the changed
/// gene.
pub struct GaussianMutation<F> {
    chance_numerator: u32,
    chance_denominator: u32,
    nudge: F,
}

impl<F> GaussianMutation<F> {
    /// The chance is a part of a whole that is not nothing.
    #[verifier::type_invariant]
    spec fn chance_is_a_ratio(self) -> bool {
        0 <= self.chance_numerator <= self.chance_denominator && self.chance_denominator > 0
    }

    /// The chance that a gene is changed: the first in the second.
    pub closed spec fn chance(&self) -> (u32, u32) {
        (self.chance_numerator, self.chance_denominator)
    }

    /// The kernel that changes a gene.
    pub closed spec fn kernel(&self) -> F {
        self.nudge
    }
}

/// Whether `after` is what mutation by `nudge` may make of `before`: as
/// many genes, each of them either the gene that was there or what `nudge`
/// gave for that gene.
pub open spec fn mutated<T, F: Fn(&mut ChaCha8Rng, T, bool) -> T>(
    nudge: F,
    before: Seq<T>,
    after: Seq<T>,
) -> bool {
    &&& after.len() == before.len()
    &&& forall|i: int|
        0 <= i < before.len() ==> #[trigger] after[i] == before[i] || nudged(
            nudge,
            before[i],
            after[i],
        )
}

/// Whether `after` is what `nudge` may give for the gene `before`.
pub open spec fn nudged<T, F: Fn(&mut ChaCha8Rng, T, bool) -> T>(
    nudge: F,
    before: T,
    after: T,
) -> bool {
    exists|rng: &mut ChaCha8Rng, negative: bool| #[trigger]
        call_ensures(nudge, (rng, before, negative), after)
}

/// Whether `out` is what becomes of `gene` once the coins have fallen:
/// the gene itself where the draw with the chance has missed; where it
/// has hit, what `nudge` gave for the gene, asked to take the change off
/// it where `negative` holds and to put it on where it does not.
pub open spec fn touched<T, F: Fn(&mut ChaCha8Rng, T, bool) -> T>(
    nudge: F,
    gene: T,
    negative: bool,
    hit: bool,
    out: T,
) -> bool {
    if hit {
        exists|rng: &mut ChaCha8Rng| #[trigger] call_ensures(nudge, (rng, gene, negative), out)
    } else {
        out == gene
    }
}

/// Mutation keeps every gene within what the kernel keeps it within: where
/// `within` holds of every gene and itself, and of every gene and what
/// `nudge` gives for it, it holds of every gene before and after. So a
/// kernel that shifts a gene by some amount at most makes a mutation that
/// shifts every gene by that amount at most, whatever the chance.
pub proof fn lemma_mutated_within<T, F: Fn(&mut ChaCha8Rng, T, bool) -> T>(
    nudge: F,
    within: spec_fn(T, T) -> bool,
    before: Seq<T>,
    after: Seq<T>,
)
    requires
        forall|gene: T| #[trigger] within(gene, gene),
        forall|rng: &mut ChaCha8Rng, gene: T, negative: bool, out: T|
            #[trigger] call_ensures(nudge, (rng, gene, negative), out) ==> within(gene, out),
        mutated(nudge, before, after),
    ensures
        after.len() == before.len(),
        forall|i: int| 0 <= i < before.len() ==> within(before[i], #[trigger] after[i]),
{
}

/// Mutation by a kernel that gives every gene back changes nothing,
/// whatever the chance: such is a kernel that shifts by nothing.
pub proof fn lemma_mutated_by_identity<T, F: Fn(&mut ChaCha8Rng, T, bool) -> T>(
    nudge: F,
    before: Seq<T>,
    after: Seq<T>,
)
    requires
        forall|rng: &mut ChaCha8Rng, gene: T, negative: bool, out: T|
            #[trigger] call_ensures(nudge, (rng, gene, negative), out) ==> out == gene,
        mutated(nudge, before, after),
    ensures
        after == before,
{
    assert(after =~= before);
}

/// Whether `after` is what mutation by `nudge` with a chance of
/// `chance.0` in `chance.1` may make of `before`: every gene is the gene
/// that was there or what `nudge` gave for it; it is the gene that was
/// there where the chance is nothing, and what `nudge` gave where the
/// chance is the whole.
pub open spec fn mutated_by_chance<T, F: Fn(&mut ChaCha8Rng, T, bool) -> T>(
    nudge: F,
    chance: (u32, u32),
    before: Seq<T>,
    after: Seq<T>,
) -> bool {
    &&& mutated(nudge, before, after)
    &&& chance.0 == 0 ==> after == before
    &&& chance.0 == chance.1 ==> forall|i: int|
        0 <= i < before.len() ==> nudged(nudge, before[i], #[trigger] after[i])
}

impl<F> GaussianMutation<F> {
    /// The mutation that changes a gene with a chance of
    /// `chance_numerator` in `chance_denominator`, by `nudge`, which takes
    /// every gene.
    pub fn new<T: Copy>(chance_numerator: u32, chance_denominator: u32, nudge: F) -> (mutation: Self)
        where
            F: Fn(&mut ChaCha8Rng, T, bool) -> T,
        requires
            chance_numerator <= chance_denominator,
            chance_denominator > 0,
            forall|r: &mut ChaCha8Rng, gene: T, negative: bool|
                call_requires(nudge, (r, gene, negative)),
        ensures
            mutation.chance() == (chance_numerator, chance_denominator),
            mutation.kernel() == nudge,
            MutationMethod::<T>::ready(&mutation),
    {
        GaussianMutation { chance_numerator, chance_denominator, nudge }
    }

    /// What becomes of one gene once the coins have fallen: `negative` is
    /// how the fair coin fell, `hit` whether the draw with the chance has
    /// hit. The gene is handed back where it has missed; where it has hit,
    /// the kernel is called, once, with the gene and `negative`, and what
    /// it gives is handed back.
    pub fn touch<T: Copy>(&self, rng: &mut ChaCha8Rng, gene: T, negative: bool, hit: bool) -> (out: T)
        where
            F: Fn(&mut ChaCha8Rng, T, bool) -> T,
        requires
            forall|r: &mut ChaCha8Rng, g: T, n: bool| call_requires(self.kernel(), (r, g, n)),
        ensures
            touched(self.kernel(), gene, negative, hit, out),
    {
        proof {
            assert(self.kernel() == self.nudge);
        }
        if hit {
            (self.nudge)(rng, gene, negative)
        } else {
            gene
        }
    }
}

impl<T: Copy, F: Fn(&mut ChaCha8Rng, T, bool) -> T> MutationMethod<T> for GaussianMutation<F> {
    /// The kernel takes every gene.
    open spec fn ready(&self) -> bool {
        forall|r: &mut ChaCha8Rng, gene: T, negative: bool|
            call_requires(self.kernel(), (r, gene, negative))
    }

    /// What mutation by the kernel with the chance may make.
    open spec fn mutates(&self, before: Seq<T>, after: Seq<T>) -> bool {
        mutated_by_chance(self.kernel(), self.chance(), before, after)
    }

    /// Changes genes of `child` in gene order. For each gene a fair coin
    /// says whether a change is to be taken off the gene, then a draw with
    /// the given chance says whether the gene is changed at all, and what
    /// `touch` makes of the gene and the two takes its place.
    fn mutate(&self, rng: &mut ChaCha8Rng, child: &mut Chromosome<T>)
        ensures
            mutated_by_chance(self.kernel(), self.chance(), old(child)@, final(child)@),
    {
        proof {
            use_type_invariant(self);
            assert(self.kernel() == self.nudge);
        }
        let genes = child.iter_mut();
        let mut i: usize = 0;
        while i < genes.len()
            invariant
                0 <= i <= genes@.len(),
                genes@.len() == old(child)@.len(),
                0 <= self.chance_numerator <= self.chance_denominator,
                self.chance_denominator > 0,
                forall|r: &mut ChaCha8Rng, gene: T, negative: bool|
                    call_requires(self.nudge, (r, gene, negative)),
                forall|k: int| i <= k < genes@.len() ==> genes@[k] == old(child)@[k],
                forall|k: int|
                    0 <= k < i ==> #[trigger] genes@[k] == old(child)@[k] || nudged(
                        self.nudge,
                        old(child)@[k],
                        genes@[k],
                    ),
                self.chance_numerator == 0 ==> genes@ == old(child)@,
                self.chance_numerator == self.chance_denominator ==> forall|k: int|
                    0 <= k < i ==> nudged(self.nudge, old(child)@[k], #[trigger] genes@[k]),
            decreases genes@.len() - i,
        {
            let negative = gen_ratio(rng, 1, 2);
            let hit = gen_ratio(rng, self.chance_numerator, self.chance_denominator);
            let gene = genes[i];
            let out = self.touch(rng, gene, negative, hit);
            genes[i] = out;
            proof {
                if hit {
                    assert(nudged(self.nudge, gene, out));
                }
            }
            i += 1;
        }
    }
}

} // verus!
