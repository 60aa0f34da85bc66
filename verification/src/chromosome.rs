//! Chromosomes: the genes of one individual, in order.

use vstd::prelude::*;

verus! {

/// An ordered sequence of genes.
#[derive(Clone, Debug)]
pub struct Chromosome<T> {
    genes: Vec<T>,
}

impl<T> View for Chromosome<T> {
    type V = Seq<T>;

    closed spec fn view(&self) -> Seq<T> {
        self.genes@
    }
}

impl<T> Chromosome<T> {
    /// The chromosome of the given genes.
    pub fn new(genes: Vec<T>) -> (chromosome: Self)
        ensures
            chromosome@ == genes@,
    {
        Chromosome { genes }
    }

    /// Number of genes.
    pub fn len(&self) -> (len: usize)
        ensures
            len == self@.len(),
    {
        self.genes.len()
    }

    /// The gene at `index`.
    pub fn index(&self, index: usize) -> (gene: &T)
        requires
            index < self@.len(),
        ensures
            *gene == self@[index as int],
    {
        &self.genes[index]
    }

    /// The genes, to read in order.
    pub fn iter(&self) -> (genes: &[T])
        ensures
            genes@ == self@,
    {
        self.genes.as_slice()
    }

    /// The genes, to change in place: as many as before stay.
    pub fn iter_mut(&mut self) -> (genes: &mut [T])
        ensures
            genes@ == old(self)@,
            final(genes)@ == final(self)@,
    {
        self.genes.as_mut_slice()
    }

    /// The genes, handed over.
    pub fn into_vec(self) -> (genes: Vec<T>)
        ensures
            genes@ == self@,
    {
        self.genes
    }
}

} // verus!
