use vstd::prelude::*;

verus! {

/// A flat, ordered sequence of genes.
pub struct Chromosome<G> {
    genes: Vec<G>,
}

impl<G: Copy> Chromosome<G> {
    /// The genes, in order.
    pub closed spec fn view(&self) -> Seq<G> {
        self.genes@
    }

    /// Builds a chromosome holding `genes` in the order given.
    pub fn from_genes(genes: Vec<G>) -> (r: Self)
        ensures
            r@ == genes@,
    {
        Chromosome { genes }
    }

    /// Gives the genes back, in order.
    pub fn into_genes(self) -> (r: Vec<G>)
        ensures
            r@ == self@,
    {
        self.genes
    }

    pub fn len(&self) -> (r: usize)
        ensures
            r == self@.len(),
    {
        self.genes.len()
    }

    /// The gene at `index`.
    pub fn index(&self, index: usize) -> (r: G)
        requires
            index < self@.len(),
        ensures
            r == self@[index as int],
    {
        self.genes[index]
    }

    /// A copy of the genes, in order.
    pub fn iter(&self) -> (r: Vec<G>)
        ensures
            r@ == self@,
    {
        let mut r: Vec<G> = Vec::new();
        let mut i: usize = 0;
        while i < self.genes.len()
            invariant
                i <= self.genes@.len(),
                r@ == self.genes@.subrange(0, i as int),
            decreases self.genes@.len() - i,
        {
            r.push(self.genes[i]);
            i += 1;
        }
        assert(r@ =~= self.genes@);
        r
    }

    /// Replaces the gene at `index`, leaving the others as they are.
    pub fn set(&mut self, index: usize, gene: G)
        requires
            index < old(self)@.len(),
        ensures
            final(self)@ == old(self)@.update(index as int, gene),
    {
        self.genes.set(index, gene);
    }
}

} // verus!
