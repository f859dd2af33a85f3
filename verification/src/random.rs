//! Random draws, with a ghost record of what was drawn.

use vstd::prelude::*;
use rand::RngExt;

verus! {

/// A record of the numbers that random draws have given, in the order they
/// were drawn. It exists only for the proofs: at run time it is empty, and
/// only a draw adds to it.
pub struct DrawRecord {
    drawn: Ghost<Seq<usize>>,
}

impl View for DrawRecord {
    type V = Seq<usize>;

    closed spec fn view(&self) -> Seq<usize> {
        self.drawn@
    }
}

impl DrawRecord {
    /// A record of no draws.
    pub fn new() -> (r: Self)
        ensures
            r@ == Seq::<usize>::empty(),
    {
        DrawRecord { drawn: Ghost(Seq::empty()) }
    }
}

impl Clone for DrawRecord {
    /// A record of the same draws.
    fn clone(&self) -> (r: Self)
        ensures
            r == *self,
    {
        DrawRecord { drawn: Ghost(self.drawn@) }
    }
}

/// A uniformly drawn number below `bound`, from the thread's random number
/// generator: `rand::rng().random_range(0..bound)`. rand documents that it
/// panics on an empty range (ruled out here) and returns a value of the
/// range; the thread generator also panics if the operating system cannot
/// seed it, which no condition here can rule out. Which value comes is left
/// open. The number drawn is appended to `record`, a ghost list that the
/// compiled program does not hold.
#[verifier::external_body]
pub(crate) fn random_below(record: &mut DrawRecord, bound: usize) -> (r: usize)
    requires
        bound > 0,
    ensures
        r < bound,
        final(record)@ == old(record)@.push(r),
{
    rand::rng().random_range(0..bound)
}

} // verus!
