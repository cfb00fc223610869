use rand::Rng as _;
use vstd::prelude::*;

verus! {

#[verifier::external_type_specification]
#[verifier::external_body]
pub struct ExThreadRng(rand::rngs::ThreadRng);

/// Calls `rand::thread_rng`.  Nothing is promised of the generator.
#[verifier::external_body]
fn thread_rng() -> rand::rngs::ThreadRng {
    rand::thread_rng()
}

/// Calls `Rng::gen_range(0..bound)`.  Trusted: the result lies in the range
/// (which must not be empty: `gen_range` panics on an empty one).  Which
/// number comes is left open: it is random.
#[verifier::external_body]
fn gen_index(rng: &mut rand::rngs::ThreadRng, bound: usize) -> (r: usize)
    requires
        bound > 0,
    ensures
        r < bound,
{
    rng.gen_range(0..bound)
}

/// The thread's random number generator, together with the record of every
/// number it has handed out, in order.  Its view is that record: the only
/// way to add to it is to draw a number.
pub struct Rng {
    inner: rand::rngs::ThreadRng,
    draws: Ghost<Seq<usize>>,
}

impl View for Rng {
    type V = Seq<usize>;

    closed spec fn view(&self) -> Seq<usize> {
        self.draws@
    }
}

impl Rng {
    /// The thread's generator, with nothing drawn from it yet.
    pub fn new() -> (rng: Rng)
        ensures
            rng@ == Seq::<usize>::empty(),
    {
        Rng { inner: thread_rng(), draws: Ghost(Seq::empty()) }
    }

    /// Draws a fresh random number below `bound`; the record gains it.
    pub fn draw(&mut self, bound: usize) -> (r: usize)
        requires
            bound > 0,
        ensures
            r < bound,
            final(self)@ == old(self)@.push(r),
    {
        let r = gen_index(&mut self.inner, bound);
        self.draws = Ghost(self.draws@.push(r));
        r
    }
}

} // verus!
