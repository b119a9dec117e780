//! The source of chance: whole numbers from a seeded generator, reals from the caller.

use vstd::prelude::*;
use crate::values::Number;

verus! {

/// `SmallRng` of rand, carried as a value of which nothing is known.
#[verifier::external_type_specification]
#[verifier::external_body]
pub struct ExSmallRng(rand::rngs::SmallRng);

/// `SeedableRng::seed_from_u64` of rand, on `SmallRng`: a generator whose stream depends
/// on the seed alone. Nothing is claimed of the stream.
#[verifier::external_body]
fn seeded_generator(seed: u64) -> rand::rngs::SmallRng {
    rand::SeedableRng::seed_from_u64(seed)
}

/// `Rng::random_range` of rand, on an inclusive range of `usize`: the value lies in the
/// range. The call panics on an empty range, which the precondition leaves out.
#[verifier::external_body]
fn draw_between(generator: &mut rand::rngs::SmallRng, low: usize, high: usize) -> (r: usize)
    requires
        low <= high,
    ensures
        low <= r <= high,
{
    rand::Rng::random_range(generator, low..=high)
}

/// One value that a source has handed out.
#[derive(Clone, Copy, PartialEq, Eq, Structural, Debug)]
pub enum Draw {
    Whole(usize),
    Real(Number),
}

/// The whole number at a place of a stream of draws; 0 where there is none.
pub open spec fn whole_at(stream: Seq<Draw>, at: int) -> usize {
    if 0 <= at < stream.len() && stream[at] is Whole {
        stream[at]->Whole_0
    } else {
        0
    }
}

/// The real at a place of a stream of draws; zero where there is none.
pub open spec fn real_at(stream: Seq<Draw>, at: int) -> Number {
    if 0 <= at < stream.len() && stream[at] is Real {
        stream[at]->Real_0
    } else {
        Number { inner: 0 }
    }
}

/// `longer` begins with all of `shorter`.
pub open spec fn continues(shorter: Seq<Draw>, longer: Seq<Draw>) -> bool {
    &&& shorter.len() <= longer.len()
    &&& forall|i: int| 0 <= i < shorter.len() ==> longer[i] == shorter[i]
}

/// A source of uniform draws. Whole numbers come from a small seeded generator; a real
/// is whatever the function `unit` returns, which is meant to be uniform over [-1, 1).
/// The source remembers, for proofs only, every value it has handed out.
pub struct RandomSource<U: Fn() -> Number> {
    generator: rand::rngs::SmallRng,
    unit: U,
    drawn: Ghost<Seq<Draw>>,
}

impl<U: Fn() -> Number> RandomSource<U> {
    /// The function that is asked for reals.
    pub closed spec fn unit(self) -> U {
        self.unit
    }

    /// Every value handed out so far, in order.
    pub closed spec fn drawn(self) -> Seq<Draw> {
        self.drawn@
    }

    /// The function for reals can be called.
    pub open spec fn ready(self) -> bool {
        call_requires(self.unit(), ())
    }

    /// `n` is a real that the source may draw.
    pub open spec fn yields(self, n: Number) -> bool {
        call_ensures(self.unit(), (), n)
    }

    /// A source whose whole numbers follow from `seed`, and whose reals come from `unit`.
    pub fn seeded(seed: u64, unit: U) -> (source: Self)
        ensures
            source.unit() == unit,
            source.drawn() == Seq::<Draw>::empty(),
    {
        RandomSource { generator: seeded_generator(seed), unit, drawn: Ghost(Seq::empty()) }
    }

    /// A uniform whole number between `low` and `high`, both included.
    pub fn between(&mut self, low: usize, high: usize) -> (r: usize)
        requires
            low <= high,
        ensures
            low <= r <= high,
            final(self).unit() == old(self).unit(),
            final(self).drawn() == old(self).drawn().push(Draw::Whole(r)),
    {
        let r = draw_between(&mut self.generator, low, high);
        self.drawn = Ghost(self.drawn@.push(Draw::Whole(r)));
        r
    }

    /// A uniform whole number below `bound`.
    pub fn below(&mut self, bound: usize) -> (r: usize)
        requires
            bound >= 1,
        ensures
            r < bound,
            final(self).unit() == old(self).unit(),
            final(self).drawn() == old(self).drawn().push(Draw::Whole(r)),
    {
        self.between(0, bound - 1)
    }

    /// A real from the function `unit`.
    pub fn sample(&mut self) -> (n: Number)
        requires
            old(self).ready(),
        ensures
            old(self).yields(n),
            final(self).unit() == old(self).unit(),
            final(self).drawn() == old(self).drawn().push(Draw::Real(n)),
    {
        let n = (self.unit)();
        self.drawn = Ghost(self.drawn@.push(Draw::Real(n)));
        n
    }
}

} // verus!
