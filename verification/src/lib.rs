//! Evolution of small arithmetic expressions toward a caller-supplied objective.
//!
//! Real numbers never enter this crate as machine reals: a [`values::Number`]
//! carries the 64 bits of an IEEE 754 binary64 value, and whatever has to be
//! computed on reals (sums, products, a uniform draw) is asked of a function
//! that the caller hands in. Everything else (the shape of expressions, how
//! they are built, changed and ranked) is decided and proved here.

use vstd::prelude::*;

pub mod evolution;
pub mod expr;
pub mod random;
pub mod ranking;
pub mod render;
pub mod values;

verus! {

/// Moves a value to the heap.
pub trait IntoBox: Sized {
    fn boxed(self) -> (b: Box<Self>)
        ensures
            *b == self,
    {
        Box::new(self)
    }
}

impl<T: Sized> IntoBox for T {

}

} // verus!
