//! Scalar values: the bits of a binary64 number, and the order used to rank them.

use vstd::prelude::*;
use crate::random::{Draw, RandomSource};

verus! {

/// The binary operators of the expression language.
#[derive(Clone, Copy, PartialEq, Eq, Structural, Debug)]
pub enum BinaryOp {
    Add,
    Sub,
    Mul,
    Div,
    Pow,
}

/// The sign bit of a binary64 encoding.
pub const SIGN_BIT: u64 = 0x8000_0000_0000_0000;

/// The encoding of positive infinity: every encoding whose magnitude is larger is not a number.
pub const INFINITY_BITS: u64 = 0x7ff0_0000_0000_0000;

/// The encoding of negative infinity, the lowest value of the ranking order.
pub const NEGATIVE_INFINITY_BITS: u64 = 0xfff0_0000_0000_0000;

/// The encoding of positive zero.
pub const ZERO_BITS: u64 = 0;

/// What is left of an encoding when its sign bit is cleared.
pub open spec fn magnitude_of(bits: u64) -> int {
    if bits >= SIGN_BIT {
        bits - SIGN_BIT
    } else {
        bits as int
    }
}

/// Whether an encoding stands for "not a number": all exponent bits set, and a fraction bit.
pub open spec fn is_nan_bits(bits: u64) -> bool {
    magnitude_of(bits) > INFINITY_BITS
}

/// The place of an encoding in the ranking order: its magnitude, negated under the sign bit.
/// Among encodings of numbers this is the order of the reals they stand for, with both
/// zeros at 0.
pub open spec fn rank_of(bits: u64) -> int {
    if bits >= SIGN_BIT {
        -magnitude_of(bits)
    } else {
        magnitude_of(bits)
    }
}

/// A function that can be asked for every binary operation on every pair of numbers.
pub open spec fn is_total<A: Fn(BinaryOp, Number, Number) -> Number>(arith: A) -> bool {
    forall|op: BinaryOp, a: Number, b: Number| call_requires(arith, (op, a, b))
}

/// A real number, held as the 64 bits of its binary64 encoding.
#[derive(Clone, Copy, PartialEq, Eq, Structural, Debug)]
pub struct Number {
    pub inner: u64,
}

impl Number {
    /// The encoding.
    pub open spec fn view(&self) -> u64 {
        self.inner
    }

    /// The place of this number in the ranking order.
    pub open spec fn rank(&self) -> int {
        rank_of(self@)
    }

    /// Whether the encoding stands for "not a number".
    pub open spec fn is_nan_spec(&self) -> bool {
        is_nan_bits(self@)
    }

    /// The number with the given encoding.
    pub fn new(number: u64) -> (n: Number)
        ensures
            n@ == number,
    {
        Number { inner: number }
    }

    /// The binary64 encoding of the number.
    pub fn as_f64(&self) -> (bits: u64)
        ensures
            bits == self@,
    {
        self.inner
    }

    /// Positive zero.
    pub fn zero() -> (n: Number)
        ensures
            n@ == ZERO_BITS,
    {
        Number { inner: ZERO_BITS }
    }

    /// Negative infinity: no number ranks below it.
    pub fn lowest() -> (n: Number)
        ensures
            n@ == NEGATIVE_INFINITY_BITS,
            !n.is_nan_spec(),
    {
        Number { inner: NEGATIVE_INFINITY_BITS }
    }

    /// Whether the encoding stands for "not a number".
    #[verifier::when_used_as_spec(is_nan_spec)]
    pub fn is_nan(&self) -> (nan: bool)
        ensures
            nan == self.is_nan_spec(),
    {
        let magnitude = if self.inner >= SIGN_BIT {
            self.inner - SIGN_BIT
        } else {
            self.inner
        };
        magnitude > INFINITY_BITS
    }

    /// The rank as a machine integer.
    pub fn rank_key(&self) -> (key: i64)
        ensures
            key == self.rank(),
    {
        if self.inner >= SIGN_BIT {
            let magnitude: u64 = self.inner - SIGN_BIT;
            0 - (magnitude as i64)
        } else {
            self.inner as i64
        }
    }

    /// The number itself, or negative infinity in place of "not a number".
    pub open spec fn sanitized_spec(self) -> Number {
        if self.is_nan_spec() {
            Number { inner: NEGATIVE_INFINITY_BITS }
        } else {
            self
        }
    }

    /// A fresh uniform draw from `rng`.
    pub fn random<U: Fn() -> Number>(rng: &mut RandomSource<U>) -> (n: Number)
        requires
            old(rng).ready(),
        ensures
            old(rng).yields(n),
            final(rng).unit() == old(rng).unit(),
            final(rng).drawn() == old(rng).drawn().push(Draw::Real(n)),
    {
        rng.sample()
    }

    /// The sum that `arith` gives.
    pub fn add<A: Fn(BinaryOp, Number, Number) -> Number>(&self, other: Number, arith: &A) -> (r: Number)
        requires
            call_requires(*arith, (BinaryOp::Add, *self, other)),
        ensures
            call_ensures(*arith, (BinaryOp::Add, *self, other), r),
    {
        arith(BinaryOp::Add, *self, other)
    }

    /// The difference that `arith` gives.
    pub fn sub<A: Fn(BinaryOp, Number, Number) -> Number>(&self, other: Number, arith: &A) -> (r: Number)
        requires
            call_requires(*arith, (BinaryOp::Sub, *self, other)),
        ensures
            call_ensures(*arith, (BinaryOp::Sub, *self, other), r),
    {
        arith(BinaryOp::Sub, *self, other)
    }

    /// The product that `arith` gives.
    pub fn mul<A: Fn(BinaryOp, Number, Number) -> Number>(&self, other: Number, arith: &A) -> (r: Number)
        requires
            call_requires(*arith, (BinaryOp::Mul, *self, other)),
        ensures
            call_ensures(*arith, (BinaryOp::Mul, *self, other), r),
    {
        arith(BinaryOp::Mul, *self, other)
    }

    /// The quotient that `arith` gives.
    pub fn div<A: Fn(BinaryOp, Number, Number) -> Number>(&self, other: Number, arith: &A) -> (r: Number)
        requires
            call_requires(*arith, (BinaryOp::Div, *self, other)),
        ensures
            call_ensures(*arith, (BinaryOp::Div, *self, other), r),
    {
        arith(BinaryOp::Div, *self, other)
    }

    /// The power that `arith` gives.
    pub fn pow<A: Fn(BinaryOp, Number, Number) -> Number>(&self, other: Number, arith: &A) -> (r: Number)
        requires
            call_requires(*arith, (BinaryOp::Pow, *self, other)),
        ensures
            call_ensures(*arith, (BinaryOp::Pow, *self, other), r),
    {
        arith(BinaryOp::Pow, *self, other)
    }
}

/// A value of the expression language. Numbers are its only kind.
#[derive(Clone, Copy, PartialEq, Eq, Structural, Debug)]
pub enum ValTree {
    Number(Number),
}

impl ValTree {
    /// The number held.
    pub open spec fn number(self) -> Number {
        match self {
            ValTree::Number(number) => number,
        }
    }

    /// The number held.
    pub fn as_number(&self) -> (n: Number)
        ensures
            n == self.number(),
    {
        match self {
            ValTree::Number(number) => *number,
        }
    }

    /// The binary64 encoding of the number held.
    pub fn as_f64(&self) -> (bits: u64)
        ensures
            bits == self.number()@,
    {
        match self {
            ValTree::Number(number) => number.as_f64(),
        }
    }

    /// What `arith` gives for `op` on two values.
    pub open spec fn combines<A: Fn(BinaryOp, Number, Number) -> Number>(
        arith: A,
        op: BinaryOp,
        left: ValTree,
        right: ValTree,
        out: ValTree,
    ) -> bool {
        call_ensures(arith, (op, left.number(), right.number()), out.number())
    }

    /// The sum that `arith` gives.
    pub fn add<A: Fn(BinaryOp, Number, Number) -> Number>(&self, other: ValTree, arith: &A) -> (r: ValTree)
        requires
            is_total(*arith),
        ensures
            Self::combines(*arith, BinaryOp::Add, *self, other, r),
    {
        match self {
            ValTree::Number(number) => ValTree::Number(number.add(other.as_number(), arith)),
        }
    }

    /// The difference that `arith` gives.
    pub fn sub<A: Fn(BinaryOp, Number, Number) -> Number>(&self, other: ValTree, arith: &A) -> (r: ValTree)
        requires
            is_total(*arith),
        ensures
            Self::combines(*arith, BinaryOp::Sub, *self, other, r),
    {
        match self {
            ValTree::Number(number) => ValTree::Number(number.sub(other.as_number(), arith)),
        }
    }

    /// The product that `arith` gives.
    pub fn mul<A: Fn(BinaryOp, Number, Number) -> Number>(&self, other: ValTree, arith: &A) -> (r: ValTree)
        requires
            is_total(*arith),
        ensures
            Self::combines(*arith, BinaryOp::Mul, *self, other, r),
    {
        match self {
            ValTree::Number(number) => ValTree::Number(number.mul(other.as_number(), arith)),
        }
    }

    /// The quotient that `arith` gives.
    pub fn div<A: Fn(BinaryOp, Number, Number) -> Number>(&self, other: ValTree, arith: &A) -> (r: ValTree)
        requires
            is_total(*arith),
        ensures
            Self::combines(*arith, BinaryOp::Div, *self, other, r),
    {
        match self {
            ValTree::Number(number) => ValTree::Number(number.div(other.as_number(), arith)),
        }
    }

    /// The power that `arith` gives.
    pub fn pow<A: Fn(BinaryOp, Number, Number) -> Number>(&self, other: ValTree, arith: &A) -> (r: ValTree)
        requires
            is_total(*arith),
        ensures
            Self::combines(*arith, BinaryOp::Pow, *self, other, r),
    {
        match self {
            ValTree::Number(number) => ValTree::Number(number.pow(other.as_number(), arith)),
        }
    }
}

/// The fraction bits of a binary64 encoding.
pub const FRACTION_BITS: u64 = 0x000f_ffff_ffff_ffff;

/// In terms of the fields of an encoding: the magnitude is all but the sign bit, and
/// "not a number" has every exponent bit set and some fraction bit.
pub proof fn lemma_encoding_fields(bits: u64)
    ensures
        magnitude_of(bits) == (bits & !SIGN_BIT),
        is_nan_bits(bits) <==> (bits & INFINITY_BITS) == INFINITY_BITS && (bits & FRACTION_BITS) != 0,
{
    assert(bits >= 0x8000_0000_0000_0000u64 ==> (bits & !0x8000_0000_0000_0000u64) == bits
        - 0x8000_0000_0000_0000u64) by (bit_vector);
    assert(bits < 0x8000_0000_0000_0000u64 ==> (bits & !0x8000_0000_0000_0000u64) == bits)
        by (bit_vector);
    assert((bits & !0x8000_0000_0000_0000u64) > 0x7ff0_0000_0000_0000u64 <==> (bits
        & 0x7ff0_0000_0000_0000u64) == 0x7ff0_0000_0000_0000u64 && (bits & 0x000f_ffff_ffff_ffffu64)
        != 0) by (bit_vector);
}

/// The ranking order follows the reals on the encodings of numbers: above zero a larger
/// encoding ranks higher, below zero a larger encoding ranks lower, every negative number
/// ranks under every positive one, and nothing that is a number ranks under negative infinity.
pub proof fn lemma_rank_order(a: Number, b: Number)
    ensures
        a@ < SIGN_BIT && b@ < SIGN_BIT ==> (a.rank() <= b.rank() <==> a@ <= b@),
        a@ >= SIGN_BIT && b@ >= SIGN_BIT ==> (a.rank() <= b.rank() <==> a@ >= b@),
        a@ >= SIGN_BIT && b@ < SIGN_BIT ==> a.rank() <= b.rank(),
        a.rank() == b.rank() <==> (a@ == b@ || (magnitude_of(a@) == 0 && magnitude_of(b@) == 0)),
        !a.is_nan_spec() ==> rank_of(NEGATIVE_INFINITY_BITS) <= a.rank(),
{
}

} // verus!
