//! Expression trees: what they evaluate to, how they are grown at random and changed.

use vstd::prelude::*;
use crate::random::{continues, real_at, whole_at, Draw, RandomSource};
use crate::values::{is_total, BinaryOp, Number, ValTree, ZERO_BITS};

verus! {

/// An arithmetic expression over numbered inputs.
#[derive(PartialEq, Debug)]
pub enum ExprTree {
    /// The input with this number; zero where the input is missing.
    Index(usize),
    Constant(ValTree),
    Add(Box<ExprTree>, Box<ExprTree>),
    Sub(Box<ExprTree>, Box<ExprTree>),
    Mul(Box<ExprTree>, Box<ExprTree>),
    Div(Box<ExprTree>, Box<ExprTree>),
    Pow(Box<ExprTree>, Box<ExprTree>),
}

impl Clone for ExprTree {
    fn clone(&self) -> (copy: Self)
        ensures
            copy == *self,
        decreases *self,
    {
        match self {
            ExprTree::Index(idx) => ExprTree::Index(*idx),
            ExprTree::Constant(value) => ExprTree::Constant(*value),
            ExprTree::Add(left, right) => ExprTree::Add(
                Box::new((**left).clone()),
                Box::new((**right).clone()),
            ),
            ExprTree::Sub(left, right) => ExprTree::Sub(
                Box::new((**left).clone()),
                Box::new((**right).clone()),
            ),
            ExprTree::Mul(left, right) => ExprTree::Mul(
                Box::new((**left).clone()),
                Box::new((**right).clone()),
            ),
            ExprTree::Div(left, right) => ExprTree::Div(
                Box::new((**left).clone()),
                Box::new((**right).clone()),
            ),
            ExprTree::Pow(left, right) => ExprTree::Pow(
                Box::new((**left).clone()),
                Box::new((**right).clone()),
            ),
        }
    }
}

impl ExprTree {
    /// The operator at the root, if the root is no leaf.
    pub open spec fn operator(self) -> Option<BinaryOp> {
        match self {
            ExprTree::Index(_) => None,
            ExprTree::Constant(_) => None,
            ExprTree::Add(_, _) => Some(BinaryOp::Add),
            ExprTree::Sub(_, _) => Some(BinaryOp::Sub),
            ExprTree::Mul(_, _) => Some(BinaryOp::Mul),
            ExprTree::Div(_, _) => Some(BinaryOp::Div),
            ExprTree::Pow(_, _) => Some(BinaryOp::Pow),
        }
    }

    /// The left operand of an operator node.
    pub open spec fn left(self) -> ExprTree {
        match self {
            ExprTree::Add(left, _) | ExprTree::Sub(left, _) | ExprTree::Mul(left, _)
            | ExprTree::Div(left, _) | ExprTree::Pow(left, _) => *left,
            _ => self,
        }
    }

    /// The right operand of an operator node.
    pub open spec fn right(self) -> ExprTree {
        match self {
            ExprTree::Add(_, right) | ExprTree::Sub(_, right) | ExprTree::Mul(_, right)
            | ExprTree::Div(_, right) | ExprTree::Pow(_, right) => *right,
            _ => self,
        }
    }

    /// The node that applies `op` to two operands.
    pub open spec fn binary(op: BinaryOp, left: ExprTree, right: ExprTree) -> ExprTree {
        match op {
            BinaryOp::Add => ExprTree::Add(Box::new(left), Box::new(right)),
            BinaryOp::Sub => ExprTree::Sub(Box::new(left), Box::new(right)),
            BinaryOp::Mul => ExprTree::Mul(Box::new(left), Box::new(right)),
            BinaryOp::Div => ExprTree::Div(Box::new(left), Box::new(right)),
            BinaryOp::Pow => ExprTree::Pow(Box::new(left), Box::new(right)),
        }
    }

    /// The number of operators on the longest way from the root to a leaf.
    pub open spec fn height(self) -> nat
        decreases self,
    {
        match self {
            ExprTree::Index(_) => 0,
            ExprTree::Constant(_) => 0,
            ExprTree::Add(left, right) | ExprTree::Sub(left, right) | ExprTree::Mul(left, right)
            | ExprTree::Div(left, right) | ExprTree::Pow(left, right) => {
                if left.height() >= right.height() {
                    1 + left.height()
                } else {
                    1 + right.height()
                }
            },
        }
    }

    /// What an input reference stands for: the input with that number, zero where there is none.
    pub open spec fn input_value(input: Seq<ValTree>, idx: usize) -> ValTree {
        if idx < input.len() {
            ValTree::Number(input[idx as int].number())
        } else {
            ValTree::Number(Number { inner: ZERO_BITS })
        }
    }

    /// `out` is a value of the tree on `input`, when `arith` does the arithmetic: operands
    /// are evaluated first, and the operator's result is whatever `arith` may return for them.
    pub open spec fn evaluates<A: Fn(BinaryOp, Number, Number) -> Number>(
        self,
        input: Seq<ValTree>,
        arith: A,
        out: ValTree,
    ) -> bool
        decreases self,
    {
        match self {
            ExprTree::Index(idx) => out == Self::input_value(input, idx),
            ExprTree::Constant(value) => out == value,
            ExprTree::Add(left, right) | ExprTree::Sub(left, right) | ExprTree::Mul(left, right)
            | ExprTree::Div(left, right) | ExprTree::Pow(left, right) => exists|
                a: ValTree,
                b: ValTree,
            |
                left.evaluates(input, arith, a) && right.evaluates(input, arith, b)
                    && #[trigger] ValTree::combines(arith, self.operator().unwrap(), a, b, out),
        }
    }

    /// The value of the tree on `input` under the arithmetic `f`.
    pub open spec fn value(
        self,
        input: Seq<ValTree>,
        f: spec_fn(BinaryOp, Number, Number) -> Number,
    ) -> ValTree
        decreases self,
    {
        match self {
            ExprTree::Index(idx) => Self::input_value(input, idx),
            ExprTree::Constant(value) => value,
            ExprTree::Add(left, right) | ExprTree::Sub(left, right) | ExprTree::Mul(left, right)
            | ExprTree::Div(left, right) | ExprTree::Pow(left, right) => ValTree::Number(
                f(
                    self.operator().unwrap(),
                    left.value(input, f).number(),
                    right.value(input, f).number(),
                ),
            ),
        }
    }

    /// An operator node evaluates to whatever `arith` may return for its operator on values
    /// of its two operands.
    pub proof fn lemma_operator_evaluates<A: Fn(BinaryOp, Number, Number) -> Number>(
        self,
        input: Seq<ValTree>,
        arith: A,
        a: ValTree,
        b: ValTree,
        out: ValTree,
    )
        requires
            self.operator() is Some,
            self.left().evaluates(input, arith, a),
            self.right().evaluates(input, arith, b),
            ValTree::combines(arith, self.operator().unwrap(), a, b, out),
        ensures
            self.evaluates(input, arith, out),
    {
    }

    /// The node that applies `op` to two operands.
    pub fn combine(op: BinaryOp, left: ExprTree, right: ExprTree) -> (tree: ExprTree)
        ensures
            tree == Self::binary(op, left, right),
    {
        match op {
            BinaryOp::Add => ExprTree::Add(Box::new(left), Box::new(right)),
            BinaryOp::Sub => ExprTree::Sub(Box::new(left), Box::new(right)),
            BinaryOp::Mul => ExprTree::Mul(Box::new(left), Box::new(right)),
            BinaryOp::Div => ExprTree::Div(Box::new(left), Box::new(right)),
            BinaryOp::Pow => ExprTree::Pow(Box::new(left), Box::new(right)),
        }
    }

    /// Evaluates the tree on `input`, operands before operators and left before right,
    /// asking `arith` for each operation. An input that is missing counts as zero.
    pub fn eval<A: Fn(BinaryOp, Number, Number) -> Number>(&self, input: &[ValTree], arith: &A) -> (out:
        ValTree)
        requires
            is_total(*arith),
        ensures
            self.evaluates(input@, *arith, out),
            forall|f: spec_fn(BinaryOp, Number, Number) -> Number| #[trigger]
                computes(*arith, f) ==> out == self.value(input@, f),
        decreases *self,
    {
        let out = match self {
            ExprTree::Index(idx) => {
                if *idx < input.len() {
                    ValTree::Number(input[*idx].as_number())
                } else {
                    ValTree::Number(Number::zero())
                }
            },
            ExprTree::Constant(value) => *value,
            ExprTree::Add(left, right) => {
                let a = left.eval(input, arith);
                let b = right.eval(input, arith);
                let out = a.add(b, arith);
                proof {
                    self.lemma_operator_evaluates(input@, *arith, a, b, out);
                }
                out
            },
            ExprTree::Sub(left, right) => {
                let a = left.eval(input, arith);
                let b = right.eval(input, arith);
                let out = a.sub(b, arith);
                proof {
                    self.lemma_operator_evaluates(input@, *arith, a, b, out);
                }
                out
            },
            ExprTree::Mul(left, right) => {
                let a = left.eval(input, arith);
                let b = right.eval(input, arith);
                let out = a.mul(b, arith);
                proof {
                    self.lemma_operator_evaluates(input@, *arith, a, b, out);
                }
                out
            },
            ExprTree::Div(left, right) => {
                let a = left.eval(input, arith);
                let b = right.eval(input, arith);
                let out = a.div(b, arith);
                proof {
                    self.lemma_operator_evaluates(input@, *arith, a, b, out);
                }
                out
            },
            ExprTree::Pow(left, right) => {
                let a = left.eval(input, arith);
                let b = right.eval(input, arith);
                let out = a.pow(b, arith);
                proof {
                    self.lemma_operator_evaluates(input@, *arith, a, b, out);
                }
                out
            },
        };
        proof {
            assert forall|f: spec_fn(BinaryOp, Number, Number) -> Number| #[trigger]
                computes(*arith, f) implies out == self.value(input@, f) by {
                lemma_evaluates_value(*self, input@, *arith, f, out);
            }
        }
        out
    }
}

/// What a random draw decides for a new node.
#[derive(Clone, Copy, PartialEq, Eq, Structural, Debug)]
pub enum Shape {
    Constant,
    Operator(BinaryOp),
    Input,
}

/// The number of equally likely draws that decide the shape of a new node.
pub const SHAPE_DRAWS: usize = 9;

/// The shape that a draw stands for: four draws in nine give a constant, one each gives
/// `Add`, `Sub`, `Mul` and `Div`, and the last gives an input reference.
pub open spec fn shape_of(draw: usize) -> Shape {
    if draw <= 4 {
        Shape::Constant
    } else if draw == 5 {
        Shape::Operator(BinaryOp::Add)
    } else if draw == 6 {
        Shape::Operator(BinaryOp::Sub)
    } else if draw == 7 {
        Shape::Operator(BinaryOp::Mul)
    } else if draw == 8 {
        Shape::Operator(BinaryOp::Div)
    } else {
        Shape::Input
    }
}

/// The shape that a draw between 1 and [`SHAPE_DRAWS`] stands for.
pub fn shape_for(draw: usize) -> (shape: Shape)
    requires
        1 <= draw <= SHAPE_DRAWS,
    ensures
        shape == shape_of(draw),
{
    if draw <= 4 {
        Shape::Constant
    } else if draw == 5 {
        Shape::Operator(BinaryOp::Add)
    } else if draw == 6 {
        Shape::Operator(BinaryOp::Sub)
    } else if draw == 7 {
        Shape::Operator(BinaryOp::Mul)
    } else if draw == 8 {
        Shape::Operator(BinaryOp::Div)
    } else {
        Shape::Input
    }
}

/// One way of changing a node.
#[derive(Clone, Copy, PartialEq, Eq, Structural, Debug)]
pub enum Mutation {
    /// The subtree stays as it is.
    Keep,
    /// An input reference is drawn anew.
    Redraw,
    /// A constant `c` becomes `(c + r1) * r2` for two fresh reals.
    Perturb,
    /// A constant becomes the operator applied to two copies of itself.
    Wrap(BinaryOp),
    /// Both operands are changed in turn and joined under the operator.
    Rebuild(BinaryOp),
    /// The subtree gives way to one fresh constant.
    Collapse,
}

impl ExprTree {
    /// How tightly the root binds when the tree is written out: leaves bind tightest, then
    /// `Pow`, then `Mul` and `Div`, then `Add` and `Sub`.
    pub open spec fn priority_spec(&self) -> i32 {
        match self {
            ExprTree::Index(_) => 8,
            ExprTree::Constant(_) => 4,
            ExprTree::Add(_, _) => 1,
            ExprTree::Sub(_, _) => 1,
            ExprTree::Mul(_, _) => 2,
            ExprTree::Div(_, _) => 2,
            ExprTree::Pow(_, _) => 3,
        }
    }

    /// How tightly the root binds when the tree is written out.
    #[verifier::when_used_as_spec(priority_spec)]
    pub fn priority(&self) -> (p: i32)
        ensures
            p == self.priority_spec(),
    {
        match self {
            ExprTree::Index(_) => 8,
            ExprTree::Constant(_) => 4,
            ExprTree::Add(_, _) => 1,
            ExprTree::Sub(_, _) => 1,
            ExprTree::Mul(_, _) => 2,
            ExprTree::Div(_, _) => 2,
            ExprTree::Pow(_, _) => 3,
        }
    }

    /// The tree can come out of random growth with `max_depth` levels of operators left:
    /// every constant is a real that `unit` may return, every input reference is below
    /// `arity`, no operator is `Pow`, and below `max_depth` operators there are leaves only,
    /// which are constants where no level is left.
    pub open spec fn grown<U: Fn() -> Number>(self, max_depth: nat, arity: usize, unit: U) -> bool
        decreases self,
    {
        match self {
            ExprTree::Index(idx) => max_depth >= 1 && idx < arity,
            ExprTree::Constant(value) => call_ensures(unit, (), value.number()),
            ExprTree::Add(left, right) | ExprTree::Sub(left, right) | ExprTree::Mul(left, right)
            | ExprTree::Div(left, right) => max_depth >= 1 && left.grown(
                (max_depth - 1) as nat,
                arity,
                unit,
            ) && right.grown((max_depth - 1) as nat, arity, unit),
            ExprTree::Pow(_, _) => false,
        }
    }

    /// The tree that random growth makes of the draws from place `at` on, with the place
    /// after the last draw it reads. With no level left the one draw is the constant.
    /// Else the first draw decides the shape: a constant or an input reference takes one
    /// more draw, an operator takes what its left and then its right operand take, both
    /// grown on one level less.
    pub open spec fn growth(max_depth: nat, stream: Seq<Draw>, at: int) -> (ExprTree, int)
        decreases max_depth,
    {
        if max_depth == 0 {
            (ExprTree::Constant(ValTree::Number(real_at(stream, at))), at + 1)
        } else {
            match shape_of(whole_at(stream, at)) {
                Shape::Constant => (
                    ExprTree::Constant(ValTree::Number(real_at(stream, at + 1))),
                    at + 2,
                ),
                Shape::Operator(op) => {
                    let left = Self::growth((max_depth - 1) as nat, stream, at + 1);
                    let right = Self::growth((max_depth - 1) as nat, stream, left.1);
                    (Self::binary(op, left.0, right.0), right.1)
                },
                Shape::Input => (ExprTree::Index(whole_at(stream, at + 1)), at + 2),
            }
        }
    }

    /// Growth reads at least one draw.
    pub proof fn lemma_growth_advances(max_depth: nat, stream: Seq<Draw>, at: int)
        ensures
            Self::growth(max_depth, stream, at).1 > at,
        decreases max_depth,
    {
        if max_depth > 0 {
            if let Shape::Operator(op) = shape_of(whole_at(stream, at)) {
                Self::lemma_growth_advances((max_depth - 1) as nat, stream, at + 1);
                let left = Self::growth((max_depth - 1) as nat, stream, at + 1);
                Self::lemma_growth_advances((max_depth - 1) as nat, stream, left.1);
            }
        }
    }

    /// Growth depends on the draws it reads and on no others: what it makes of a stream
    /// it makes of every stream that continues it.
    pub proof fn lemma_growth_reads_its_draws(
        max_depth: nat,
        shorter: Seq<Draw>,
        longer: Seq<Draw>,
        at: int,
    )
        requires
            0 <= at,
            continues(shorter, longer),
            Self::growth(max_depth, shorter, at).1 <= shorter.len(),
        ensures
            Self::growth(max_depth, longer, at) == Self::growth(max_depth, shorter, at),
        decreases max_depth,
    {
        Self::lemma_growth_advances(max_depth, shorter, at);
        if max_depth > 0 {
            if let Shape::Operator(op) = shape_of(whole_at(shorter, at)) {
                let left = Self::growth((max_depth - 1) as nat, shorter, at + 1);
                Self::lemma_growth_advances((max_depth - 1) as nat, shorter, at + 1);
                Self::lemma_growth_advances((max_depth - 1) as nat, shorter, left.1);
                Self::lemma_growth_reads_its_draws((max_depth - 1) as nat, shorter, longer, at + 1);
                Self::lemma_growth_reads_its_draws((max_depth - 1) as nat, shorter, longer, left.1);
            }
        }
    }

    /// A tree grown at random: with no level left a constant, whatever would be drawn;
    /// else what the draw decides, with operands grown on one level less. The tree is
    /// what [`ExprTree::growth`] makes of the draws that the call takes from `rng`.
    pub fn random<U: Fn() -> Number>(max_depth: usize, arity: usize, rng: &mut RandomSource<U>) -> (tree:
        ExprTree)
        requires
            arity >= 1,
            old(rng).ready(),
        ensures
            tree.grown(max_depth as nat, arity, old(rng).unit()),
            tree.height() <= max_depth,
            max_depth == 0 ==> tree is Constant,
            final(rng).unit() == old(rng).unit(),
            continues(old(rng).drawn(), final(rng).drawn()),
            Self::growth(max_depth as nat, final(rng).drawn(), old(rng).drawn().len() as int) == (
                tree,
                final(rng).drawn().len() as int,
            ),
        decreases max_depth,
    {
        let ghost start = rng.drawn().len() as int;
        if max_depth == 0 {
            return ExprTree::Constant(ValTree::Number(Number::random(rng)));
        }
        let draw = rng.between(1, SHAPE_DRAWS);
        let ghost first = rng.drawn();
        match shape_for(draw) {
            Shape::Constant => ExprTree::Constant(ValTree::Number(Number::random(rng))),
            Shape::Operator(op) => {
                let left = Self::random(max_depth - 1, arity, rng);
                let ghost middle = rng.drawn();
                let right = Self::random(max_depth - 1, arity, rng);
                proof {
                    Self::lemma_growth_reads_its_draws(
                        (max_depth - 1) as nat,
                        middle,
                        rng.drawn(),
                        start + 1,
                    );
                    assert(whole_at(rng.drawn(), start) == draw);
                }
                Self::combine(op, left, right)
            },
            Shape::Input => ExprTree::Index(rng.below(arity)),
        }
    }

    /// The number of equally likely ways of changing the root.
    pub open spec fn choices(self) -> usize {
        match self {
            ExprTree::Index(_) => 2,
            ExprTree::Constant(_) => 4,
            ExprTree::Add(_, _) => 6,
            _ => 7,
        }
    }

    /// The way of changing the root that a draw stands for. An input reference is kept or
    /// drawn anew. A constant is kept, perturbed, or wrapped in `Add` or in `Mul`. An
    /// operator node is kept, rebuilt under one of the operators (all five, but for `Add`,
    /// which is never rebuilt as `Pow`), or collapsed.
    pub open spec fn mutation_of(self, draw: usize) -> Mutation {
        match self {
            ExprTree::Index(_) => if draw == 1 {
                Mutation::Keep
            } else {
                Mutation::Redraw
            },
            ExprTree::Constant(_) => if draw == 1 {
                Mutation::Keep
            } else if draw == 2 {
                Mutation::Perturb
            } else if draw == 3 {
                Mutation::Wrap(BinaryOp::Add)
            } else {
                Mutation::Wrap(BinaryOp::Mul)
            },
            _ => if draw == 1 {
                Mutation::Keep
            } else if draw == 2 {
                Mutation::Rebuild(BinaryOp::Add)
            } else if draw == 3 {
                Mutation::Rebuild(BinaryOp::Sub)
            } else if draw == 4 {
                Mutation::Rebuild(BinaryOp::Mul)
            } else if draw == 5 {
                Mutation::Rebuild(BinaryOp::Div)
            } else if draw == 6 && !(self is Add) {
                Mutation::Rebuild(BinaryOp::Pow)
            } else {
                Mutation::Collapse
            },
        }
    }

    /// The number of equally likely ways of changing the root.
    pub fn choice_count(&self) -> (count: usize)
        ensures
            count == self.choices(),
    {
        match self {
            ExprTree::Index(_) => 2,
            ExprTree::Constant(_) => 4,
            ExprTree::Add(_, _) => 6,
            _ => 7,
        }
    }

    /// The way of changing the root that a draw between 1 and the number of choices stands for.
    pub fn mutation_for(&self, draw: usize) -> (plan: Mutation)
        requires
            1 <= draw <= self.choices(),
        ensures
            plan == self.mutation_of(draw),
    {
        match self {
            ExprTree::Index(_) => if draw == 1 {
                Mutation::Keep
            } else {
                Mutation::Redraw
            },
            ExprTree::Constant(_) => if draw == 1 {
                Mutation::Keep
            } else if draw == 2 {
                Mutation::Perturb
            } else if draw == 3 {
                Mutation::Wrap(BinaryOp::Add)
            } else {
                Mutation::Wrap(BinaryOp::Mul)
            },
            ExprTree::Add(_, _) => if draw == 1 {
                Mutation::Keep
            } else if draw == 2 {
                Mutation::Rebuild(BinaryOp::Add)
            } else if draw == 3 {
                Mutation::Rebuild(BinaryOp::Sub)
            } else if draw == 4 {
                Mutation::Rebuild(BinaryOp::Mul)
            } else if draw == 5 {
                Mutation::Rebuild(BinaryOp::Div)
            } else {
                Mutation::Collapse
            },
            _ => if draw == 1 {
                Mutation::Keep
            } else if draw == 2 {
                Mutation::Rebuild(BinaryOp::Add)
            } else if draw == 3 {
                Mutation::Rebuild(BinaryOp::Sub)
            } else if draw == 4 {
                Mutation::Rebuild(BinaryOp::Mul)
            } else if draw == 5 {
                Mutation::Rebuild(BinaryOp::Div)
            } else if draw == 6 {
                Mutation::Rebuild(BinaryOp::Pow)
            } else {
                Mutation::Collapse
            },
        }
    }

    /// `out` is `(c + r1) * r2` for two reals that `unit` may return, the sum and the
    /// product being what `arith` may return.
    pub open spec fn perturbs<U: Fn() -> Number, A: Fn(BinaryOp, Number, Number) -> Number>(
        c: ValTree,
        unit: U,
        arith: A,
        out: ValTree,
    ) -> bool {
        exists|r1: Number, r2: Number, sum: ValTree|
            call_ensures(unit, (), r1) && call_ensures(unit, (), r2) && #[trigger] ValTree::combines(
                arith,
                BinaryOp::Add,
                c,
                ValTree::Number(r1),
                sum,
            ) && #[trigger] ValTree::combines(arith, BinaryOp::Mul, sum, ValTree::Number(r2), out)
    }

    /// `out` is what the tree may become under the change `plan`.
    pub open spec fn becomes<U: Fn() -> Number, A: Fn(BinaryOp, Number, Number) -> Number>(
        self,
        plan: Mutation,
        arity: usize,
        unit: U,
        arith: A,
        out: ExprTree,
    ) -> bool
        decreases self, 0nat,
    {
        match plan {
            Mutation::Keep => out == self,
            Mutation::Redraw => out matches ExprTree::Index(idx) && idx < arity,
            Mutation::Perturb => self matches ExprTree::Constant(c) && out matches ExprTree::Constant(
                p,
            ) && Self::perturbs(c, unit, arith, p),
            Mutation::Wrap(op) => out == Self::binary(op, self, self),
            Mutation::Rebuild(op) => match self {
                ExprTree::Add(left, right) | ExprTree::Sub(left, right) | ExprTree::Mul(left, right)
                | ExprTree::Div(left, right) | ExprTree::Pow(left, right) => out.operator() == Some(
                    op,
                ) && left.mutates_to(arity, unit, arith, out.left()) && right.mutates_to(
                    arity,
                    unit,
                    arith,
                    out.right(),
                ),
                _ => false,
            },
            Mutation::Collapse => out matches ExprTree::Constant(c) && call_ensures(
                unit,
                (),
                c.number(),
            ),
        }
    }

    /// `out` is a mutant of the tree: what it becomes under the change that some draw stands for.
    pub open spec fn mutates_to<U: Fn() -> Number, A: Fn(BinaryOp, Number, Number) -> Number>(
        self,
        arity: usize,
        unit: U,
        arith: A,
        out: ExprTree,
    ) -> bool
        decreases self, 1nat,
    {
        exists|draw: usize|
            1 <= draw <= self.choices() && self.becomes(
                #[trigger] self.mutation_of(draw),
                arity,
                unit,
                arith,
                out,
            )
    }

    /// The mutant that the draws from place `at` on make of the tree, under the arithmetic
    /// `f`, with the place after the last draw read. The first draw decides the change.
    /// A new input reference or a new constant takes one more draw; a perturbed constant
    /// takes two, added and multiplied in the order drawn; a rebuilt node takes what its
    /// left and then its right operand take.
    pub open spec fn mutation(
        self,
        f: spec_fn(BinaryOp, Number, Number) -> Number,
        stream: Seq<Draw>,
        at: int,
    ) -> (ExprTree, int)
        decreases self,
    {
        match self.mutation_of(whole_at(stream, at)) {
            Mutation::Keep => (self, at + 1),
            Mutation::Redraw => (ExprTree::Index(whole_at(stream, at + 1)), at + 2),
            Mutation::Perturb => match self {
                ExprTree::Constant(c) => (
                    ExprTree::Constant(
                        ValTree::Number(
                            f(
                                BinaryOp::Mul,
                                f(BinaryOp::Add, c.number(), real_at(stream, at + 1)),
                                real_at(stream, at + 2),
                            ),
                        ),
                    ),
                    at + 3,
                ),
                _ => (self, at + 1),
            },
            Mutation::Wrap(op) => (Self::binary(op, self, self), at + 1),
            Mutation::Rebuild(op) => match self {
                ExprTree::Add(left, right) | ExprTree::Sub(left, right) | ExprTree::Mul(left, right)
                | ExprTree::Div(left, right) | ExprTree::Pow(left, right) => {
                    let new_left = left.mutation(f, stream, at + 1);
                    let new_right = right.mutation(f, stream, new_left.1);
                    (Self::binary(op, new_left.0, new_right.0), new_right.1)
                },
                _ => (self, at + 1),
            },
            Mutation::Collapse => (
                ExprTree::Constant(ValTree::Number(real_at(stream, at + 1))),
                at + 2,
            ),
        }
    }

    /// Mutation reads at least one draw.
    pub proof fn lemma_mutation_advances(
        self,
        f: spec_fn(BinaryOp, Number, Number) -> Number,
        stream: Seq<Draw>,
        at: int,
    )
        ensures
            self.mutation(f, stream, at).1 > at,
        decreases self,
    {
        if self.mutation_of(whole_at(stream, at)) is Rebuild && self.operator() is Some {
            self.left().lemma_mutation_advances(f, stream, at + 1);
            let new_left = self.left().mutation(f, stream, at + 1);
            self.right().lemma_mutation_advances(f, stream, new_left.1);
        }
    }

    /// Mutation depends on the draws it reads and on no others: what it makes of a stream
    /// it makes of every stream that continues it.
    pub proof fn lemma_mutation_reads_its_draws(
        self,
        f: spec_fn(BinaryOp, Number, Number) -> Number,
        shorter: Seq<Draw>,
        longer: Seq<Draw>,
        at: int,
    )
        requires
            0 <= at,
            continues(shorter, longer),
            self.mutation(f, shorter, at).1 <= shorter.len(),
        ensures
            self.mutation(f, longer, at) == self.mutation(f, shorter, at),
        decreases self,
    {
        self.lemma_mutation_advances(f, shorter, at);
        if self.mutation_of(whole_at(shorter, at)) is Rebuild && self.operator() is Some {
            let new_left = self.left().mutation(f, shorter, at + 1);
            self.left().lemma_mutation_advances(f, shorter, at + 1);
            self.right().lemma_mutation_advances(f, shorter, new_left.1);
            self.left().lemma_mutation_reads_its_draws(f, shorter, longer, at + 1);
            self.right().lemma_mutation_reads_its_draws(f, shorter, longer, new_left.1);
        }
    }

    /// A mutant of the tree. One draw decides what happens at the root; where the root is
    /// rebuilt, the left operand is changed first, then the right one. Nothing bounds the
    /// height of the result. Where `arith` is a function, the mutant is what
    /// [`ExprTree::mutation`] makes of the draws that the call takes from `rng`.
    pub fn mutated<U: Fn() -> Number, A: Fn(BinaryOp, Number, Number) -> Number>(
        self,
        arity: usize,
        rng: &mut RandomSource<U>,
        arith: &A,
    ) -> (out: ExprTree)
        requires
            arity >= 1,
            old(rng).ready(),
            is_total(*arith),
        ensures
            self.mutates_to(arity, old(rng).unit(), *arith, out),
            final(rng).unit() == old(rng).unit(),
            continues(old(rng).drawn(), final(rng).drawn()),
            forall|f: spec_fn(BinaryOp, Number, Number) -> Number| #[trigger]
                computes(*arith, f) ==> self.mutation(
                    f,
                    final(rng).drawn(),
                    old(rng).drawn().len() as int,
                ) == (out, final(rng).drawn().len() as int),
        decreases self,
    {
        let ghost start = rng.drawn().len() as int;
        let count = self.choice_count();
        let draw = rng.between(1, count);
        let plan = self.mutation_for(draw);
        match plan {
            Mutation::Keep => self,
            Mutation::Redraw => ExprTree::Index(rng.below(arity)),
            Mutation::Perturb => match self {
                ExprTree::Constant(number) => {
                    let r1 = Number::random(rng);
                    let sum = number.add(ValTree::Number(r1), arith);
                    let r2 = Number::random(rng);
                    let product = sum.mul(ValTree::Number(r2), arith);
                    ExprTree::Constant(product)
                },
                other => other,
            },
            Mutation::Wrap(op) => {
                let copy = self.clone();
                Self::combine(op, copy, self)
            },
            Mutation::Rebuild(op) => match self {
                ExprTree::Add(left, right) | ExprTree::Sub(left, right) | ExprTree::Mul(left, right)
                | ExprTree::Div(left, right) | ExprTree::Pow(left, right) => {
                    let new_left = (*left).mutated(arity, rng, arith);
                    let ghost middle = rng.drawn();
                    let new_right = (*right).mutated(arity, rng, arith);
                    let out = Self::combine(op, new_left, new_right);
                    proof {
                        assert(whole_at(rng.drawn(), start) == draw);
                        assert forall|f: spec_fn(BinaryOp, Number, Number) -> Number| #[trigger]
                            computes(*arith, f) implies self.mutation(f, rng.drawn(), start) == (
                            out,
                            rng.drawn().len() as int,
                        ) by {
                            left.lemma_mutation_reads_its_draws(f, middle, rng.drawn(), start + 1);
                        }
                    }
                    out
                },
                other => other,
            },
            Mutation::Collapse => ExprTree::Constant(ValTree::Number(Number::random(rng))),
        }
    }
}

/// `f` says what `arith` returns: whatever a call of `arith` gives is the value of `f`.
pub open spec fn computes<A: Fn(BinaryOp, Number, Number) -> Number>(
    arith: A,
    f: spec_fn(BinaryOp, Number, Number) -> Number,
) -> bool {
    forall|op: BinaryOp, a: Number, b: Number, r: Number| #[trigger]
        call_ensures(arith, (op, a, b), r) ==> r == f(op, a, b)
}

/// A constant evaluates to its own value, on every input and under every arithmetic.
pub proof fn lemma_constant_value<A: Fn(BinaryOp, Number, Number) -> Number>(
    value: ValTree,
    input: Seq<ValTree>,
    arith: A,
    f: spec_fn(BinaryOp, Number, Number) -> Number,
    out: ValTree,
)
    ensures
        ExprTree::Constant(value).evaluates(input, arith, out) <==> out == value,
        ExprTree::Constant(value).value(input, f) == value,
{
}

/// An operator node evaluates to the operator applied to the values of its operands:
/// for `Add` the sum of the two values, and likewise for `Sub`, `Mul`, `Div` and `Pow`.
pub proof fn lemma_operator_value<A: Fn(BinaryOp, Number, Number) -> Number>(
    op: BinaryOp,
    left: ExprTree,
    right: ExprTree,
    input: Seq<ValTree>,
    arith: A,
    f: spec_fn(BinaryOp, Number, Number) -> Number,
    out: ValTree,
)
    ensures
        ExprTree::binary(op, left, right).value(input, f) == ValTree::Number(
            f(op, left.value(input, f).number(), right.value(input, f).number()),
        ),
        ExprTree::binary(op, left, right).evaluates(input, arith, out) <==> exists|
            a: ValTree,
            b: ValTree,
        |
            left.evaluates(input, arith, a) && right.evaluates(input, arith, b)
                && #[trigger] ValTree::combines(arith, op, a, b, out),
{
    let tree = ExprTree::binary(op, left, right);
    assert(tree.operator() == Some(op));
    assert(tree.left() == left);
    assert(tree.right() == right);
    if tree.evaluates(input, arith, out) {
        let (a, b) = choose|a: ValTree, b: ValTree|
            tree.left().evaluates(input, arith, a) && tree.right().evaluates(input, arith, b)
                && #[trigger] ValTree::combines(arith, tree.operator().unwrap(), a, b, out);
        assert(left.evaluates(input, arith, a) && right.evaluates(input, arith, b)
            && ValTree::combines(arith, op, a, b, out));
    }
    if exists|a: ValTree, b: ValTree|
        left.evaluates(input, arith, a) && right.evaluates(input, arith, b)
            && #[trigger] ValTree::combines(arith, op, a, b, out) {
        let (a, b) = choose|a: ValTree, b: ValTree|
            left.evaluates(input, arith, a) && right.evaluates(input, arith, b)
                && #[trigger] ValTree::combines(arith, op, a, b, out);
        tree.lemma_operator_evaluates(input, arith, a, b, out);
    }
}

/// A reference to an input that is not there evaluates to zero, also on no input at all.
pub proof fn lemma_missing_input_is_zero<A: Fn(BinaryOp, Number, Number) -> Number>(
    idx: usize,
    input: Seq<ValTree>,
    arith: A,
    f: spec_fn(BinaryOp, Number, Number) -> Number,
    out: ValTree,
)
    requires
        idx >= input.len(),
    ensures
        ExprTree::Index(idx).evaluates(input, arith, out) <==> out == ValTree::Number(
            Number { inner: ZERO_BITS },
        ),
        ExprTree::Index(idx).value(input, f) == ValTree::Number(Number { inner: ZERO_BITS }),
{
}

/// Where `f` says what `arith` returns, a tree has one value only, and it is `value`.
pub proof fn lemma_evaluates_value<A: Fn(BinaryOp, Number, Number) -> Number>(
    tree: ExprTree,
    input: Seq<ValTree>,
    arith: A,
    f: spec_fn(BinaryOp, Number, Number) -> Number,
    out: ValTree,
)
    requires
        computes(arith, f),
        tree.evaluates(input, arith, out),
    ensures
        out == tree.value(input, f),
    decreases tree,
{
    if tree.operator() is Some {
        let (a, b) = choose|a: ValTree, b: ValTree|
            tree.left().evaluates(input, arith, a) && tree.right().evaluates(input, arith, b)
                && #[trigger] ValTree::combines(arith, tree.operator().unwrap(), a, b, out);
        lemma_evaluates_value(tree.left(), input, arith, f, a);
        lemma_evaluates_value(tree.right(), input, arith, f, b);
    }
}


/// A tree that can come out of random growth with `max_depth` levels left is no higher
/// than `max_depth`.
pub proof fn lemma_grown_is_bounded<U: Fn() -> Number>(
    tree: ExprTree,
    max_depth: nat,
    arity: usize,
    unit: U,
)
    requires
        tree.grown(max_depth, arity, unit),
    ensures
        tree.height() <= max_depth,
        max_depth == 0 ==> tree is Constant,
    decreases tree,
{
    if tree.operator() is Some {
        lemma_grown_is_bounded(tree.left(), (max_depth - 1) as nat, arity, unit);
        lemma_grown_is_bounded(tree.right(), (max_depth - 1) as nat, arity, unit);
    }
}

/// Every tree is a mutant of itself: the first draw keeps it.
pub proof fn lemma_mutation_can_keep<U: Fn() -> Number, A: Fn(BinaryOp, Number, Number) -> Number>(
    tree: ExprTree,
    arity: usize,
    unit: U,
    arith: A,
)
    ensures
        tree.mutates_to(arity, unit, arith, tree),
{
    assert(tree.mutation_of(1) == Mutation::Keep);
    assert(tree.becomes(tree.mutation_of(1), arity, unit, arith, tree));
}

/// Mutation can make a tree higher: a constant, of height 0, has a mutant of height 1.
pub proof fn lemma_mutation_can_deepen<U: Fn() -> Number, A: Fn(BinaryOp, Number, Number) -> Number>(
    value: ValTree,
    arity: usize,
    unit: U,
    arith: A,
)
    ensures
        ExprTree::Constant(value).mutates_to(
            arity,
            unit,
            arith,
            ExprTree::binary(BinaryOp::Add, ExprTree::Constant(value), ExprTree::Constant(value)),
        ),
        ExprTree::Constant(value).height() == 0,
        ExprTree::binary(
            BinaryOp::Add,
            ExprTree::Constant(value),
            ExprTree::Constant(value),
        ).height() == 1,
{
    let leaf = ExprTree::Constant(value);
    let wrapped = ExprTree::binary(BinaryOp::Add, leaf, leaf);
    assert(leaf.mutation_of(3) == Mutation::Wrap(BinaryOp::Add));
    assert(leaf.becomes(leaf.mutation_of(3), arity, unit, arith, wrapped));
    assert(wrapped.height() == 1) by {
        reveal_with_fuel(ExprTree::height, 2);
    }
}

/// Where an operator node is rebuilt, mutants of its operands make a mutant of the node,
/// however high they are.
pub proof fn lemma_mutation_rebuilds<U: Fn() -> Number, A: Fn(BinaryOp, Number, Number) -> Number>(
    tree: ExprTree,
    left: ExprTree,
    right: ExprTree,
    arity: usize,
    unit: U,
    arith: A,
)
    requires
        tree.operator() matches Some(op),
        tree.left().mutates_to(arity, unit, arith, left),
        tree.right().mutates_to(arity, unit, arith, right),
    ensures
        tree.mutates_to(arity, unit, arith, ExprTree::binary(tree.operator().unwrap(), left, right)),
{
    let op = tree.operator().unwrap();
    let out = ExprTree::binary(op, left, right);
    let draw: usize = match op {
        BinaryOp::Add => 2,
        BinaryOp::Sub => 3,
        BinaryOp::Mul => 4,
        BinaryOp::Div => 5,
        BinaryOp::Pow => 6,
    };
    assert(tree.mutation_of(draw) == Mutation::Rebuild(op));
    assert(out.operator() == Some(op) && out.left() == left && out.right() == right);
    assert(tree.becomes(tree.mutation_of(draw), arity, unit, arith, out));
}

/// The ways of changing a node are equally likely: no two draws stand for the same way.
pub proof fn lemma_mutation_draws_differ(tree: ExprTree, first: usize, second: usize)
    requires
        1 <= first < second <= tree.choices(),
    ensures
        tree.mutation_of(first) != tree.mutation_of(second),
{
}

/// Of the nine draws that shape a new node four give a constant, one gives each of the
/// four operators, and one gives an input reference.
pub proof fn lemma_shape_shares(draw: usize)
    requires
        1 <= draw <= SHAPE_DRAWS,
    ensures
        shape_of(draw) == Shape::Constant <==> draw <= 4,
        shape_of(draw) == Shape::Operator(BinaryOp::Add) <==> draw == 5,
        shape_of(draw) == Shape::Operator(BinaryOp::Sub) <==> draw == 6,
        shape_of(draw) == Shape::Operator(BinaryOp::Mul) <==> draw == 7,
        shape_of(draw) == Shape::Operator(BinaryOp::Div) <==> draw == 8,
        shape_of(draw) == Shape::Input <==> draw == 9,
        shape_of(draw) != Shape::Operator(BinaryOp::Pow),
{
}

} // verus!
