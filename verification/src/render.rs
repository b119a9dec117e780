//! Writing a tree out in infix form, with brackets only where they are needed.

use vstd::prelude::*;
use crate::expr::ExprTree;
use crate::values::{BinaryOp, ValTree};

verus! {

/// One piece of a tree written out.
#[derive(Clone, Copy, PartialEq, Eq, Structural, Debug)]
pub enum Token {
    /// An opening bracket.
    Open,
    /// A closing bracket.
    Close,
    Operator(BinaryOp),
    /// The input with this number.
    Input(usize),
    /// A constant.
    Value(ValTree),
}

/// By how much the right operand of `op` must bind tighter than `op` itself to stand
/// without brackets: `a - (b - c)` needs them, `a + (b + c)` does not.
pub open spec fn right_adjust_of(op: BinaryOp) -> int {
    match op {
        BinaryOp::Add => 0,
        BinaryOp::Sub => 1,
        BinaryOp::Mul => 0,
        BinaryOp::Div => 1,
        BinaryOp::Pow => 1,
    }
}

/// By how much the right operand of `op` must bind tighter than `op` itself.
pub fn right_adjust(op: BinaryOp) -> (by: i32)
    ensures
        by == right_adjust_of(op),
{
    match op {
        BinaryOp::Add => 0,
        BinaryOp::Sub => 1,
        BinaryOp::Mul => 0,
        BinaryOp::Div => 1,
        BinaryOp::Pow => 1,
    }
}

/// The text of a token, where it has one of its own: brackets, an operator between two
/// blanks, `x` and `z` for the first two inputs and `0.0` for every other. How a constant
/// is written is left to whoever prints it.
pub open spec fn text_of(token: Token) -> Option<Seq<char>> {
    match token {
        Token::Open => Some("("@),
        Token::Close => Some(")"@),
        Token::Operator(BinaryOp::Add) => Some(" + "@),
        Token::Operator(BinaryOp::Sub) => Some(" - "@),
        Token::Operator(BinaryOp::Mul) => Some(" * "@),
        Token::Operator(BinaryOp::Div) => Some(" / "@),
        Token::Operator(BinaryOp::Pow) => Some(" ^ "@),
        Token::Input(idx) => if idx == 0 {
            Some("x"@)
        } else if idx == 1 {
            Some("z"@)
        } else {
            Some("0.0"@)
        },
        Token::Value(_) => None,
    }
}

impl Token {
    /// The text of the token, where it has one of its own.
    pub fn text(&self) -> (text: Option<&'static str>)
        ensures
            text is Some == text_of(*self) is Some,
            text matches Some(t) ==> Some(t@) == text_of(*self),
    {
        match self {
            Token::Open => Some("("),
            Token::Close => Some(")"),
            Token::Operator(BinaryOp::Add) => Some(" + "),
            Token::Operator(BinaryOp::Sub) => Some(" - "),
            Token::Operator(BinaryOp::Mul) => Some(" * "),
            Token::Operator(BinaryOp::Div) => Some(" / "),
            Token::Operator(BinaryOp::Pow) => Some(" ^ "),
            Token::Input(idx) => if *idx == 0 {
                Some("x")
            } else if *idx == 1 {
                Some("z")
            } else {
                Some("0.0")
            },
            Token::Value(_) => None,
        }
    }
}

impl ExprTree {
    /// The tree written out under a parent that binds with `parent_priority`: a leaf is
    /// one token; an operator node is its left operand, the operator and its right operand,
    /// each operand written under this node; and the whole stands in brackets where the
    /// node binds less tightly than its parent.
    pub open spec fn rendering(self, parent_priority: int) -> Seq<Token>
        decreases self,
    {
        let inner = match self {
            ExprTree::Index(idx) => seq![Token::Input(idx)],
            ExprTree::Constant(value) => seq![Token::Value(value)],
            ExprTree::Add(left, right) | ExprTree::Sub(left, right) | ExprTree::Mul(left, right)
            | ExprTree::Div(left, right) | ExprTree::Pow(left, right) => {
                let op = self.operator().unwrap();
                left.rendering(self.priority_spec() as int) + seq![Token::Operator(op)]
                    + right.rendering(self.priority_spec() + right_adjust_of(op))
            },
        };
        if self.priority_spec() < parent_priority {
            seq![Token::Open] + inner + seq![Token::Close]
        } else {
            inner
        }
    }

    /// The operator at the root, if the root is no leaf.
    pub fn root_operator(&self) -> (op: Option<BinaryOp>)
        ensures
            op == self.operator(),
    {
        match self {
            ExprTree::Index(_) => None,
            ExprTree::Constant(_) => None,
            ExprTree::Add(_, _) => Some(BinaryOp::Add),
            ExprTree::Sub(_, _) => Some(BinaryOp::Sub),
            ExprTree::Mul(_, _) => Some(BinaryOp::Mul),
            ExprTree::Div(_, _) => Some(BinaryOp::Div),
            ExprTree::Pow(_, _) => Some(BinaryOp::Pow),
        }
    }

    /// Writes the operands of this operator node to the end of `out`, the operator between them.
    pub fn pretty_print_op(
        &self,
        out: &mut Vec<Token>,
        left: &ExprTree,
        right: &ExprTree,
        my_priority: i32,
        op: BinaryOp,
        right_adjust: i32,
    )
        requires
            self.operator() is Some,
            *left == self.left(),
            *right == self.right(),
            i32::MIN <= my_priority + right_adjust <= i32::MAX,
        ensures
            final(out)@ == old(out)@ + (left.rendering(my_priority as int) + seq![Token::Operator(op)]
                + right.rendering(my_priority + right_adjust)),
        decreases *self, 0nat,
    {
        left.pretty_print_to(out, my_priority);
        out.push(Token::Operator(op));
        right.pretty_print_to(out, my_priority + right_adjust);
        assert(out@ =~= old(out)@ + (left.rendering(my_priority as int) + seq![Token::Operator(op)]
            + right.rendering(my_priority + right_adjust)));
    }

    /// Writes the tree to the end of `out`, as it stands under a parent that binds with
    /// `parent_priority`.
    pub fn pretty_print_to(&self, out: &mut Vec<Token>, parent_priority: i32)
        ensures
            final(out)@ == old(out)@ + self.rendering(parent_priority as int),
        decreases *self, 1nat,
    {
        let my_priority = self.priority();
        let needs_parentheses = my_priority < parent_priority;
        if needs_parentheses {
            out.push(Token::Open);
        }
        let ghost start = out@;
        let ghost inner: Seq<Token>;
        match self {
            ExprTree::Index(idx) => {
                out.push(Token::Input(*idx));
                proof {
                    inner = seq![Token::Input(*idx)];
                }
            },
            ExprTree::Constant(value) => {
                out.push(Token::Value(*value));
                proof {
                    inner = seq![Token::Value(*value)];
                }
            },
            ExprTree::Add(left, right) => {
                self.pretty_print_op(out, left, right, my_priority, BinaryOp::Add, 0);
                proof {
                    inner = left.rendering(1) + seq![Token::Operator(BinaryOp::Add)] + right.rendering(1);
                }
            },
            ExprTree::Sub(left, right) => {
                self.pretty_print_op(out, left, right, my_priority, BinaryOp::Sub, 1);
                proof {
                    inner = left.rendering(1) + seq![Token::Operator(BinaryOp::Sub)] + right.rendering(2);
                }
            },
            ExprTree::Mul(left, right) => {
                self.pretty_print_op(out, left, right, my_priority, BinaryOp::Mul, 0);
                proof {
                    inner = left.rendering(2) + seq![Token::Operator(BinaryOp::Mul)] + right.rendering(2);
                }
            },
            ExprTree::Div(left, right) => {
                self.pretty_print_op(out, left, right, my_priority, BinaryOp::Div, 1);
                proof {
                    inner = left.rendering(2) + seq![Token::Operator(BinaryOp::Div)] + right.rendering(3);
                }
            },
            ExprTree::Pow(left, right) => {
                self.pretty_print_op(out, left, right, my_priority, BinaryOp::Pow, 1);
                proof {
                    inner = left.rendering(3) + seq![Token::Operator(BinaryOp::Pow)] + right.rendering(4);
                }
            },
        }
        assert(out@ =~= start + inner);
        if needs_parentheses {
            out.push(Token::Close);
            assert(out@ =~= old(out)@ + (seq![Token::Open] + inner + seq![Token::Close]));
        }
    }

    /// The tree written out under a parent that binds with `parent_priority`; with 0,
    /// the tree as it stands alone.
    pub fn pretty_print(&self, parent_priority: i32) -> (tokens: Vec<Token>)
        ensures
            tokens@ == self.rendering(parent_priority as int),
    {
        let mut tokens: Vec<Token> = Vec::new();
        self.pretty_print_to(&mut tokens, parent_priority);
        tokens
    }
}

} // verus!
