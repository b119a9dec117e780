use std::cell::RefCell;

use expr_evolution::expr::{shape_for, ExprTree, Mutation, Shape, SHAPE_DRAWS};
use expr_evolution::random::RandomSource;
use expr_evolution::render::{right_adjust, Token};
use expr_evolution::values::{BinaryOp, Number, ValTree};
use rand::rngs::SmallRng;
use rand::{Rng, SeedableRng};

fn num(x: f64) -> Number {
    Number::new(x.to_bits())
}

fn val(x: f64) -> ValTree {
    ValTree::Number(num(x))
}

fn float(v: ValTree) -> f64 {
    f64::from_bits(v.as_f64())
}

fn constant(x: f64) -> ExprTree {
    ExprTree::Constant(val(x))
}

fn arith(op: BinaryOp, a: Number, b: Number) -> Number {
    let (x, y) = (f64::from_bits(a.as_f64()), f64::from_bits(b.as_f64()));
    num(match op {
        BinaryOp::Add => x + y,
        BinaryOp::Sub => x - y,
        BinaryOp::Mul => x * y,
        BinaryOp::Div => x / y,
        BinaryOp::Pow => ordered_float::Pow::pow(x, y),
    })
}

fn height(tree: &ExprTree) -> usize {
    match tree {
        ExprTree::Index(_) | ExprTree::Constant(_) => 0,
        ExprTree::Add(l, r)
        | ExprTree::Sub(l, r)
        | ExprTree::Mul(l, r)
        | ExprTree::Div(l, r)
        | ExprTree::Pow(l, r) => 1 + height(l).max(height(r)),
    }
}

fn grown_within(tree: &ExprTree, max_depth: usize, arity: usize) -> bool {
    match tree {
        ExprTree::Index(idx) => max_depth >= 1 && *idx < arity,
        ExprTree::Constant(v) => (-1.0..1.0).contains(&float(*v)),
        ExprTree::Add(l, r) | ExprTree::Sub(l, r) | ExprTree::Mul(l, r) | ExprTree::Div(l, r) => {
            max_depth >= 1 && grown_within(l, max_depth - 1, arity) && grown_within(r, max_depth - 1, arity)
        }
        ExprTree::Pow(_, _) => false,
    }
}

#[test]
pub fn expr_test_add_expr() {
    let expr = ExprTree::Add(
        Box::new(ExprTree::Constant(ValTree::Number(num(10.0)))),
        Box::new(ExprTree::Constant(ValTree::Number(num(20.0)))),
    );
    assert_eq!(expr.eval(&[], &arith), ValTree::Number(num(30.0)));
}

#[test]
pub fn expr_test_sub_expr() {
    let expr = ExprTree::Sub(
        Box::new(ExprTree::Constant(ValTree::Number(num(10.0)))),
        Box::new(ExprTree::Constant(ValTree::Number(num(40.0)))),
    );
    assert_eq!(expr.eval(&[], &arith), ValTree::Number(num(-30.0)));
}

#[test]
pub fn num_test_add_expr() {
    let expr = ExprTree::Add(
        Box::new(ExprTree::Constant(ValTree::Number(Number::new(10.0f64.to_bits())))),
        Box::new(ExprTree::Constant(ValTree::Number(Number::new(20.0f64.to_bits())))),
    );
    assert_eq!(expr.eval(&[], &arith), ValTree::Number(Number::new(30.0f64.to_bits())));
}

#[test]
pub fn num_test_sub_expr() {
    let expr = ExprTree::Sub(
        Box::new(ExprTree::Constant(ValTree::Number(Number::new(10.0f64.to_bits())))),
        Box::new(ExprTree::Constant(ValTree::Number(Number::new(40.0f64.to_bits())))),
    );
    assert_eq!(expr.eval(&[], &arith), ValTree::Number(Number::new((-30.0f64).to_bits())));
}

#[test]
fn constant_evaluates_to_itself() {
    for c in [0.0, -0.0, 1.5, -7.25, f64::INFINITY, f64::MAX] {
        assert_eq!(constant(c).eval(&[], &arith), val(c));
        assert_eq!(constant(c).eval(&[val(3.0), val(4.0)], &arith), val(c));
    }
    let nan = constant(f64::NAN).eval(&[], &arith);
    assert_eq!(nan.as_f64(), f64::NAN.to_bits());
}

#[test]
fn missing_input_is_zero() {
    assert_eq!(ExprTree::Index(0).eval(&[], &arith), val(0.0));
    assert_eq!(ExprTree::Index(7).eval(&[], &arith), val(0.0));
    assert_eq!(ExprTree::Index(2).eval(&[val(5.0), val(6.0)], &arith), val(0.0));
    assert_eq!(ExprTree::Index(usize::MAX).eval(&[val(5.0)], &arith), val(0.0));
    assert_eq!(ExprTree::Index(0).eval(&[], &arith).as_f64(), 0);
}

#[test]
fn present_input_is_read() {
    let input = [val(5.0), val(6.0), val(-1.0)];
    assert_eq!(ExprTree::Index(0).eval(&input, &arith), val(5.0));
    assert_eq!(ExprTree::Index(1).eval(&input, &arith), val(6.0));
    assert_eq!(ExprTree::Index(2).eval(&input, &arith), val(-1.0));
}

#[test]
fn operators_apply_to_operand_values() {
    let input = [val(3.0)];
    let x = || Box::new(ExprTree::Index(0));
    let two = || Box::new(constant(2.0));
    assert_eq!(float(ExprTree::Add(x(), two()).eval(&input, &arith)), 5.0);
    assert_eq!(float(ExprTree::Sub(x(), two()).eval(&input, &arith)), 1.0);
    assert_eq!(float(ExprTree::Mul(x(), two()).eval(&input, &arith)), 6.0);
    assert_eq!(float(ExprTree::Div(x(), two()).eval(&input, &arith)), 1.5);
    assert_eq!(float(ExprTree::Pow(x(), two()).eval(&input, &arith)), 9.0);
    let nested = ExprTree::Sub(
        Box::new(ExprTree::Mul(x(), x())),
        Box::new(ExprTree::Div(two(), Box::new(constant(8.0)))),
    );
    assert_eq!(float(nested.eval(&input, &arith)), 8.75);
}

#[test]
fn degenerate_values_come_through() {
    let zero = || Box::new(constant(0.0));
    let one = || Box::new(constant(1.0));
    assert_eq!(float(ExprTree::Div(one(), zero()).eval(&[], &arith)), f64::INFINITY);
    assert!(float(ExprTree::Div(zero(), zero()).eval(&[], &arith)).is_nan());
    let root = ExprTree::Pow(Box::new(constant(-8.0)), Box::new(constant(0.5)));
    assert!(float(root.eval(&[], &arith)).is_nan());
    let carried = ExprTree::Add(one(), Box::new(ExprTree::Div(zero(), zero())));
    assert!(float(carried.eval(&[], &arith)).is_nan());
}

#[test]
fn eval_asks_left_before_right() {
    let calls = RefCell::new(Vec::new());
    let spy = |op: BinaryOp, a: Number, b: Number| {
        calls.borrow_mut().push((op, a.as_f64(), b.as_f64()));
        Number::new(a.as_f64() * 10 + b.as_f64())
    };
    let leaf = |bits: u64| Box::new(ExprTree::Constant(ValTree::Number(Number::new(bits))));
    let tree = ExprTree::Sub(
        Box::new(ExprTree::Add(leaf(1), leaf(2))),
        Box::new(ExprTree::Mul(leaf(3), leaf(4))),
    );
    let out = tree.eval(&[], &spy);
    assert_eq!(out.as_f64(), 154);
    assert_eq!(
        *calls.borrow(),
        vec![(BinaryOp::Add, 1, 2), (BinaryOp::Mul, 3, 4), (BinaryOp::Sub, 12, 34)]
    );
}

#[test]
fn priorities() {
    let leaf = || Box::new(constant(1.0));
    assert_eq!(ExprTree::Index(0).priority(), 8);
    assert_eq!(constant(1.0).priority(), 4);
    assert_eq!(ExprTree::Add(leaf(), leaf()).priority(), 1);
    assert_eq!(ExprTree::Sub(leaf(), leaf()).priority(), 1);
    assert_eq!(ExprTree::Mul(leaf(), leaf()).priority(), 2);
    assert_eq!(ExprTree::Div(leaf(), leaf()).priority(), 2);
    assert_eq!(ExprTree::Pow(leaf(), leaf()).priority(), 3);
}

#[test]
fn combine_and_root_operator() {
    for op in [BinaryOp::Add, BinaryOp::Sub, BinaryOp::Mul, BinaryOp::Div, BinaryOp::Pow] {
        let tree = ExprTree::combine(op, constant(1.0), ExprTree::Index(2));
        assert_eq!(tree.root_operator(), Some(op));
        match tree {
            ExprTree::Add(l, r)
            | ExprTree::Sub(l, r)
            | ExprTree::Mul(l, r)
            | ExprTree::Div(l, r)
            | ExprTree::Pow(l, r) => {
                assert_eq!(*l, constant(1.0));
                assert_eq!(*r, ExprTree::Index(2));
            }
            _ => panic!("no operator"),
        }
    }
    assert_eq!(
        ExprTree::combine(BinaryOp::Div, constant(1.0), constant(2.0)),
        ExprTree::Div(Box::new(constant(1.0)), Box::new(constant(2.0)))
    );
    assert_eq!(constant(1.0).root_operator(), None);
    assert_eq!(ExprTree::Index(0).root_operator(), None);
}

#[test]
fn clone_is_equal() {
    let tree = ExprTree::Pow(
        Box::new(ExprTree::Div(Box::new(ExprTree::Index(1)), Box::new(constant(2.0)))),
        Box::new(ExprTree::Sub(Box::new(constant(-3.0)), Box::new(ExprTree::Index(0)))),
    );
    assert_eq!(tree.clone(), tree);
}

#[test]
fn shape_table() {
    assert_eq!(SHAPE_DRAWS, 9);
    for draw in 1..=4 {
        assert_eq!(shape_for(draw), Shape::Constant);
    }
    assert_eq!(shape_for(5), Shape::Operator(BinaryOp::Add));
    assert_eq!(shape_for(6), Shape::Operator(BinaryOp::Sub));
    assert_eq!(shape_for(7), Shape::Operator(BinaryOp::Mul));
    assert_eq!(shape_for(8), Shape::Operator(BinaryOp::Div));
    assert_eq!(shape_for(9), Shape::Input);
}

#[test]
fn mutation_table() {
    let leaf = || Box::new(constant(1.0));
    let index = ExprTree::Index(1);
    assert_eq!(index.choice_count(), 2);
    assert_eq!(index.mutation_for(1), Mutation::Keep);
    assert_eq!(index.mutation_for(2), Mutation::Redraw);

    let c = constant(1.0);
    assert_eq!(c.choice_count(), 4);
    assert_eq!(c.mutation_for(1), Mutation::Keep);
    assert_eq!(c.mutation_for(2), Mutation::Perturb);
    assert_eq!(c.mutation_for(3), Mutation::Wrap(BinaryOp::Add));
    assert_eq!(c.mutation_for(4), Mutation::Wrap(BinaryOp::Mul));

    let add = ExprTree::Add(leaf(), leaf());
    assert_eq!(add.choice_count(), 6);
    assert_eq!(add.mutation_for(1), Mutation::Keep);
    assert_eq!(add.mutation_for(2), Mutation::Rebuild(BinaryOp::Add));
    assert_eq!(add.mutation_for(3), Mutation::Rebuild(BinaryOp::Sub));
    assert_eq!(add.mutation_for(4), Mutation::Rebuild(BinaryOp::Mul));
    assert_eq!(add.mutation_for(5), Mutation::Rebuild(BinaryOp::Div));
    assert_eq!(add.mutation_for(6), Mutation::Collapse);

    for tree in [
        ExprTree::Sub(leaf(), leaf()),
        ExprTree::Mul(leaf(), leaf()),
        ExprTree::Div(leaf(), leaf()),
        ExprTree::Pow(leaf(), leaf()),
    ] {
        assert_eq!(tree.choice_count(), 7);
        assert_eq!(tree.mutation_for(1), Mutation::Keep);
        assert_eq!(tree.mutation_for(2), Mutation::Rebuild(BinaryOp::Add));
        assert_eq!(tree.mutation_for(3), Mutation::Rebuild(BinaryOp::Sub));
        assert_eq!(tree.mutation_for(4), Mutation::Rebuild(BinaryOp::Mul));
        assert_eq!(tree.mutation_for(5), Mutation::Rebuild(BinaryOp::Div));
        assert_eq!(tree.mutation_for(6), Mutation::Rebuild(BinaryOp::Pow));
        assert_eq!(tree.mutation_for(7), Mutation::Collapse);
    }
}

#[test]
fn random_of_depth_zero_is_a_constant() {
    for seed in 0..200 {
        let reals = RefCell::new(SmallRng::seed_from_u64(seed + 1000));
        let unit = || num(reals.borrow_mut().random_range(-1.0..1.0));
        let mut rng = RandomSource::seeded(seed, unit);
        let tree = ExprTree::random(0, 3, &mut rng);
        match tree {
            ExprTree::Constant(v) => assert!((-1.0..1.0).contains(&float(v))),
            other => panic!("{other:?}"),
        }
    }
}

#[test]
fn random_keeps_to_depth_and_arity() {
    let mut kinds = [false; 6];
    for seed in 0..300 {
        for (max_depth, arity) in [(1, 1), (2, 3), (3, 2), (5, 4)] {
            let reals = RefCell::new(SmallRng::seed_from_u64(seed));
            let unit = || num(reals.borrow_mut().random_range(-1.0..1.0));
            let mut rng = RandomSource::seeded(seed * 31 + max_depth as u64, unit);
            let tree = ExprTree::random(max_depth, arity, &mut rng);
            assert!(height(&tree) <= max_depth, "{tree:?}");
            assert!(grown_within(&tree, max_depth, arity), "{tree:?}");
            kinds[match tree {
                ExprTree::Index(_) => 0,
                ExprTree::Constant(_) => 1,
                ExprTree::Add(_, _) => 2,
                ExprTree::Sub(_, _) => 3,
                ExprTree::Mul(_, _) => 4,
                ExprTree::Div(_, _) => 5,
                ExprTree::Pow(_, _) => panic!("no power comes out of random growth"),
            }] = true;
        }
    }
    assert!(kinds.iter().all(|k| *k));
}

#[test]
pub fn random_exprs() {
    let reals = RefCell::new(SmallRng::seed_from_u64(10));
    let unit = || num(reals.borrow_mut().random_range(-1.0..1.0));
    let mut rng = RandomSource::seeded(10, unit);
    let expr = ExprTree::random(3, 3, &mut rng);
    println!("{:?}", expr);
    assert!(height(&expr) <= 3);
}

fn is_mutant(before: &ExprTree, after: &ExprTree, arity: usize) -> bool {
    if before == after {
        return true;
    }
    match (before, after) {
        (ExprTree::Index(_), ExprTree::Index(j)) => *j < arity,
        (ExprTree::Index(_), _) => false,
        (ExprTree::Constant(_), ExprTree::Constant(_)) => true,
        (ExprTree::Constant(_), ExprTree::Add(l, r)) | (ExprTree::Constant(_), ExprTree::Mul(l, r)) => {
            **l == *before && **r == *before
        }
        (ExprTree::Constant(_), _) => false,
        (_, ExprTree::Constant(v)) => (-1.0..1.0).contains(&float(*v)),
        (_, ExprTree::Index(_)) => false,
        (b, a) => {
            let (bl, br) = operands(b);
            let (al, ar) = operands(a);
            !(matches!(b, ExprTree::Add(_, _)) && matches!(a, ExprTree::Pow(_, _)))
                && is_mutant(bl, al, arity)
                && is_mutant(br, ar, arity)
        }
    }
}

fn operands(tree: &ExprTree) -> (&ExprTree, &ExprTree) {
    match tree {
        ExprTree::Add(l, r)
        | ExprTree::Sub(l, r)
        | ExprTree::Mul(l, r)
        | ExprTree::Div(l, r)
        | ExprTree::Pow(l, r) => (l, r),
        _ => unreachable!(),
    }
}

#[test]
fn mutated_gives_a_mutant_and_may_deepen() {
    let mut deeper = false;
    let mut shallower = false;
    let mut changed_leaf = false;
    for seed in 0..400 {
        let reals = RefCell::new(SmallRng::seed_from_u64(seed ^ 0xabcdef));
        let unit = || num(reals.borrow_mut().random_range(-1.0..1.0));
        let mut rng = RandomSource::seeded(seed, unit);
        let mut tree = ExprTree::random(3, 3, &mut rng);
        for _ in 0..6 {
            let before = tree.clone();
            tree = tree.mutated(3, &mut rng, &arith);
            assert!(is_mutant(&before, &tree, 3), "{before:?} -> {tree:?}");
            deeper |= height(&tree) > height(&before);
            shallower |= height(&tree) < height(&before);
            changed_leaf |= matches!((&before, &tree), (ExprTree::Constant(a), ExprTree::Constant(b)) if a != b);
        }
    }
    assert!(deeper && shallower && changed_leaf);
}

#[test]
fn mutation_goes_past_the_depth_of_growth() {
    let reals = RefCell::new(SmallRng::seed_from_u64(5));
    let unit = || num(reals.borrow_mut().random_range(-1.0..1.0));
    let mut rng = RandomSource::seeded(5, unit);
    let mut tallest = 0;
    for _ in 0..200 {
        let mut tree = ExprTree::random(1, 2, &mut rng);
        for _ in 0..30 {
            tree = tree.mutated(2, &mut rng, &arith);
            tallest = tallest.max(height(&tree));
        }
    }
    assert!(tallest > 1, "{tallest}");
}

#[test]
fn perturbing_is_sum_then_product() {
    // every real drawn is 0.5, so a perturbed constant c is (c + 0.5) * 0.5
    let mut perturbed = 0;
    for seed in 0..200 {
        let mut rng = RandomSource::seeded(seed, || num(0.5));
        let out = constant(3.0).mutated(1, &mut rng, &arith);
        match out {
            ExprTree::Constant(v) if v == val(3.0) => {}
            ExprTree::Constant(v) => {
                assert_eq!(float(v), 1.75);
                perturbed += 1;
            }
            ExprTree::Add(l, r) | ExprTree::Mul(l, r) => {
                assert_eq!(*l, constant(3.0));
                assert_eq!(*r, constant(3.0));
            }
            other => panic!("{other:?}"),
        }
    }
    assert!(perturbed > 0);
}

#[test]
fn redrawn_inputs_stay_below_arity() {
    for seed in 0..200 {
        let mut rng = RandomSource::seeded(seed, || num(0.0));
        match ExprTree::Index(9).mutated(2, &mut rng, &arith) {
            ExprTree::Index(j) => assert!(j == 9 || j < 2),
            other => panic!("{other:?}"),
        }
    }
}

fn written(tree: &ExprTree) -> String {
    tree.pretty_print(0)
        .iter()
        .map(|token| match (token.text(), token) {
            (Some(text), _) => text.to_string(),
            (None, Token::Value(v)) => format!("{}", float(*v)),
            (None, _) => unreachable!(),
        })
        .collect()
}

#[test]
fn writing_out_brackets_only_where_needed() {
    let x = || Box::new(ExprTree::Index(0));
    let z = || Box::new(ExprTree::Index(1));
    let c = |v: f64| Box::new(constant(v));
    assert_eq!(written(&ExprTree::Index(0)), "x");
    assert_eq!(written(&ExprTree::Index(1)), "z");
    assert_eq!(written(&ExprTree::Index(2)), "0.0");
    assert_eq!(written(&constant(2.5)), "2.5");
    assert_eq!(written(&ExprTree::Add(x(), c(1.0))), "x + 1");
    let sum = || Box::new(ExprTree::Add(x(), z()));
    let diff = || Box::new(ExprTree::Sub(x(), z()));
    let prod = || Box::new(ExprTree::Mul(x(), z()));
    let quot = || Box::new(ExprTree::Div(x(), z()));
    let power = || Box::new(ExprTree::Pow(x(), z()));
    assert_eq!(written(&ExprTree::Mul(sum(), c(2.0))), "(x + z) * 2");
    assert_eq!(written(&ExprTree::Add(prod(), c(2.0))), "x * z + 2");
    assert_eq!(written(&ExprTree::Add(c(2.0), sum())), "2 + x + z");
    assert_eq!(written(&ExprTree::Sub(c(2.0), sum())), "2 - (x + z)");
    assert_eq!(written(&ExprTree::Sub(c(2.0), diff())), "2 - (x - z)");
    assert_eq!(written(&ExprTree::Sub(diff(), c(2.0))), "x - z - 2");
    assert_eq!(written(&ExprTree::Mul(c(2.0), prod())), "2 * x * z");
    assert_eq!(written(&ExprTree::Div(c(2.0), prod())), "2 / (x * z)");
    assert_eq!(written(&ExprTree::Div(c(2.0), quot())), "2 / (x / z)");
    assert_eq!(written(&ExprTree::Div(quot(), c(2.0))), "x / z / 2");
    assert_eq!(written(&ExprTree::Div(c(2.0), power())), "2 / x ^ z");
    assert_eq!(written(&ExprTree::Pow(c(2.0), power())), "2 ^ (x ^ z)");
    assert_eq!(written(&ExprTree::Pow(power(), c(2.0))), "x ^ z ^ 2");
    assert_eq!(written(&ExprTree::Pow(prod(), sum())), "(x * z) ^ (x + z)");
    assert_eq!(written(&ExprTree::Pow(c(2.0), c(3.0))), "2 ^ 3");
}

#[test]
fn tokens_of_a_small_tree() {
    let tree = ExprTree::Mul(
        Box::new(ExprTree::Sub(Box::new(ExprTree::Index(0)), Box::new(constant(1.0)))),
        Box::new(ExprTree::Index(3)),
    );
    assert_eq!(
        tree.pretty_print(0),
        vec![
            Token::Open,
            Token::Input(0),
            Token::Operator(BinaryOp::Sub),
            Token::Value(val(1.0)),
            Token::Close,
            Token::Operator(BinaryOp::Mul),
            Token::Input(3),
        ]
    );
    assert_eq!(
        ExprTree::Index(0).pretty_print(9),
        vec![Token::Open, Token::Input(0), Token::Close]
    );
    assert_eq!(ExprTree::Index(0).pretty_print(8), vec![Token::Input(0)]);
    let mut out = vec![Token::Close];
    constant(1.0).pretty_print_to(&mut out, 5);
    assert_eq!(out, vec![Token::Close, Token::Open, Token::Value(val(1.0)), Token::Close]);
}

#[test]
fn token_texts() {
    assert_eq!(Token::Open.text(), Some("("));
    assert_eq!(Token::Close.text(), Some(")"));
    assert_eq!(Token::Operator(BinaryOp::Add).text(), Some(" + "));
    assert_eq!(Token::Operator(BinaryOp::Sub).text(), Some(" - "));
    assert_eq!(Token::Operator(BinaryOp::Mul).text(), Some(" * "));
    assert_eq!(Token::Operator(BinaryOp::Div).text(), Some(" / "));
    assert_eq!(Token::Operator(BinaryOp::Pow).text(), Some(" ^ "));
    assert_eq!(Token::Input(0).text(), Some("x"));
    assert_eq!(Token::Input(1).text(), Some("z"));
    assert_eq!(Token::Input(2).text(), Some("0.0"));
    assert_eq!(Token::Input(usize::MAX).text(), Some("0.0"));
    assert_eq!(Token::Value(val(1.0)).text(), None);
    assert_eq!(right_adjust(BinaryOp::Add), 0);
    assert_eq!(right_adjust(BinaryOp::Sub), 1);
    assert_eq!(right_adjust(BinaryOp::Mul), 0);
    assert_eq!(right_adjust(BinaryOp::Div), 1);
    assert_eq!(right_adjust(BinaryOp::Pow), 1);
}
