use expr_evolution::random::RandomSource;
use expr_evolution::values::{
    BinaryOp, Number, ValTree, INFINITY_BITS, NEGATIVE_INFINITY_BITS, SIGN_BIT, ZERO_BITS,
};
use expr_evolution::IntoBox;
use ordered_float::OrderedFloat;
use rand::rngs::SmallRng;
use rand::{Rng, SeedableRng};

fn num(x: f64) -> Number {
    Number::new(x.to_bits())
}

fn float(n: Number) -> f64 {
    f64::from_bits(n.as_f64())
}

fn arith(op: BinaryOp, a: Number, b: Number) -> Number {
    let (x, y) = (float(a), float(b));
    num(match op {
        BinaryOp::Add => x + y,
        BinaryOp::Sub => x - y,
        BinaryOp::Mul => x * y,
        BinaryOp::Div => x / y,
        BinaryOp::Pow => x.powf(y),
    })
}

#[test]
fn number_keeps_its_encoding() {
    let n = Number::new(10.0f64.to_bits());
    assert_eq!(float(n), 10.0);
    assert_eq!(n.as_f64(), 0x4024_0000_0000_0000);
    assert_eq!(ValTree::Number(n).as_f64(), 0x4024_0000_0000_0000);
    assert_eq!(ValTree::Number(n).as_number(), n);
}

#[test]
fn constants_are_the_encodings_they_name() {
    assert_eq!(ZERO_BITS, 0.0f64.to_bits());
    assert_eq!(INFINITY_BITS, f64::INFINITY.to_bits());
    assert_eq!(NEGATIVE_INFINITY_BITS, f64::NEG_INFINITY.to_bits());
    assert_eq!(SIGN_BIT, (-0.0f64).to_bits());
    assert_eq!(Number::zero().as_f64(), 0);
    assert_eq!(float(Number::lowest()), f64::NEG_INFINITY);
}

#[test]
fn is_nan_agrees_with_the_machine() {
    let samples = [
        0.0,
        -0.0,
        1.0,
        -1.0,
        f64::MIN_POSITIVE,
        f64::MAX,
        f64::MIN,
        f64::INFINITY,
        f64::NEG_INFINITY,
        f64::NAN,
        -f64::NAN,
        0.0 / 0.0,
        f64::from_bits(0x7ff0_0000_0000_0001),
        f64::from_bits(0xfff0_0000_0000_0001),
        f64::from_bits(0x7fff_ffff_ffff_ffff),
    ];
    for x in samples {
        assert_eq!(num(x).is_nan(), x.is_nan(), "{x}");
    }
}

#[test]
fn rank_key_of_chosen_encodings() {
    assert_eq!(num(0.0).rank_key(), 0);
    assert_eq!(num(-0.0).rank_key(), 0);
    assert_eq!(num(1.0).rank_key(), 0x3ff0_0000_0000_0000);
    assert_eq!(num(-1.0).rank_key(), -0x3ff0_0000_0000_0000);
    assert_eq!(num(f64::INFINITY).rank_key(), 0x7ff0_0000_0000_0000);
    assert_eq!(Number::lowest().rank_key(), -0x7ff0_0000_0000_0000);
    assert_eq!(Number::new(u64::MAX).rank_key(), -i64::MAX);
    assert_eq!(Number::new(i64::MAX as u64).rank_key(), i64::MAX);
}

#[test]
fn rank_key_follows_the_order_of_the_reals() {
    let ascending = [
        f64::NEG_INFINITY,
        f64::MIN,
        -1.0e300,
        -30.0,
        -2.5,
        -1.0,
        -f64::MIN_POSITIVE,
        -5e-324,
        0.0,
        5e-324,
        f64::MIN_POSITIVE,
        0.5,
        1.0,
        2.5,
        30.0,
        1.0e300,
        f64::MAX,
        f64::INFINITY,
    ];
    for pair in ascending.windows(2) {
        assert!(num(pair[0]).rank_key() < num(pair[1]).rank_key(), "{} {}", pair[0], pair[1]);
    }
    assert_eq!(num(0.0).rank_key(), num(-0.0).rank_key());
}

#[test]
fn operations_ask_the_arithmetic() {
    let a = num(6.0);
    let b = num(1.5);
    assert_eq!(float(a.add(b, &arith)), 7.5);
    assert_eq!(float(a.sub(b, &arith)), 4.5);
    assert_eq!(float(a.mul(b, &arith)), 9.0);
    assert_eq!(float(a.div(b, &arith)), 4.0);
    assert_eq!(float(num(4.0).pow(num(0.5), &arith)), 2.0);
    let (va, vb) = (ValTree::Number(a), ValTree::Number(b));
    assert_eq!(va.add(vb, &arith), ValTree::Number(num(7.5)));
    assert_eq!(va.sub(vb, &arith), ValTree::Number(num(4.5)));
    assert_eq!(va.mul(vb, &arith), ValTree::Number(num(9.0)));
    assert_eq!(va.div(vb, &arith), ValTree::Number(num(4.0)));
    assert_eq!(ValTree::Number(num(4.0)).pow(ValTree::Number(num(0.5)), &arith), ValTree::Number(num(2.0)));
}

#[test]
fn operations_hand_over_operands_in_order() {
    let spy = |op: BinaryOp, a: Number, b: Number| {
        Number::new(match op {
            BinaryOp::Add => 1000,
            BinaryOp::Sub => 2000,
            BinaryOp::Mul => 3000,
            BinaryOp::Div => 4000,
            BinaryOp::Pow => 5000,
        } + 10 * a.as_f64() + b.as_f64())
    };
    let (a, b) = (Number::new(7), Number::new(3));
    assert_eq!(a.add(b, &spy).as_f64(), 1073);
    assert_eq!(a.sub(b, &spy).as_f64(), 2073);
    assert_eq!(a.mul(b, &spy).as_f64(), 3073);
    assert_eq!(a.div(b, &spy).as_f64(), 4073);
    assert_eq!(a.pow(b, &spy).as_f64(), 5073);
}

#[test]
fn division_by_zero_is_not_guarded() {
    assert_eq!(float(num(1.0).div(num(0.0), &arith)), f64::INFINITY);
    assert!(num(0.0).div(num(0.0), &arith).is_nan());
    assert!(num(-8.0).pow(num(0.5), &arith).is_nan());
}

#[test]
fn number_random_is_the_sources_draw() {
    let mut rng = RandomSource::seeded(3, || Number::new(0.25f64.to_bits()));
    assert_eq!(float(Number::random(&mut rng)), 0.25);
    assert_eq!(float(rng.sample()), 0.25);
}

#[test]
fn boxed_keeps_the_value() {
    let b: Box<u32> = 17u32.boxed();
    assert_eq!(*b, 17);
    let n: Box<Number> = num(2.0).boxed();
    assert_eq!(*n, num(2.0));
}

#[test]
fn between_stays_in_range_and_varies() {
    let mut rng = RandomSource::seeded(11, || Number::zero());
    let mut seen = [false; 5];
    for _ in 0..500 {
        let r = rng.between(5, 9);
        assert!((5..=9).contains(&r));
        seen[r - 5] = true;
    }
    assert!(seen.iter().all(|s| *s));
    for _ in 0..50 {
        assert_eq!(rng.between(4, 4), 4);
    }
    for _ in 0..500 {
        assert!(rng.below(3) < 3);
    }
    assert_eq!(rng.below(1), 0);
}

#[test]
fn equal_seeds_give_equal_draws() {
    let mut a = RandomSource::seeded(99, || Number::zero());
    let mut b = RandomSource::seeded(99, || Number::zero());
    let mut c = RandomSource::seeded(100, || Number::zero());
    let xs: Vec<usize> = (0..64).map(|_| a.between(0, 1_000_000)).collect();
    let ys: Vec<usize> = (0..64).map(|_| b.between(0, 1_000_000)).collect();
    let zs: Vec<usize> = (0..64).map(|_| c.between(0, 1_000_000)).collect();
    assert_eq!(xs, ys);
    assert_ne!(xs, zs);
}

#[test]
fn rank_key_orders_as_ordered_reals_do() {
    let mut bits = SmallRng::seed_from_u64(2024);
    let mut compared = 0;
    for _ in 0..20_000 {
        let (a, b) = (Number::new(bits.random()), Number::new(bits.random()));
        assert_eq!(a.is_nan(), float(a).is_nan());
        if a.is_nan() || b.is_nan() {
            continue;
        }
        assert_eq!(
            a.rank_key().cmp(&b.rank_key()),
            OrderedFloat(float(a)).cmp(&OrderedFloat(float(b))),
            "{} {}",
            float(a),
            float(b)
        );
        compared += 1;
    }
    assert!(compared > 19_000);
    // close neighbours, where the exponent is shared
    for _ in 0..20_000 {
        let x: f64 = bits.random_range(-2.0..2.0);
        let y = x + bits.random_range(-1.0e-9..1.0e-9);
        assert_eq!(
            num(x).rank_key().cmp(&num(y).rank_key()),
            OrderedFloat(x).cmp(&OrderedFloat(y)),
            "{x} {y}"
        );
    }
}
