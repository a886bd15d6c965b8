use exprcalc::binary64::{
    bits_equal, bits_is_nan, bits_is_zero, bits_less, bits_negated, floor, from_i64,
};
use exprcalc::token::{BinaryOperatorType, Token};
use exprcalc::value::{Computation, FloatOp, FloatOperand, FloatRequest, Value};
use std::cmp::Ordering;

fn ready(computation: Computation) -> Value {
    match computation {
        Computation::Ready(value) => value,
        other => panic!("not ready: {:?}", other),
    }
}

fn deferred(computation: Computation) -> FloatRequest {
    match computation {
        Computation::Deferred(request) => request,
        other => panic!("not deferred: {:?}", other),
    }
}

fn integer(value: Value) -> i64 {
    match value {
        Value::Integer(i) => i,
        other => panic!("no integer: {:?}", other),
    }
}

fn number(x: f64) -> Value {
    Value::Float(x.to_bits())
}

fn samples() -> Vec<i64> {
    let mut out = vec![
        0,
        1,
        -1,
        2,
        3,
        -3,
        7,
        255,
        -256,
        1 << 52,
        (1 << 52) + 1,
        (1 << 53) - 1,
        1 << 53,
        (1 << 53) + 1,
        (1 << 53) + 2,
        (1 << 53) + 3,
        (1 << 54) + 2,
        (1 << 54) + 6,
        (1 << 60) + 127,
        (1 << 60) + 128,
        (1 << 60) + 129,
        (1 << 60) + 384,
        i64::MAX,
        i64::MAX - 1,
        i64::MAX - 511,
        i64::MAX - 512,
        i64::MAX - 1023,
        i64::MIN,
        i64::MIN + 1,
        i64::MIN + 1024,
        i64::MIN + 1025,
        0x0123_4567_89ab_cdef,
        -0x0123_4567_89ab_cdef,
    ];
    let mut x: i64 = 0x2545_f491_4f6c_dd1d;
    for _ in 0..2000 {
        x ^= x << 13;
        x ^= ((x as u64) >> 7) as i64;
        x ^= x << 17;
        out.push(x);
        out.push(x >> 9);
        out.push(x >> 20);
        out.push(x >> 40);
    }
    out
}

fn float_samples() -> Vec<f64> {
    let mut out = vec![
        0.0,
        -0.0,
        0.5,
        -0.5,
        0.999999,
        -0.000001,
        1.0,
        -1.0,
        1.5,
        -1.5,
        2.5,
        -2.5,
        1e-320,
        -1e-320,
        f64::MIN_POSITIVE,
        4503599627370495.5,
        -4503599627370495.5,
        4503599627370496.0,
        9007199254740992.0,
        -9007199254740993.0,
        9223372036854775807.0,
        -9223372036854775808.0,
        9223372036854774784.0,
        -9223372036854777856.0,
        1e19,
        -1e19,
        1e300,
        -1e300,
        f64::MAX,
        f64::MIN,
        f64::INFINITY,
        f64::NEG_INFINITY,
        f64::NAN,
        -f64::NAN,
    ];
    let mut x: u64 = 0x9e37_79b9_7f4a_7c15;
    for _ in 0..4000 {
        x ^= x << 13;
        x ^= x >> 7;
        x ^= x << 17;
        out.push(f64::from_bits(x));
        out.push((x as i64 as f64) / 1024.0);
        out.push((x as i64 >> 30) as f64 / 8.0);
    }
    out
}

#[test]
fn integer_to_float_is_the_nearest_number() {
    for i in samples() {
        assert_eq!(from_i64(i), (i as f64).to_bits(), "for {}", i);
    }
}

#[test]
fn integer_to_float_rounds_ties_to_even() {
    assert_eq!(from_i64((1 << 53) + 1), 9007199254740992.0f64.to_bits());
    assert_eq!(from_i64((1 << 53) + 3), 9007199254740996.0f64.to_bits());
    assert_eq!(from_i64(i64::MAX), 9223372036854775808.0f64.to_bits());
    assert_eq!(from_i64(1), 0x3ff0_0000_0000_0000);
    assert_eq!(from_i64(-2), 0xc000_0000_0000_0000);
}

#[test]
fn floor_is_the_floor_of_the_hardware() {
    for x in float_samples() {
        assert_eq!(floor(x.to_bits()), x.floor() as i64, "for {:e}", x);
    }
}

#[test]
fn floor_of_chosen_numbers() {
    assert_eq!(floor(3.75f64.to_bits()), 3);
    assert_eq!(floor((-3.5f64).to_bits()), -4);
    assert_eq!(floor((-3.0f64).to_bits()), -3);
    assert_eq!(floor((-0.25f64).to_bits()), -1);
    assert_eq!(floor((-0.0f64).to_bits()), 0);
    assert_eq!(floor(f64::NAN.to_bits()), 0);
    assert_eq!(floor(f64::INFINITY.to_bits()), i64::MAX);
    assert_eq!(floor(f64::NEG_INFINITY.to_bits()), i64::MIN);
    assert_eq!(floor(1e30f64.to_bits()), i64::MAX);
}

#[test]
fn order_of_bits_is_the_order_of_the_hardware() {
    let xs = float_samples();
    for (k, a) in xs.iter().enumerate() {
        for b in xs.iter().skip(k % 7).step_by(11) {
            assert_eq!(bits_less(a.to_bits(), b.to_bits()), a < b, "{:e} < {:e}", a, b);
            assert_eq!(bits_equal(a.to_bits(), b.to_bits()), a == b, "{:e} == {:e}", a, b);
        }
    }
}

#[test]
fn bits_of_special_numbers() {
    assert!(bits_is_nan(f64::NAN.to_bits()));
    assert!(bits_is_nan((-f64::NAN).to_bits()));
    assert!(!bits_is_nan(f64::INFINITY.to_bits()));
    assert!(!bits_is_nan(1.0f64.to_bits()));
    assert!(bits_is_zero(0.0f64.to_bits()));
    assert!(bits_is_zero((-0.0f64).to_bits()));
    assert!(!bits_is_zero(f64::MIN_POSITIVE.to_bits()));
    assert_eq!(bits_negated(1.5f64.to_bits()), (-1.5f64).to_bits());
    assert_eq!(bits_negated((-0.0f64).to_bits()), 0.0f64.to_bits());
    assert!(bits_equal(0.0f64.to_bits(), (-0.0f64).to_bits()));
    assert!(!bits_less((-0.0f64).to_bits(), 0.0f64.to_bits()));
    assert!(!bits_equal(f64::NAN.to_bits(), f64::NAN.to_bits()));
}

#[test]
fn integer_addition_subtraction_and_product() {
    assert_eq!(integer(ready(Value::Integer(2).add(Value::Integer(3)))), 5);
    assert_eq!(integer(ready(Value::Integer(2).sub(Value::Integer(3)))), -1);
    assert_eq!(integer(ready(Value::Integer(-4).mul(Value::Integer(3)))), -12);
}

#[test]
fn integer_arithmetic_wraps_around() {
    assert_eq!(integer(ready(Value::Integer(i64::MAX).add(Value::Integer(1)))), i64::MIN);
    assert_eq!(integer(ready(Value::Integer(i64::MIN).sub(Value::Integer(1)))), i64::MAX);
    assert_eq!(integer(ready(Value::Integer(i64::MAX).mul(Value::Integer(2)))), -2);
    assert_eq!(integer(Value::Integer(i64::MIN).neg()), i64::MIN);
    assert_eq!(
        integer(ready(Value::Integer(0x1234_5678_9abc_def0).mul(Value::Integer(0x0fed_cba9_8765_4321)))),
        0x1234_5678_9abc_def0i64.wrapping_mul(0x0fed_cba9_8765_4321)
    );
}

#[test]
fn integer_division_truncates_towards_zero() {
    assert_eq!(integer(ready(Value::Integer(7).div(Value::Integer(2)))), 3);
    assert_eq!(integer(ready(Value::Integer(-7).div(Value::Integer(2)))), -3);
    assert_eq!(integer(ready(Value::Integer(7).div(Value::Integer(-2)))), -3);
    assert_eq!(integer(ready(Value::Integer(-7).div(Value::Integer(-2)))), 3);
    assert_eq!(integer(ready(Value::Integer(0).div(Value::Integer(-5)))), 0);
    assert_eq!(integer(ready(Value::Integer(i64::MIN).div(Value::Integer(2)))), i64::MIN / 2);
    assert_eq!(integer(ready(Value::Integer(i64::MIN).div(Value::Integer(1)))), i64::MIN);
}

#[test]
fn integer_remainder_has_the_sign_of_the_dividend() {
    assert_eq!(integer(ready(Value::Integer(7).rem(Value::Integer(3)))), 1);
    assert_eq!(integer(ready(Value::Integer(-7).rem(Value::Integer(3)))), -1);
    assert_eq!(integer(ready(Value::Integer(7).rem(Value::Integer(-3)))), 1);
    assert_eq!(integer(ready(Value::Integer(-7).rem(Value::Integer(-3)))), -1);
    assert_eq!(integer(ready(Value::Integer(6).rem(Value::Integer(3)))), 0);
}

#[test]
fn division_is_not_defined_for_every_pair_of_integers() {
    assert!(!Value::Integer(1).can_divide_by(&Value::Integer(0)));
    assert!(!Value::Integer(i64::MIN).can_divide_by(&Value::Integer(-1)));
    assert!(Value::Integer(i64::MIN).can_divide_by(&Value::Integer(1)));
    assert!(Value::Integer(1).can_divide_by(&Value::Integer(-1)));
    assert!(Value::Integer(1).can_divide_by(&number(0.0)));
    assert!(number(1.0).can_divide_by(&Value::Integer(0)));
    assert!(Value::Undefined.can_divide_by(&Value::Integer(0)));
}

#[test]
fn integer_power() {
    assert_eq!(integer(ready(Value::Integer(2).pow(Value::Integer(10)))), 1024);
    assert_eq!(integer(ready(Value::Integer(3).pow(Value::Integer(4)))), 81);
    assert_eq!(integer(ready(Value::Integer(-2).pow(Value::Integer(3)))), -8);
    assert_eq!(integer(ready(Value::Integer(7).pow(Value::Integer(0)))), 1);
    assert_eq!(integer(ready(Value::Integer(0).pow(Value::Integer(0)))), 1);
    assert_eq!(integer(ready(Value::Integer(7).pow(Value::Integer(1)))), 7);
}

#[test]
fn integer_power_wraps_around_and_takes_the_low_bits_of_the_exponent() {
    assert_eq!(integer(ready(Value::Integer(2).pow(Value::Integer(63)))), i64::MIN);
    assert_eq!(integer(ready(Value::Integer(2).pow(Value::Integer(64)))), 0);
    assert_eq!(integer(ready(Value::Integer(3).pow(Value::Integer(100)))), 3i64.wrapping_pow(100));
    assert_eq!(
        integer(ready(Value::Integer(-7).pow(Value::Integer(12345)))),
        (-7i64).wrapping_pow(12345)
    );
    assert_eq!(
        integer(ready(Value::Integer(3).pow(Value::Integer(-1)))),
        3i64.wrapping_pow(u32::MAX)
    );
    assert_eq!(integer(ready(Value::Integer(5).pow(Value::Integer((1 << 32) + 2)))), 25);
}

#[test]
fn an_undefined_operand_makes_arithmetic_undefined() {
    let others = [Value::Undefined, Value::Integer(3), number(1.5)];
    for other in others {
        assert!(ready(Value::Undefined.add(other)).is_undefined());
        assert!(ready(other.add(Value::Undefined)).is_undefined());
        assert!(ready(Value::Undefined.sub(other)).is_undefined());
        assert!(ready(other.sub(Value::Undefined)).is_undefined());
        assert!(ready(Value::Undefined.mul(other)).is_undefined());
        assert!(ready(other.mul(Value::Undefined)).is_undefined());
        assert!(ready(Value::Undefined.div(other)).is_undefined());
        assert!(ready(other.div(Value::Undefined)).is_undefined());
        assert!(ready(Value::Undefined.rem(other)).is_undefined());
        assert!(ready(other.rem(Value::Undefined)).is_undefined());
        assert!(ready(Value::Undefined.pow(other)).is_undefined());
        assert!(ready(other.pow(Value::Undefined)).is_undefined());
    }
    assert!(Value::Undefined.neg().is_undefined());
    assert!(Value::Undefined.floor().is_undefined());
    assert!(!Value::Integer(0).is_undefined());
}

#[test]
fn a_float_operand_defers_the_operation() {
    let request = deferred(Value::Integer(2).add(number(1.5)));
    assert!(matches!(
        request,
        FloatRequest::Binary(FloatOp::Add, l, r) if l == 2.0f64.to_bits() && r == 1.5f64.to_bits()
    ));
    let request = deferred(number(1.5).sub(Value::Integer(-3)));
    assert!(matches!(
        request,
        FloatRequest::Binary(FloatOp::Sub, l, r) if l == 1.5f64.to_bits() && r == (-3.0f64).to_bits()
    ));
    let request = deferred(number(1.5).mul(number(2.5)));
    assert!(matches!(
        request,
        FloatRequest::Binary(FloatOp::Mul, l, r) if l == 1.5f64.to_bits() && r == 2.5f64.to_bits()
    ));
    let request = deferred(Value::Integer(1).div(number(0.0)));
    assert!(matches!(
        request,
        FloatRequest::Binary(FloatOp::Div, l, r) if l == 1.0f64.to_bits() && r == 0
    ));
    let request = deferred(number(7.5).rem(Value::Integer(0)));
    assert!(matches!(
        request,
        FloatRequest::Binary(FloatOp::Rem, l, r) if l == 7.5f64.to_bits() && r == 0
    ));
}

#[test]
fn powers_with_a_float_operand() {
    let request = deferred(Value::Integer(2).pow(number(0.5)));
    assert!(matches!(
        request,
        FloatRequest::Binary(FloatOp::Pow, l, r) if l == 2.0f64.to_bits() && r == 0.5f64.to_bits()
    ));
    let request = deferred(number(2.5).pow(number(0.5)));
    assert!(matches!(
        request,
        FloatRequest::Binary(FloatOp::Pow, l, r) if l == 2.5f64.to_bits() && r == 0.5f64.to_bits()
    ));
    let request = deferred(number(1.5).pow(Value::Integer(-2)));
    assert!(matches!(request, FloatRequest::PowInt(b, -2) if b == 1.5f64.to_bits()));
    let request = deferred(number(1.5).pow(Value::Integer((1 << 32) + 3)));
    assert!(matches!(request, FloatRequest::PowInt(b, 3) if b == 1.5f64.to_bits()));
}

#[test]
fn negation() {
    assert_eq!(integer(Value::Integer(5).neg()), -5);
    assert!(matches!(number(1.5).neg(), Value::Float(b) if b == (-1.5f64).to_bits()));
    assert!(matches!(number(0.0).neg(), Value::Float(b) if b == (-0.0f64).to_bits()));
}

#[test]
fn floor_of_values() {
    assert_eq!(integer(Value::Integer(-7).floor()), -7);
    assert_eq!(integer(number(3.75).floor()), 3);
    assert_eq!(integer(number(-3.5).floor()), -4);
}

#[test]
fn value_as_float() {
    assert_eq!(Value::Undefined.as_float(), 0.0f64.to_bits());
    assert_eq!(Value::Integer(3).as_float(), 3.0f64.to_bits());
    assert_eq!(Value::Integer(-1).as_float(), (-1.0f64).to_bits());
    assert_eq!(number(2.5).as_float(), 2.5f64.to_bits());
}

#[test]
fn bitwise_operators_on_integers() {
    assert_eq!(integer(Value::Integer(5).bitand(Value::Integer(3)).unwrap()), 1);
    assert_eq!(integer(Value::Integer(5).bitor(Value::Integer(3)).unwrap()), 7);
    assert_eq!(integer(Value::Integer(5).bitxor(Value::Integer(3)).unwrap()), 6);
    assert_eq!(integer(Value::Integer(-1).bitand(Value::Integer(0xff)).unwrap()), 0xff);
    assert_eq!(integer(Value::Integer(1).shl(Value::Integer(4)).unwrap()), 16);
    assert_eq!(integer(Value::Integer(256).shr(Value::Integer(4)).unwrap()), 16);
    assert_eq!(integer(Value::Integer(-256).shr(Value::Integer(4)).unwrap()), -16);
    assert_eq!(integer(Value::Integer(1).shl(Value::Integer(63)).unwrap()), i64::MIN);
}

#[test]
fn shift_amount_is_taken_by_its_low_six_bits() {
    assert_eq!(integer(Value::Integer(1).shl(Value::Integer(64)).unwrap()), 1);
    assert_eq!(integer(Value::Integer(1).shl(Value::Integer(65)).unwrap()), 2);
    assert_eq!(integer(Value::Integer(1).shl(Value::Integer(-1)).unwrap()), i64::MIN);
    assert_eq!(integer(Value::Integer(-8).shr(Value::Integer(66)).unwrap()), -2);
    assert_eq!(integer(Value::Integer(16).shr(Value::Integer(-60)).unwrap()), 1);
}

#[test]
fn bitwise_operators_reject_floats_on_either_side() {
    assert_eq!(
        number(5.0).bitand(Value::Integer(3)).unwrap_err(),
        FloatOperand(BinaryOperatorType::And)
    );
    assert_eq!(
        Value::Integer(3).bitor(number(5.0)).unwrap_err(),
        FloatOperand(BinaryOperatorType::Or)
    );
    assert_eq!(
        Value::Undefined.bitxor(number(5.0)).unwrap_err(),
        FloatOperand(BinaryOperatorType::Xor)
    );
    assert_eq!(
        number(5.0).shl(Value::Undefined).unwrap_err(),
        FloatOperand(BinaryOperatorType::Shl)
    );
    assert_eq!(number(5.0).shr(number(1.0)).unwrap_err(), FloatOperand(BinaryOperatorType::Shr));
}

#[test]
fn bitwise_operators_with_an_undefined_operand() {
    assert!(Value::Undefined.bitand(Value::Integer(3)).unwrap().is_undefined());
    assert!(Value::Integer(3).bitor(Value::Undefined).unwrap().is_undefined());
    assert!(Value::Undefined.bitxor(Value::Undefined).unwrap().is_undefined());
    assert!(Value::Integer(3).shl(Value::Undefined).unwrap().is_undefined());
    assert!(Value::Undefined.shr(Value::Integer(1)).unwrap().is_undefined());
}

#[test]
fn equality_of_values() {
    assert!(Value::Undefined == Value::Undefined);
    assert!(Value::Undefined != Value::Integer(0));
    assert!(Value::Integer(0) != Value::Undefined);
    assert!(number(0.0) != Value::Undefined);
    assert!(Value::Integer(3) == Value::Integer(3));
    assert!(Value::Integer(3) != Value::Integer(4));
    assert!(Value::Integer(2) == number(2.0));
    assert!(number(2.0) == Value::Integer(2));
    assert!(Value::Integer(2) != number(2.5));
    assert!(number(1.5) == number(1.5));
    assert!(number(0.0) == number(-0.0));
    assert!(number(f64::NAN) != number(f64::NAN));
    assert!(Value::Integer((1 << 53) + 1) != Value::Integer(1 << 53));
    assert!(Value::Integer((1 << 53) + 1) == number(9007199254740992.0));
}

#[test]
fn three_classes_of_the_order() {
    assert_eq!(Value::Integer(1).cmp(&Value::Integer(2)), Ordering::Less);
    assert_eq!(Value::Integer(2).cmp(&Value::Integer(2)), Ordering::Equal);
    assert_eq!(Value::Integer(3).cmp(&Value::Integer(2)), Ordering::Greater);
    assert_eq!(Value::Integer(1).cmp(&number(1.5)), Ordering::Less);
    assert_eq!(number(1.5).cmp(&Value::Integer(1)), Ordering::Greater);
    assert_eq!(number(2.0).cmp(&Value::Integer(2)), Ordering::Equal);
    assert_eq!(Value::Undefined.cmp(&Value::Integer(2)), Ordering::Greater);
    assert_eq!(Value::Integer(2).cmp(&Value::Undefined), Ordering::Greater);
    assert_eq!(Value::Undefined.cmp(&Value::Undefined), Ordering::Greater);
    assert_eq!(number(f64::NAN).cmp(&number(1.0)), Ordering::Greater);
    assert_eq!(Value::Integer((1 << 53) + 1).cmp(&Value::Integer(1 << 53)), Ordering::Equal);
}

#[test]
fn partial_order_of_values() {
    assert_eq!(Value::Integer(1).partial_cmp(&Value::Integer(2)), Some(Ordering::Less));
    assert_eq!(Value::Integer(2).partial_cmp(&number(2.0)), Some(Ordering::Equal));
    assert_eq!(number(2.5).partial_cmp(&Value::Integer(2)), Some(Ordering::Greater));
    assert_eq!(Value::Undefined.partial_cmp(&Value::Integer(2)), None);
    assert_eq!(Value::Integer(2).partial_cmp(&Value::Undefined), None);
    assert_eq!(Value::Undefined.partial_cmp(&Value::Undefined), None);
    assert_eq!(number(f64::NAN).partial_cmp(&number(f64::NAN)), None);
    assert!(Value::Integer(1) < Value::Integer(2));
    assert!(Value::Integer(2) <= number(2.0));
    assert!(number(2.5) > Value::Integer(2));
    assert!(!(Value::Undefined < Value::Integer(2)));
    assert!(!(Value::Undefined >= Value::Integer(2)));
    assert!(Value::Integer(-5).is_below(&Value::Integer(3)));
    assert!(!Value::Integer(3).is_below(&Value::Integer(3)));
    assert!(Value::Integer(3).is_level_with(&number(3.0)));
    assert!(!Value::Undefined.is_level_with(&Value::Undefined));
}

#[test]
fn value_of_a_literal_token() {
    assert_eq!(integer(ready(Token::Integer(5).as_value().unwrap())), 5);
    let request = deferred(Token::Float("2.5".to_string()).as_value().unwrap());
    assert!(matches!(request, FloatRequest::Parse(text) if text == "2.5"));
    assert!(Token::Identifier("x".to_string()).as_value().is_none());
    assert!(Token::OpenParen.as_value().is_none());
}

#[test]
fn integers_of_up_to_53_bits_survive_promotion() {
    let limit: i64 = 1 << 53;
    for i in samples() {
        let i = i % (limit + 1);
        assert_eq!(floor(from_i64(i)), i);
    }
    for i in [0, 1, -1, limit, -limit, limit - 1, 1 - limit] {
        assert_eq!(floor(from_i64(i)), i);
    }
    assert_eq!(floor(from_i64(limit + 1)), limit);
}

#[test]
fn integers_of_up_to_53_bits_keep_their_order() {
    let limit: i64 = 1 << 53;
    let xs: Vec<i64> = samples().into_iter().map(|i| i % (limit + 1)).take(300).collect();
    for a in xs.iter() {
        for b in xs.iter().step_by(7) {
            assert_eq!(bits_less(from_i64(*a), from_i64(*b)), a < b);
            assert_eq!(bits_equal(from_i64(*a), from_i64(*b)), a == b);
            assert_eq!(Value::Integer(*a).is_below(&Value::Integer(*b)), a < b);
        }
    }
    assert!(!bits_less(from_i64(limit), from_i64(limit + 1)));
    assert!(bits_equal(from_i64(limit), from_i64(limit + 1)));
}
