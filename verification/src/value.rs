//! The numeric values of the expression language and their arithmetic.
//!
//! Integers are 64-bit and wrap around on overflow. Floating-point numbers are
//! carried as the bits of a binary64 number (see `binary64`); what can be read
//! off the bits is computed here, and arithmetic on them is handed back to the
//! caller as a `FloatRequest`.
use crate::binary64::{bits_negated, floor, floor_of, from_i64, negated, of_int};
use crate::token::{BinaryOperatorType, Token, TokenView};
use vstd::arithmetic::div_mod::{
    lemma_fundamental_div_mod, lemma_mod_bound, lemma_mul_mod_noop_general,
};
use vstd::arithmetic::power::{lemma_pow0, lemma_pow_mod_noop, pow};
use vstd::pervasive::unreached;
use vstd::prelude::*;

verus! {

#[derive(Debug, Clone, Copy)]
pub enum Value {
    Undefined,
    Integer(i64),
    /// A binary64 number, as its bits.
    Float(u64),
}

/// An operation on two binary64 numbers.
#[derive(Debug, Clone, Copy, PartialEq, Eq, Structural)]
pub enum FloatOp {
    Add,
    Sub,
    Mul,
    Div,
    /// The remainder of the division, with the sign of the dividend.
    Rem,
    /// The left number raised to the power of the right one.
    Pow,
}

/// Floating-point work that the caller is asked to do. Each answer is a
/// binary64 number, handed back as its bits.
#[derive(Debug)]
pub enum FloatRequest {
    /// The number nearest to the value that a decimal literal writes.
    Parse(String),
    /// The operation applied to a left and a right number.
    Binary(FloatOp, u64, u64),
    /// A number raised to an integer power.
    PowInt(u64, i32),
}

pub ghost enum FloatRequestView {
    Parse(Seq<char>),
    Binary(FloatOp, u64, u64),
    PowInt(u64, i32),
}

impl View for FloatRequest {
    type V = FloatRequestView;

    open spec fn view(&self) -> FloatRequestView {
        match self {
            FloatRequest::Parse(text) => FloatRequestView::Parse(text@),
            FloatRequest::Binary(op, left, right) => FloatRequestView::Binary(*op, *left, *right),
            FloatRequest::PowInt(base, exponent) => FloatRequestView::PowInt(*base, *exponent),
        }
    }
}

/// The outcome of an operation: a value, or floating-point work whose answer
/// `x` stands for the value `Float(x)`.
#[derive(Debug)]
pub enum Computation {
    Ready(Value),
    Deferred(FloatRequest),
}

pub ghost enum ComputationView {
    Ready(Value),
    Deferred(FloatRequestView),
}

impl View for Computation {
    type V = ComputationView;

    open spec fn view(&self) -> ComputationView {
        match self {
            Computation::Ready(value) => ComputationView::Ready(*value),
            Computation::Deferred(request) => ComputationView::Deferred(request@),
        }
    }
}

/// A bitwise operator met a floating-point operand; the operator is named.
#[derive(Debug, Clone, Copy, PartialEq, Eq, Structural)]
pub struct FloatOperand(pub BinaryOperatorType);

/// The 64-bit signed integer congruent to `x` modulo two to the power 64.
pub open spec fn wrap(x: int) -> i64 {
    let low = x % 0x1_0000_0000_0000_0000;
    if low > i64::MAX {
        (low - 0x1_0000_0000_0000_0000) as i64
    } else {
        low as i64
    }
}

/// The quotient of `x` by `d`, rounded towards zero.
pub open spec fn truncated_quotient(x: int, d: int) -> int
    recommends
        d != 0,
{
    if x >= 0 && d > 0 {
        x / d
    } else if x < 0 && d < 0 {
        (-x) / (-d)
    } else if x < 0 {
        -((-x) / d)
    } else {
        -(x / (-d))
    }
}

/// The remainder that goes with `truncated_quotient`; it has the sign of `x`.
pub open spec fn truncated_remainder(x: int, d: int) -> int
    recommends
        d != 0,
{
    x - d * truncated_quotient(x, d)
}

/// The low 32 bits of `x`, as an unsigned number.
pub open spec fn low_u32(x: i64) -> u32 {
    x as u32
}

/// The low 32 bits of `x`, as a signed number.
pub open spec fn low_i32(x: i64) -> i32 {
    x as i32
}

/// The number of places that a shift by `x` moves the bits: the low six bits of `x`.
pub open spec fn shift_places(x: i64) -> u32 {
    low_u32(x) % 64
}

impl Value {
    /// The binary64 number that the value is promoted to when it meets a
    /// floating-point operand; an undefined value counts as zero.
    pub open spec fn float_bits(self) -> u64 {
        match self {
            Value::Undefined => 0,
            Value::Integer(i) => of_int(i),
            Value::Float(bits) => bits,
        }
    }

    pub open spec fn negation(self) -> Value {
        match self {
            Value::Undefined => Value::Undefined,
            Value::Integer(i) => Value::Integer(wrap(-i)),
            Value::Float(bits) => Value::Float(negated(bits)),
        }
    }

    /// The pattern of the operators `+ - * / %`: an undefined operand makes the
    /// result undefined, two integers are combined by `on_integers`, and any
    /// other pair is promoted to binary64 and left to the floating-point
    /// operation `op`.
    pub open spec fn arithmetic(
        self,
        rhs: Value,
        op: FloatOp,
        on_integers: spec_fn(i64, i64) -> i64,
    ) -> ComputationView {
        match (self, rhs) {
            (Value::Undefined, _) | (_, Value::Undefined) => ComputationView::Ready(
                Value::Undefined,
            ),
            (Value::Integer(l), Value::Integer(r)) => ComputationView::Ready(
                Value::Integer(on_integers(l, r)),
            ),
            _ => ComputationView::Deferred(
                FloatRequestView::Binary(op, self.float_bits(), rhs.float_bits()),
            ),
        }
    }

    pub open spec fn sum(self, rhs: Value) -> ComputationView {
        self.arithmetic(rhs, FloatOp::Add, |l: i64, r: i64| wrap(l + r))
    }

    pub open spec fn difference(self, rhs: Value) -> ComputationView {
        self.arithmetic(rhs, FloatOp::Sub, |l: i64, r: i64| wrap(l - r))
    }

    pub open spec fn product(self, rhs: Value) -> ComputationView {
        self.arithmetic(rhs, FloatOp::Mul, |l: i64, r: i64| wrap(l * r))
    }

    pub open spec fn quotient(self, rhs: Value) -> ComputationView {
        self.arithmetic(
            rhs,
            FloatOp::Div,
            |l: i64, r: i64| truncated_quotient(l as int, r as int) as i64,
        )
    }

    pub open spec fn remainder(self, rhs: Value) -> ComputationView {
        self.arithmetic(
            rhs,
            FloatOp::Rem,
            |l: i64, r: i64| truncated_remainder(l as int, r as int) as i64,
        )
    }

    /// Whether `self / rhs` and `self % rhs` are defined: not for two integers
    /// of which the divisor is zero, or of which the quotient is out of range.
    pub open spec fn divisible_by(self, rhs: Value) -> bool {
        match (self, rhs) {
            (Value::Integer(l), Value::Integer(r)) => r != 0 && !(l == i64::MIN && r == -1),
            _ => true,
        }
    }

    /// `self` raised to the power `rhs`. Between integers the exponent is
    /// taken by its low 32 bits, as an unsigned number, and the power wraps
    /// around. A floating-point base is raised to an integer exponent taken by
    /// its low 32 bits, as a signed number.
    pub open spec fn power(self, rhs: Value) -> ComputationView {
        match (self, rhs) {
            (Value::Undefined, _) | (_, Value::Undefined) => ComputationView::Ready(
                Value::Undefined,
            ),
            (Value::Integer(l), Value::Integer(r)) => ComputationView::Ready(
                Value::Integer(wrap(pow(l as int, low_u32(r) as nat))),
            ),
            (Value::Integer(l), Value::Float(r)) => ComputationView::Deferred(
                FloatRequestView::Binary(FloatOp::Pow, of_int(l), r),
            ),
            (Value::Float(l), Value::Integer(r)) => ComputationView::Deferred(
                FloatRequestView::PowInt(l, low_i32(r)),
            ),
            (Value::Float(l), Value::Float(r)) => ComputationView::Deferred(
                FloatRequestView::Binary(FloatOp::Pow, l, r),
            ),
        }
    }

    pub open spec fn floored(self) -> Value {
        match self {
            Value::Undefined => Value::Undefined,
            Value::Integer(i) => Value::Integer(i),
            Value::Float(bits) => Value::Integer(floor_of(bits)),
        }
    }

    /// The pattern of the bitwise operators: a floating-point operand on
    /// either side is an error, whatever the other one is; else an undefined
    /// operand makes the result undefined; two integers are combined by
    /// `on_integers`.
    pub open spec fn bitwise(
        self,
        rhs: Value,
        op: BinaryOperatorType,
        on_integers: spec_fn(i64, i64) -> i64,
    ) -> Result<Value, FloatOperand> {
        match (self, rhs) {
            (Value::Float(_), _) | (_, Value::Float(_)) => Err(FloatOperand(op)),
            (Value::Undefined, _) | (_, Value::Undefined) => Ok(Value::Undefined),
            (Value::Integer(l), Value::Integer(r)) => Ok(Value::Integer(on_integers(l, r))),
        }
    }

    pub open spec fn conjunction(self, rhs: Value) -> Result<Value, FloatOperand> {
        self.bitwise(rhs, BinaryOperatorType::And, |l: i64, r: i64| l & r)
    }

    pub open spec fn disjunction(self, rhs: Value) -> Result<Value, FloatOperand> {
        self.bitwise(rhs, BinaryOperatorType::Or, |l: i64, r: i64| l | r)
    }

    pub open spec fn exclusive(self, rhs: Value) -> Result<Value, FloatOperand> {
        self.bitwise(rhs, BinaryOperatorType::Xor, |l: i64, r: i64| l ^ r)
    }

    pub open spec fn shifted_left(self, rhs: Value) -> Result<Value, FloatOperand> {
        self.bitwise(rhs, BinaryOperatorType::Shl, |l: i64, r: i64| l << shift_places(r))
    }

    pub open spec fn shifted_right(self, rhs: Value) -> Result<Value, FloatOperand> {
        self.bitwise(rhs, BinaryOperatorType::Shr, |l: i64, r: i64| l >> shift_places(r))
    }

    pub fn is_undefined(&self) -> (b: bool)
        ensures
            b == (*self is Undefined),
    {
        match self {
            Value::Undefined => true,
            _ => false,
        }
    }

    /// The value as a binary64 number: an integer is rounded to the nearest
    /// one, an undefined value counts as zero.
    pub fn as_float(&self) -> (bits: u64)
        ensures
            bits == self.float_bits(),
    {
        match self {
            Value::Undefined => 0,
            Value::Integer(i) => from_i64(*i),
            Value::Float(flt) => *flt,
        }
    }

    pub fn neg(self) -> (out: Value)
        ensures
            out == self.negation(),
    {
        match self {
            Value::Undefined => Value::Undefined,
            Value::Integer(i) => Value::Integer(0i64.wrapping_sub(i)),
            Value::Float(flt) => Value::Float(bits_negated(flt)),
        }
    }

    pub fn add(self, rhs: Value) -> (out: Computation)
        ensures
            out@ == self.sum(rhs),
    {
        match self {
            Value::Integer(i_left) => {
                match rhs {
                    Value::Integer(i_right) => Computation::Ready(
                        Value::Integer(i_left.wrapping_add(i_right)),
                    ),
                    Value::Float(f_right) => Computation::Deferred(
                        FloatRequest::Binary(FloatOp::Add, from_i64(i_left), f_right),
                    ),
                    Value::Undefined => Computation::Ready(Value::Undefined),
                }
            },
            Value::Float(f_left) => {
                match rhs {
                    Value::Integer(i_right) => Computation::Deferred(
                        FloatRequest::Binary(FloatOp::Add, f_left, from_i64(i_right)),
                    ),
                    Value::Float(f_right) => Computation::Deferred(
                        FloatRequest::Binary(FloatOp::Add, f_left, f_right),
                    ),
                    Value::Undefined => Computation::Ready(Value::Undefined),
                }
            },
            Value::Undefined => Computation::Ready(Value::Undefined),
        }
    }

    pub fn sub(self, rhs: Value) -> (out: Computation)
        ensures
            out@ == self.difference(rhs),
    {
        match self {
            Value::Integer(i_left) => {
                match rhs {
                    Value::Integer(i_right) => Computation::Ready(
                        Value::Integer(i_left.wrapping_sub(i_right)),
                    ),
                    Value::Float(f_right) => Computation::Deferred(
                        FloatRequest::Binary(FloatOp::Sub, from_i64(i_left), f_right),
                    ),
                    Value::Undefined => Computation::Ready(Value::Undefined),
                }
            },
            Value::Float(f_left) => {
                match rhs {
                    Value::Integer(i_right) => Computation::Deferred(
                        FloatRequest::Binary(FloatOp::Sub, f_left, from_i64(i_right)),
                    ),
                    Value::Float(f_right) => Computation::Deferred(
                        FloatRequest::Binary(FloatOp::Sub, f_left, f_right),
                    ),
                    Value::Undefined => Computation::Ready(Value::Undefined),
                }
            },
            Value::Undefined => Computation::Ready(Value::Undefined),
        }
    }

    pub fn mul(self, rhs: Value) -> (out: Computation)
        ensures
            out@ == self.product(rhs),
    {
        match self {
            Value::Integer(i_left) => {
                match rhs {
                    Value::Integer(i_right) => Computation::Ready(
                        Value::Integer(i_left.wrapping_mul(i_right)),
                    ),
                    Value::Float(f_right) => Computation::Deferred(
                        FloatRequest::Binary(FloatOp::Mul, from_i64(i_left), f_right),
                    ),
                    Value::Undefined => Computation::Ready(Value::Undefined),
                }
            },
            Value::Float(f_left) => {
                match rhs {
                    Value::Integer(i_right) => Computation::Deferred(
                        FloatRequest::Binary(FloatOp::Mul, f_left, from_i64(i_right)),
                    ),
                    Value::Float(f_right) => Computation::Deferred(
                        FloatRequest::Binary(FloatOp::Mul, f_left, f_right),
                    ),
                    Value::Undefined => Computation::Ready(Value::Undefined),
                }
            },
            Value::Undefined => Computation::Ready(Value::Undefined),
        }
    }

    /// Whether `self` can be divided by `rhs`.
    pub fn can_divide_by(&self, rhs: &Value) -> (b: bool)
        ensures
            b == self.divisible_by(*rhs),
    {
        match (self, rhs) {
            (Value::Integer(l), Value::Integer(r)) => *r != 0 && !(*l == i64::MIN && *r == -1),
            _ => true,
        }
    }

    pub fn div(self, rhs: Value) -> (out: Computation)
        requires
            self.divisible_by(rhs),
        ensures
            out@ == self.quotient(rhs),
    {
        match self {
            Value::Integer(i_left) => {
                match rhs {
                    Value::Integer(i_right) => {
                        proof {
                            lemma_truncated_division(i_left as int, i_right as int);
                        }
                        match i_left.checked_div(i_right) {
                            Some(q) => Computation::Ready(Value::Integer(q)),
                            None => unreached(),
                        }
                    },
                    Value::Float(f_right) => Computation::Deferred(
                        FloatRequest::Binary(FloatOp::Div, from_i64(i_left), f_right),
                    ),
                    Value::Undefined => Computation::Ready(Value::Undefined),
                }
            },
            Value::Float(f_left) => {
                match rhs {
                    Value::Integer(i_right) => Computation::Deferred(
                        FloatRequest::Binary(FloatOp::Div, f_left, from_i64(i_right)),
                    ),
                    Value::Float(f_right) => Computation::Deferred(
                        FloatRequest::Binary(FloatOp::Div, f_left, f_right),
                    ),
                    Value::Undefined => Computation::Ready(Value::Undefined),
                }
            },
            Value::Undefined => Computation::Ready(Value::Undefined),
        }
    }

    pub fn rem(self, rhs: Value) -> (out: Computation)
        requires
            self.divisible_by(rhs),
        ensures
            out@ == self.remainder(rhs),
    {
        match self {
            Value::Integer(i_left) => {
                match rhs {
                    Value::Integer(i_right) => {
                        proof {
                            lemma_truncated_division(i_left as int, i_right as int);
                        }
                        match i_left.checked_rem(i_right) {
                            Some(r) => Computation::Ready(Value::Integer(r)),
                            None => unreached(),
                        }
                    },
                    Value::Float(f_right) => Computation::Deferred(
                        FloatRequest::Binary(FloatOp::Rem, from_i64(i_left), f_right),
                    ),
                    Value::Undefined => Computation::Ready(Value::Undefined),
                }
            },
            Value::Float(f_left) => {
                match rhs {
                    Value::Integer(i_right) => Computation::Deferred(
                        FloatRequest::Binary(FloatOp::Rem, f_left, from_i64(i_right)),
                    ),
                    Value::Float(f_right) => Computation::Deferred(
                        FloatRequest::Binary(FloatOp::Rem, f_left, f_right),
                    ),
                    Value::Undefined => Computation::Ready(Value::Undefined),
                }
            },
            Value::Undefined => Computation::Ready(Value::Undefined),
        }
    }

    pub fn pow(&self, rhs: Value) -> (out: Computation)
        ensures
            out@ == self.power(rhs),
    {
        match self {
            Value::Integer(i_left) => {
                match rhs {
                    Value::Integer(i_right) => Computation::Ready(
                        Value::Integer(
                            wrapping_power(*i_left, #[verifier::truncate] (i_right as u32)),
                        ),
                    ),
                    Value::Float(f_right) => Computation::Deferred(
                        FloatRequest::Binary(FloatOp::Pow, from_i64(*i_left), f_right),
                    ),
                    Value::Undefined => Computation::Ready(Value::Undefined),
                }
            },
            Value::Float(f_left) => {
                match rhs {
                    Value::Integer(i_right) => Computation::Deferred(
                        FloatRequest::PowInt(*f_left, #[verifier::truncate] (i_right as i32)),
                    ),
                    Value::Float(f_right) => Computation::Deferred(
                        FloatRequest::Binary(FloatOp::Pow, *f_left, f_right),
                    ),
                    Value::Undefined => Computation::Ready(Value::Undefined),
                }
            },
            Value::Undefined => Computation::Ready(Value::Undefined),
        }
    }

    /// The greatest integer not above the value.
    pub fn floor(&self) -> (out: Value)
        ensures
            out == self.floored(),
    {
        match self {
            Value::Undefined => Value::Undefined,
            Value::Integer(i) => Value::Integer(*i),
            Value::Float(flt) => Value::Integer(floor(*flt)),
        }
    }

    pub fn bitand(self, rhs: Value) -> (out: Result<Value, FloatOperand>)
        ensures
            out == self.conjunction(rhs),
    {
        match (self, rhs) {
            (Value::Float(_), _) | (_, Value::Float(_)) => Err(
                FloatOperand(BinaryOperatorType::And),
            ),
            (Value::Integer(l_int), Value::Integer(r_int)) => Ok(Value::Integer(l_int & r_int)),
            _ => Ok(Value::Undefined),
        }
    }

    pub fn bitor(self, rhs: Value) -> (out: Result<Value, FloatOperand>)
        ensures
            out == self.disjunction(rhs),
    {
        match (self, rhs) {
            (Value::Float(_), _) | (_, Value::Float(_)) => Err(
                FloatOperand(BinaryOperatorType::Or),
            ),
            (Value::Integer(l_int), Value::Integer(r_int)) => Ok(Value::Integer(l_int | r_int)),
            _ => Ok(Value::Undefined),
        }
    }

    pub fn bitxor(self, rhs: Value) -> (out: Result<Value, FloatOperand>)
        ensures
            out == self.exclusive(rhs),
    {
        match (self, rhs) {
            (Value::Float(_), _) | (_, Value::Float(_)) => Err(
                FloatOperand(BinaryOperatorType::Xor),
            ),
            (Value::Integer(l_int), Value::Integer(r_int)) => Ok(Value::Integer(l_int ^ r_int)),
            _ => Ok(Value::Undefined),
        }
    }

    pub fn shl(self, rhs: Value) -> (out: Result<Value, FloatOperand>)
        ensures
            out == self.shifted_left(rhs),
    {
        match (self, rhs) {
            (Value::Float(_), _) | (_, Value::Float(_)) => Err(
                FloatOperand(BinaryOperatorType::Shl),
            ),
            (Value::Integer(l_int), Value::Integer(r_int)) => Ok(
                Value::Integer(l_int.wrapping_shl(#[verifier::truncate] (r_int as u32))),
            ),
            _ => Ok(Value::Undefined),
        }
    }

    pub fn shr(self, rhs: Value) -> (out: Result<Value, FloatOperand>)
        ensures
            out == self.shifted_right(rhs),
    {
        match (self, rhs) {
            (Value::Float(_), _) | (_, Value::Float(_)) => Err(
                FloatOperand(BinaryOperatorType::Shr),
            ),
            (Value::Integer(l_int), Value::Integer(r_int)) => Ok(
                Value::Integer(l_int.wrapping_shr(#[verifier::truncate] (r_int as u32))),
            ),
            _ => Ok(Value::Undefined),
        }
    }
}

impl Token {
    /// The value of a literal: that of an integer literal is ready, that of a
    /// floating-point literal is to be read from its text. Other tokens have none.
    pub fn as_value(&self) -> (value: Option<Computation>)
        ensures
            match self@ {
                TokenView::Integer(i) => value matches Some(c) && c@ == ComputationView::Ready(
                    Value::Integer(i),
                ),
                TokenView::Float(text) => value matches Some(c) && c@
                    == ComputationView::Deferred(FloatRequestView::Parse(text)),
                _ => value is None,
            },
    {
        match self {
            Token::Integer(i) => Some(Computation::Ready(Value::Integer(*i))),
            Token::Float(flt) => Some(Computation::Deferred(FloatRequest::Parse(flt.clone()))),
            _ => None,
        }
    }
}

/// Dividing magnitudes: the quotient is at most the dividend, the remainder
/// is less than the divisor, and the two make up the dividend.
proof fn lemma_magnitudes(x: int, d: int)
    requires
        x >= 0,
        d > 0,
    ensures
        0 <= x / d <= x,
        0 <= x % d < d,
        x == d * (x / d) + x % d,
{
    lemma_fundamental_div_mod(x, d);
    lemma_mod_bound(x, d);
    assert(0 <= x / d <= x) by (nonlinear_arith)
        requires
            x >= 0,
            d > 0,
            x == d * (x / d) + x % d,
            0 <= x % d < d,
    ;
}

/// The truncated quotient and remainder in terms of the magnitudes of the
/// operands: the quotient is no longer than the dividend, and the remainder
/// is that of the magnitudes, with the sign of the dividend.
proof fn lemma_truncated_division(x: int, d: int)
    requires
        d != 0,
    ensures
        x >= 0 ==> 0 <= truncated_remainder(x, d) <= x,
        x < 0 ==> x <= truncated_remainder(x, d) <= 0,
        x >= 0 ==> -x <= truncated_quotient(x, d) <= x,
        x < 0 ==> x <= truncated_quotient(x, d) <= -x,
        x >= 0 && d > 0 ==> truncated_remainder(x, d) == x % d,
        x < 0 && d < 0 ==> truncated_remainder(x, d) == -((-x) % (-d)),
        x < 0 && d > 0 ==> truncated_remainder(x, d) == -((-x) % d),
        x >= 0 && d < 0 ==> truncated_remainder(x, d) == x % (-d),
        x < 0 && d < -1 ==> 2 * truncated_quotient(x, d) <= -x,
{
    let ax = if x >= 0 {
        x
    } else {
        -x
    };
    let ad = if d > 0 {
        d
    } else {
        -d
    };
    lemma_magnitudes(ax, ad);
    let q = ax / ad;
    assert(d * q == -((-d) * q)) by (nonlinear_arith);
    assert(d * (-q) == -(d * q)) by (nonlinear_arith);
    assert(ad >= 2 ==> 2 * q <= ax) by (nonlinear_arith)
        requires
            ax == ad * q + ax % ad,
            0 <= ax % ad,
            q >= 0,
    ;
}

/// Numbers that wrap to the same integer have products that do.
proof fn lemma_wrap_product(a: int, b: int, c: int, d: int)
    requires
        wrap(a) == wrap(c),
        wrap(b) == wrap(d),
    ensures
        wrap(a * b) == wrap(c * d),
{
    let m = 0x1_0000_0000_0000_0000int;
    assert(a % m == c % m);
    assert(b % m == d % m);
    lemma_mul_mod_noop_general(a, b, m);
    lemma_mul_mod_noop_general(c, d, m);
}

/// Bases that wrap to the same integer have powers that do.
proof fn lemma_wrap_power(a: int, c: int, e: nat)
    requires
        wrap(a) == wrap(c),
    ensures
        wrap(pow(a, e)) == wrap(pow(c, e)),
{
    let m = 0x1_0000_0000_0000_0000int;
    assert(a % m == c % m);
    lemma_pow_mod_noop(a, e, m);
    lemma_pow_mod_noop(c, e, m);
}

/// A power with an even exponent is the power of the square with half of it.
proof fn lemma_power_of_square(b: int, k: nat)
    ensures
        pow(b * b, k) == pow(b, 2 * k),
    decreases k,
{
    reveal(pow);
    if k > 0 {
        lemma_power_of_square(b, (k - 1) as nat);
        assert(pow(b, 2 * k) == b * pow(b, (2 * k - 1) as nat));
        assert(pow(b, (2 * k - 1) as nat) == b * pow(b, (2 * k - 2) as nat));
        assert(pow(b * b, k) == (b * b) * pow(b * b, (k - 1) as nat));
        assert((b * b) * pow(b, (2 * k - 2) as nat) == b * (b * pow(b, (2 * k - 2) as nat)))
            by (nonlinear_arith);
    }
}

/// `base` to the power `exponent`, wrapped around, by squaring.
fn wrapping_power(base: i64, exponent: u32) -> (power: i64)
    ensures
        power == wrap(pow(base as int, exponent as nat)),
{
    let mut acc: i64 = 1;
    let mut b: i64 = base;
    let mut e: u32 = exponent;
    proof {
        assert(1 * pow(base as int, exponent as nat) == pow(base as int, exponent as nat));
    }
    while e > 0
        invariant
            wrap(acc * pow(b as int, e as nat)) == wrap(pow(base as int, exponent as nat)),
        decreases e,
    {
        let ghost k = (e / 2) as nat;
        let ghost old_acc = acc as int;
        let ghost old_b = b as int;
        let ghost square = old_b * old_b;
        proof {
            lemma_power_of_square(old_b, k);
            reveal(pow);
        }
        if e % 2 == 1 {
            acc = acc.wrapping_mul(b);
            proof {
                // pow(b, 2k + 1) == b * pow(b * b, k)
                assert(pow(old_b, e as nat) == old_b * pow(square, k));
                assert(old_acc * (old_b * pow(square, k)) == (old_acc * old_b) * pow(square, k))
                    by (nonlinear_arith);
                assert(wrap(acc as int) == wrap(old_acc * old_b));
            }
        } else {
            assert(pow(old_b, e as nat) == pow(square, k));
        }
        let ghost factor = if e % 2 == 1 {
            old_acc * old_b
        } else {
            old_acc
        };
        b = b.wrapping_mul(b);
        e = e / 2;
        proof {
            assert(wrap(b as int) == wrap(square));
            assert(wrap(acc as int) == wrap(factor));
            lemma_wrap_power(b as int, square, k);
            lemma_wrap_product(acc as int, pow(b as int, k), factor, pow(square, k));
        }
    }
    proof {
        lemma_pow0(b as int);
        assert(acc * 1 == acc);
    }
    acc
}

} // verus!
