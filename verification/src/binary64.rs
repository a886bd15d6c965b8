//! IEEE-754 binary64 numbers as their 64 bits: one sign bit, eleven bits of
//! exponent, fifty-two bits of fraction.
//!
//! What can be read off the bits is decided here: sign, order, zero, the
//! nearest number to an integer, and the floor. Arithmetic on such numbers is
//! not: it is asked of the caller.
use vstd::arithmetic::div_mod::{
    lemma_basic_div, lemma_fundamental_div_mod, lemma_fundamental_div_mod_converse,
    lemma_mod_bound,
};
use vstd::arithmetic::power2::{
    lemma2_to64, lemma2_to64_rest, lemma_pow2_adds, lemma_pow2_pos,
    lemma_pow2_strictly_increases, lemma_pow2_unfold, pow2,
};
use vstd::bits::{lemma_u64_pow2_no_overflow, lemma_u64_shl_is_mul};
use vstd::prelude::*;
use vstd::std_specs::bits::{axiom_u64_leading_zeros, u64_leading_zeros};

verus! {

/// The sign bit.
pub const SIGN: u64 = 0x8000_0000_0000_0000;

/// The bits of positive infinity: every number above it, the sign left out, is a NaN.
pub const INFINITY: u64 = 0x7ff0_0000_0000_0000;

/// The bits of a quiet NaN.
pub const NAN: u64 = 0x7ff8_0000_0000_0000;

/// Two to the power 52: the weight of the exponent field, and the leading bit
/// that the significand of a normal number has without storing it.
pub const HIDDEN: u64 = 0x0010_0000_0000_0000;

/// The bits without the sign.
pub open spec fn magnitude(bits: u64) -> u64 {
    if bits >= SIGN {
        (bits - SIGN) as u64
    } else {
        bits
    }
}

pub open spec fn is_negative(bits: u64) -> bool {
    bits >= SIGN
}

pub open spec fn is_nan(bits: u64) -> bool {
    magnitude(bits) > INFINITY
}

/// Positive or negative zero.
pub open spec fn is_zero(bits: u64) -> bool {
    magnitude(bits) == 0
}

/// The number of opposite sign.
pub open spec fn negated(bits: u64) -> u64 {
    if bits >= SIGN {
        (bits - SIGN) as u64
    } else {
        (bits + SIGN) as u64
    }
}

/// The place of a number that is no NaN in the order of all such numbers:
/// among numbers of one sign the bits order as the numbers do, and the two
/// zeros share a place.
pub open spec fn rank(bits: u64) -> int {
    if bits >= SIGN {
        -(magnitude(bits) as int)
    } else {
        magnitude(bits) as int
    }
}

/// `a < b` as IEEE-754 has it: false when either is a NaN.
pub open spec fn less(a: u64, b: u64) -> bool {
    !is_nan(a) && !is_nan(b) && rank(a) < rank(b)
}

/// `a == b` as IEEE-754 has it: false when either is a NaN, true of the two zeros.
pub open spec fn equal(a: u64, b: u64) -> bool {
    !is_nan(a) && !is_nan(b) && rank(a) == rank(b)
}

/// The exponent field, between 0 and 2047.
pub open spec fn exponent_field(bits: u64) -> int {
    magnitude(bits) as int / (HIDDEN as int)
}

/// The fraction field, below two to the power 52.
pub open spec fn fraction_field(bits: u64) -> int {
    magnitude(bits) as int % (HIDDEN as int)
}

/// A number that is no NaN is `numerator` times two to the power
/// `binary_exponent`. The numerator is the fraction, with the hidden bit on
/// top of it unless the exponent field is zero, and with the sign of the
/// number. (Infinity comes out as a number beyond every 64-bit integer.)
pub open spec fn numerator(bits: u64) -> int {
    let m = if exponent_field(bits) == 0 {
        fraction_field(bits)
    } else {
        fraction_field(bits) + HIDDEN
    };
    if is_negative(bits) {
        -m
    } else {
        m
    }
}

/// The power of two that the numerator is scaled by.
pub open spec fn binary_exponent(bits: u64) -> int {
    if exponent_field(bits) == 0 {
        -1074
    } else {
        exponent_field(bits) - 1075
    }
}

/// The 64-bit signed integer nearest to `x`.
pub open spec fn clamped(x: int) -> i64 {
    if x < i64::MIN {
        i64::MIN
    } else if x > i64::MAX {
        i64::MAX
    } else {
        x as i64
    }
}

/// The greatest integer not above the number, brought into the range of a
/// signed 64-bit integer; zero for a NaN.
pub open spec fn floor_of(bits: u64) -> i64 {
    if is_nan(bits) {
        0
    } else if binary_exponent(bits) >= 0 {
        clamped(numerator(bits) * pow2(binary_exponent(bits) as nat))
    } else {
        clamped(numerator(bits) / (pow2((-binary_exponent(bits)) as nat) as int))
    }
}

/// The number of bits that it takes to write `m`: none for zero.
pub open spec fn bit_length(m: nat) -> nat
    decreases m,
{
    if m == 0 {
        0
    } else {
        1 + bit_length(m / 2)
    }
}

/// The positive integer `m` brought to 53 bits, as a number between two to
/// the power 52 and two to the power 53: scaled up where `m` is shorter, and
/// where it is longer divided by the power of two that makes it fit, and
/// rounded to the nearest integer, a tie going to the even one.
pub open spec fn rounded_significand(m: nat) -> int
    recommends
        m > 0,
{
    let top = bit_length(m) - 1;
    if top <= 52 {
        (m * pow2((52 - top) as nat)) as int
    } else {
        let unit = pow2((top - 52) as nat) as int;
        let kept = m as int / unit;
        let rest = m as int % unit;
        if 2 * rest > unit || (2 * rest == unit && kept % 2 == 1) {
            kept + 1
        } else {
            kept
        }
    }
}

/// The bits of the binary64 number nearest to the integer `i`, a tie going to
/// the number with the even significand. The exponent field of an integer
/// with `n` bits is `n + 1022`; the significand at two to the power 53 carries
/// into it.
pub open spec fn of_int(i: i64) -> u64 {
    if i == 0 {
        0
    } else {
        let m = (if i < 0 {
            -i
        } else {
            i as int
        }) as nat;
        let positive = (bit_length(m) + 1021) * HIDDEN + rounded_significand(m);
        if i < 0 {
            (positive + SIGN) as u64
        } else {
            positive as u64
        }
    }
}

pub fn bits_magnitude(bits: u64) -> (m: u64)
    ensures
        m == magnitude(bits),
{
    if bits >= SIGN {
        bits - SIGN
    } else {
        bits
    }
}

pub fn bits_is_nan(bits: u64) -> (b: bool)
    ensures
        b == is_nan(bits),
{
    bits_magnitude(bits) > INFINITY
}

pub fn bits_is_zero(bits: u64) -> (b: bool)
    ensures
        b == is_zero(bits),
{
    bits_magnitude(bits) == 0
}

pub fn bits_negated(bits: u64) -> (n: u64)
    ensures
        n == negated(bits),
{
    if bits >= SIGN {
        bits - SIGN
    } else {
        bits + SIGN
    }
}

pub fn bits_less(a: u64, b: u64) -> (r: bool)
    ensures
        r == less(a, b),
{
    if bits_is_nan(a) || bits_is_nan(b) {
        false
    } else {
        let ma = bits_magnitude(a);
        let mb = bits_magnitude(b);
        if a >= SIGN {
            if b >= SIGN {
                ma > mb
            } else {
                ma != 0 || mb != 0
            }
        } else {
            if b >= SIGN {
                false
            } else {
                ma < mb
            }
        }
    }
}

pub fn bits_equal(a: u64, b: u64) -> (r: bool)
    ensures
        r == equal(a, b),
{
    if bits_is_nan(a) || bits_is_nan(b) {
        false
    } else {
        let ma = bits_magnitude(a);
        let mb = bits_magnitude(b);
        if (a >= SIGN) == (b >= SIGN) {
            ma == mb
        } else {
            ma == 0 && mb == 0
        }
    }
}

/// Two to the power `n`.
fn power_of_two(n: u32) -> (p: u64)
    requires
        n < 64,
    ensures
        p == pow2(n as nat),
        p >= 1,
{
    proof {
        lemma_u64_pow2_no_overflow(n as nat);
        lemma_u64_shl_is_mul(1, n as u64);
    }
    1u64 << n
}

/// The length of a number in bits is what its leading zeros leave of 64, and
/// the number lies between the powers of two around it.
pub proof fn lemma_bit_length(m: u64)
    requires
        m > 0,
    ensures
        bit_length(m as nat) == 64 - u64_leading_zeros(m),
        1 <= bit_length(m as nat) <= 64,
        pow2((bit_length(m as nat) - 1) as nat) <= m < pow2(bit_length(m as nat)),
    decreases m,
{
    reveal(u64_leading_zeros);
    lemma2_to64();
    if m == 1 {
        assert(bit_length(0) == 0);
        assert(bit_length(1) == 1 + bit_length(0));
        assert(u64_leading_zeros(0) == 64);
        assert(u64_leading_zeros(1) == u64_leading_zeros(0) - 1);
    } else {
        let half = m / 2;
        lemma_bit_length(half);
        let n = bit_length(half as nat);
        assert(bit_length(m as nat) == 1 + n);
        lemma_pow2_unfold(n);
        lemma_pow2_unfold((n + 1) as nat);
        lemma2_to64_rest();
        if n == 64 {
            assert(false);
        }
    }
}

/// Between two powers of two, the quotient by a smaller power of two lies
/// between the quotients of the two.
proof fn lemma_quotient_between(m: int, low: nat, cut: nat)
    requires
        cut <= low,
        pow2(low) <= m < pow2(low + 1),
    ensures
        pow2((low - cut) as nat) <= m / (pow2(cut) as int) < pow2((low - cut + 1) as nat),
{
    let unit = pow2(cut) as int;
    lemma_pow2_pos(cut);
    lemma_pow2_adds((low - cut) as nat, cut);
    lemma_pow2_adds((low - cut + 1) as nat, cut);
    lemma_fundamental_div_mod(m, unit);
    lemma_mod_bound(m, unit);
    let a = pow2((low - cut) as nat) as int;
    let b = pow2((low - cut + 1) as nat) as int;
    let q = m / unit;
    assert(a <= q < b) by (nonlinear_arith)
        requires
            a * unit <= m < b * unit,
            m == unit * q + m % unit,
            0 <= m % unit < unit,
            unit > 0,
    ;
}

/// The leading 53 bits of `m`, rounded.
fn round_significand(m: u64) -> (s: u64)
    requires
        m != 0,
    ensures
        s == rounded_significand(m as nat),
        HIDDEN <= s <= 2 * HIDDEN,
{
    broadcast use axiom_u64_leading_zeros;

    proof {
        lemma_bit_length(m);
        lemma2_to64();
        lemma2_to64_rest();
    }
    let top: u32 = 63 - m.leading_zeros();
    if top <= 52 {
        let p = power_of_two(52 - top);
        proof {
            lemma_pow2_adds(top as nat, (52 - top) as nat);
            lemma_pow2_adds((top + 1) as nat, (52 - top) as nat);
            assert(pow2(top as nat) * p <= m * p < pow2((top + 1) as nat) * p)
                by (nonlinear_arith)
                requires
                    pow2(top as nat) <= m < pow2((top + 1) as nat),
                    p >= 1,
            ;
        }
        m * p
    } else {
        let unit = power_of_two(top - 52);
        let kept = m / unit;
        let rest = m % unit;
        let half = unit / 2;
        proof {
            lemma_pow2_unfold((top - 52) as nat);
            lemma_quotient_between(m as int, top as nat, (top - 52) as nat);
            assert(unit == 2 * half);
        }
        if rest > half || (rest == half && kept % 2 == 1) {
            kept + 1
        } else {
            kept
        }
    }
}

/// The binary64 number nearest to `i`, a tie going to the one with an even significand.
pub fn from_i64(i: i64) -> (bits: u64)
    ensures
        bits == of_int(i),
{
    broadcast use axiom_u64_leading_zeros;

    if i == 0 {
        0
    } else {
        let m: u64 = if i < 0 {
            (-(i + 1)) as u64 + 1
        } else {
            i as u64
        };
        proof {
            lemma_bit_length(m);
        }
        let length: u64 = (64 - m.leading_zeros()) as u64;
        let s = round_significand(m);
        let positive = (length + 1021) * HIDDEN + s;
        if i < 0 {
            positive + SIGN
        } else {
            positive
        }
    }
}

/// The floor of a number below one in magnitude: zero, or minus one for a
/// negative number that is not zero.
proof fn lemma_floor_below_one(bits: u64)
    requires
        !is_nan(bits),
        exponent_field(bits) < 1023,
    ensures
        floor_of(bits) == (if is_zero(bits) || !is_negative(bits) {
            0i64
        } else {
            -1i64
        }),
{
    lemma2_to64_rest();
    let mag = magnitude(bits) as int;
    let h = HIDDEN as int;
    lemma_fundamental_div_mod(mag, h);
    lemma_mod_bound(mag, h);
    let k = (-binary_exponent(bits)) as nat;
    assert(k >= 53);
    if k > 53 {
        lemma_pow2_strictly_increases(53, k);
    }
    let d = pow2(k) as int;
    let n = numerator(bits);
    assert(-d < n < d);
    assert(h * exponent_field(bits) >= h || exponent_field(bits) <= 0) by (nonlinear_arith)
        requires
            h > 0,
    ;
    assert(exponent_field(bits) >= 0) by (nonlinear_arith)
        requires
            mag >= 0,
            h > 0,
            mag == h * exponent_field(bits) + mag % h,
            0 <= mag % h < h,
    ;
    if n >= 0 {
        lemma_basic_div(n, d);
    } else {
        lemma_fundamental_div_mod_converse(n, d, -1, n + d);
    }
}

/// The floor of a negative quotient: one below the negated quotient of the
/// magnitudes, unless the division is exact.
proof fn lemma_floor_of_negative(m: int, unit: int)
    requires
        m >= 0,
        unit > 0,
    ensures
        (-m) / unit == (if m % unit == 0 {
            -(m / unit)
        } else {
            -(m / unit) - 1
        }),
{
    lemma_fundamental_div_mod(m, unit);
    lemma_mod_bound(m, unit);
    let q = m / unit;
    let r = m % unit;
    assert(unit * q == q * unit) by (nonlinear_arith);
    if r == 0 {
        assert(-m == (-q) * unit + 0) by (nonlinear_arith)
            requires
                m == q * unit,
        ;
        lemma_fundamental_div_mod_converse(-m, unit, -q, 0);
    } else {
        assert(-m == (-q - 1) * unit + (unit - r)) by (nonlinear_arith)
            requires
                m == q * unit + r,
        ;
        lemma_fundamental_div_mod_converse(-m, unit, -q - 1, unit - r);
    }
}

/// The floor of the number as an integer; out of range it is the nearest
/// bound, and for a NaN zero.
pub fn floor(bits: u64) -> (whole: i64)
    ensures
        whole == floor_of(bits),
{
    let mag = bits_magnitude(bits);
    let negative = bits >= SIGN;
    if mag > INFINITY {
        return 0;
    }
    let exp = mag / HIDDEN;
    let frac = mag % HIDDEN;
    proof {
        lemma2_to64();
        lemma2_to64_rest();
    }
    if exp < 1023 {
        proof {
            lemma_floor_below_one(bits);
        }
        if mag == 0 || !negative {
            0
        } else {
            -1
        }
    } else if exp >= 1086 {
        proof {
            let k = (exp - 1075) as nat;
            if k > 11 {
                lemma_pow2_strictly_increases(11, k);
            }
            let m = frac + HIDDEN;
            let p = pow2(k) as int;
            assert(m * p >= 0x8000_0000_0000_0000) by (nonlinear_arith)
                requires
                    m >= 0x0010_0000_0000_0000,
                    p >= 0x800,
            ;
            assert((-m) * p == -(m * p)) by (nonlinear_arith);
        }
        if negative {
            i64::MIN
        } else {
            i64::MAX
        }
    } else {
        let m = frac + HIDDEN;
        if exp >= 1075 {
            let p = power_of_two((exp - 1075) as u32);
            proof {
                let k = (exp - 1075) as nat;
                if k < 10 {
                    lemma_pow2_strictly_increases(k, 10);
                }
                assert(m * p < 0x8000_0000_0000_0000) by (nonlinear_arith)
                    requires
                        m < 0x0020_0000_0000_0000,
                        1 <= p <= 0x400,
                ;
                assert((-(m as int)) * p == -(m * p)) by (nonlinear_arith);
            }
            let whole = m * p;
            if negative {
                -(whole as i64)
            } else {
                whole as i64
            }
        } else {
            let unit = power_of_two((1075 - exp) as u32);
            let whole = m / unit;
            let rest = m % unit;
            proof {
                lemma_floor_of_negative(m as int, unit as int);
                lemma_fundamental_div_mod(m as int, unit as int);
                lemma_mod_bound(m as int, unit as int);
                assert(0 <= whole <= m) by (nonlinear_arith)
                    requires
                        m == unit * whole + rest,
                        0 <= rest,
                        unit >= 1,
                        whole >= 0,
                ;
            }
            if !negative {
                whole as i64
            } else if rest != 0 {
                -(whole as i64) - 1
            } else {
                -(whole as i64)
            }
        }
    }
}

} // verus!
