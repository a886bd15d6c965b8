//! Laws of binary64 numbers: which integers they hold exactly, and that the
//! order of their bits is the order of the numbers.
use crate::binary64::{
    binary_exponent, bit_length, equal, exponent_field, floor_of, fraction_field, is_nan,
    lemma_bit_length, less, magnitude, numerator, of_int, rank, rounded_significand, HIDDEN,
    INFINITY, SIGN,
};
use crate::value::Value;
use vstd::arithmetic::div_mod::{
    lemma_basic_div, lemma_div_by_multiple, lemma_fundamental_div_mod,
    lemma_fundamental_div_mod_converse, lemma_mod_bound,
};
use vstd::arithmetic::power2::{
    lemma2_to64, lemma2_to64_rest, lemma_pow2_adds, lemma_pow2_pos,
    lemma_pow2_strictly_increases, pow2,
};
use vstd::prelude::*;

verus! {

/// The magnitude of a 64-bit integer.
pub open spec fn magnitude_of(i: i64) -> nat {
    if i < 0 {
        (-i) as nat
    } else {
        i as nat
    }
}

/// Two to the power 53: up to it, in magnitude, every integer is a binary64 number.
pub open spec fn exact_limit() -> int {
    0x0020_0000_0000_0000
}

/// What the bits of a positive integer up to two to the power 53 are made
/// of: an exponent field that tells its length, and a fraction that holds the
/// integer itself, scaled to 53 bits.
proof fn lemma_exact_bits(m: nat)
    requires
        0 < m <= exact_limit(),
    ensures
        1 <= bit_length(m) <= 54,
        HIDDEN <= rounded_significand(m) < 2 * HIDDEN,
        bit_length(m) <= 53 ==> rounded_significand(m) == m * pow2((53 - bit_length(m)) as nat),
        bit_length(m) == 54 ==> m == exact_limit() && rounded_significand(m) == HIDDEN,
{
    lemma2_to64();
    lemma2_to64_rest();
    lemma_bit_length(m as u64);
    let n = bit_length(m);
    if n > 54 {
        lemma_pow2_strictly_increases(53, (n - 1) as nat);
    }
    if n <= 53 {
        let up = (53 - n) as nat;
        let p = pow2(up);
        lemma_pow2_pos(up);
        lemma_pow2_adds((n - 1) as nat, up);
        lemma_pow2_adds(n, up);
        assert(pow2((n - 1) as nat) * p <= m * p < pow2(n) * p) by (nonlinear_arith)
            requires
                pow2((n - 1) as nat) <= m < pow2(n),
                p >= 1,
        ;
    } else {
        assert(m == exact_limit());
        assert(pow2(1) == 2);
        assert(rounded_significand(m) == HIDDEN);
    }
}

/// The fields of bits that are put together from an exponent and a fraction.
proof fn lemma_fields(bits: u64, exponent: int, fraction: int)
    requires
        0 <= exponent < 2047,
        0 <= fraction < HIDDEN,
        magnitude(bits) == exponent * HIDDEN + fraction,
    ensures
        exponent_field(bits) == exponent,
        fraction_field(bits) == fraction,
        !is_nan(bits),
{
    lemma_fundamental_div_mod_converse(
        magnitude(bits) as int,
        HIDDEN as int,
        exponent,
        fraction,
    );
    assert(exponent * HIDDEN <= 2046 * HIDDEN) by (nonlinear_arith)
        requires
            exponent <= 2046,
    ;
}

/// The bits of an integer up to two to the power 53 in magnitude, taken apart.
proof fn lemma_exact_number(i: i64)
    requires
        i != 0,
        -exact_limit() <= i <= exact_limit(),
    ensures
        !is_nan(of_int(i)),
        magnitude(of_int(i)) == (bit_length(magnitude_of(i)) + 1021) * HIDDEN
            + rounded_significand(magnitude_of(i)),
        of_int(i) >= SIGN <==> i < 0,
        exponent_field(of_int(i)) == bit_length(magnitude_of(i)) + 1022,
        fraction_field(of_int(i)) == rounded_significand(magnitude_of(i)) - HIDDEN,
{
    let m = magnitude_of(i);
    lemma_exact_bits(m);
    let n = bit_length(m);
    let sig = rounded_significand(m);
    let positive = (n + 1021) * HIDDEN + sig;
    let h = HIDDEN as int;
    assert((n + 1021) * h + sig == (n + 1022) * h + (sig - h)) by (nonlinear_arith);
    assert(0 < (n + 1021) * h <= 1075 * h) by (nonlinear_arith)
        requires
            1 <= n <= 54,
            h > 0,
    ;
    assert(positive < SIGN);
    lemma_fields(of_int(i), (n + 1022) as int, sig - HIDDEN);
}

/// An integer of up to 53 bits is a binary64 number: turned into one, its
/// floor is the integer again.
pub proof fn law_integer_survives_promotion(i: i64)
    requires
        -exact_limit() <= i <= exact_limit(),
    ensures
        floor_of(of_int(i)) == i,
{
    lemma2_to64();
    lemma2_to64_rest();
    if i == 0 {
        let bits = of_int(i);
        lemma_fields(bits, 0, 0);
        assert(numerator(bits) == 0);
        lemma_pow2_pos(1074);
        lemma_basic_div(0, pow2(1074) as int);
    } else {
        let bits = of_int(i);
        let m = magnitude_of(i);
        lemma_exact_number(i);
        lemma_exact_bits(m);
        let n = bit_length(m);
        let sig = rounded_significand(m);
        assert(numerator(bits) == (if i < 0 {
            -sig
        } else {
            sig
        }));
        assert(binary_exponent(bits) == n - 53);
        let scaled = numerator(bits);
        if n == 54 {
            let p = pow2(1) as int;
            assert(binary_exponent(bits) as nat == 1);
            assert(scaled * p == scaled * 2) by (nonlinear_arith)
                requires
                    p == 2,
            ;
        } else if n == 53 {
            let p = pow2(0) as int;
            assert(binary_exponent(bits) as nat == 0);
            assert(scaled * p == scaled) by (nonlinear_arith)
                requires
                    p == 1,
            ;
            assert(sig == m * p);
            assert(m * p == m) by (nonlinear_arith)
                requires
                    p == 1,
            ;
        } else {
            let up = (53 - n) as nat;
            let p = pow2(up) as int;
            lemma_pow2_pos(up);
            assert(sig == m * p);
            lemma_div_by_multiple(m as int, p);
            if i < 0 {
                assert(-sig == (-(m as int)) * p + 0) by (nonlinear_arith)
                    requires
                        sig == m * p,
                ;
                lemma_fundamental_div_mod_converse(-sig, p, -(m as int), 0);
                assert(numerator(bits) / p == i);
            } else {
                assert(sig / p == m);
                assert(numerator(bits) / p == i);
            }
            assert(floor_of(bits) == i);
        }
    }
}

/// A longer number is a greater one.
proof fn lemma_length_orders(a: nat, b: nat)
    requires
        0 < a <= b <= u64::MAX,
    ensures
        bit_length(a) <= bit_length(b),
{
    lemma_bit_length(a as u64);
    lemma_bit_length(b as u64);
    if bit_length(a) > bit_length(b) {
        if bit_length(a) - 1 > bit_length(b) {
            lemma_pow2_strictly_increases(bit_length(b), (bit_length(a) - 1) as nat);
        }
    }
}

/// Among positive integers of up to 53 bits, a greater one has greater bits.
proof fn lemma_exact_bits_order(a: i64, b: i64)
    requires
        0 < a < b <= exact_limit(),
    ensures
        of_int(a) < of_int(b) < SIGN,
{
    lemma_exact_number(a);
    lemma_exact_number(b);
    lemma_exact_bits(a as nat);
    lemma_exact_bits(b as nat);
    lemma_length_orders(a as nat, b as nat);
    let na = bit_length(a as nat);
    let nb = bit_length(b as nat);
    if na == nb {
        let up = (53 - na) as nat;
        let p = pow2(up) as int;
        lemma_pow2_pos(up);
        assert(a * p < b * p) by (nonlinear_arith)
            requires
                a < b,
                p >= 1,
        ;
    } else {
        assert((na + 1022) * HIDDEN <= (nb + 1021) * HIDDEN) by (nonlinear_arith)
            requires
                na + 1 <= nb,
        ;
    }
}

/// The place of an integer of up to 53 bits in the order of numbers rises with the integer.
proof fn lemma_exact_rank_order(a: i64, b: i64)
    requires
        -exact_limit() <= a < b <= exact_limit(),
    ensures
        rank(of_int(a)) < rank(of_int(b)),
{
    if a != 0 {
        lemma_exact_number(a);
        lemma_exact_bits(magnitude_of(a));
    }
    if b != 0 {
        lemma_exact_number(b);
        lemma_exact_bits(magnitude_of(b));
    }
    if a > 0 {
        lemma_exact_bits_order(a, b);
    } else if b < 0 {
        lemma_exact_bits_order((-b) as i64, (-a) as i64);
    }
}

/// Integers of up to 53 bits are ordered as binary64 numbers as they are as
/// integers: the one is below the other, or equal to it, exactly when it is so
/// as an integer.
pub proof fn law_exact_integers_keep_their_order(a: i64, b: i64)
    requires
        -exact_limit() <= a <= exact_limit(),
        -exact_limit() <= b <= exact_limit(),
    ensures
        less(of_int(a), of_int(b)) == (a < b),
        equal(of_int(a), of_int(b)) == (a == b),
        Value::Integer(a).below(Value::Integer(b)) == (a < b),
        Value::Integer(a).level_with(Value::Integer(b)) == (a == b),
{
    if a != 0 {
        lemma_exact_number(a);
    }
    if b != 0 {
        lemma_exact_number(b);
    }
    if a < b {
        lemma_exact_rank_order(a, b);
    } else if b < a {
        lemma_exact_rank_order(b, a);
    }
}

/// Whether the number with the bits `a` is below the one with the bits `b`,
/// neither being a NaN: the two are brought to the smaller of their exponents
/// and their numerators compared.
pub open spec fn numerically_below(a: u64, b: u64) -> bool {
    let e = if binary_exponent(a) <= binary_exponent(b) {
        binary_exponent(a)
    } else {
        binary_exponent(b)
    };
    numerator(a) * pow2((binary_exponent(a) - e) as nat) < numerator(b) * pow2(
        (binary_exponent(b) - e) as nat,
    )
}

/// Of two numbers that are not negative, the one with the smaller bits has
/// the exponent that is not greater, and is the smaller number.
proof fn lemma_bits_order_numbers(a: u64, b: u64)
    requires
        a < b <= INFINITY,
    ensures
        binary_exponent(a) <= binary_exponent(b),
        0 <= numerator(a) < numerator(b) * pow2((binary_exponent(b) - binary_exponent(a)) as nat),
{
    lemma2_to64();
    let h = HIDDEN as int;
    let (ea, fa) = (exponent_field(a), fraction_field(a));
    let (eb, fb) = (exponent_field(b), fraction_field(b));
    lemma_fundamental_div_mod(a as int, h);
    lemma_fundamental_div_mod(b as int, h);
    lemma_mod_bound(a as int, h);
    lemma_mod_bound(b as int, h);
    assert(0 <= ea <= eb && (ea == eb ==> fa < fb)) by (nonlinear_arith)
        requires
            0 <= a < b,
            a == h * ea + fa,
            b == h * eb + fb,
            0 <= fa < h,
            0 <= fb < h,
    ;
    let up = (binary_exponent(b) - binary_exponent(a)) as nat;
    let p = pow2(up) as int;
    lemma_pow2_pos(up);
    let (na, nb) = (numerator(a), numerator(b));
    if up == 0 {
        assert(nb * p == nb) by (nonlinear_arith)
            requires
                p == 1,
        ;
    } else {
        lemma_pow2_strictly_increases(0, up);
        assert(na < nb * p) by (nonlinear_arith)
            requires
                na < 2 * h,
                nb >= h,
                p >= 2,
                h > 0,
        ;
    }
}

/// The two zeros apart, the order of the bits is the order of the numbers:
/// `less` holds of two numbers exactly when the first is the smaller number.
pub proof fn law_order_is_numeric(a: u64, b: u64)
    requires
        !is_nan(a),
        !is_nan(b),
    ensures
        less(a, b) == numerically_below(a, b),
        equal(a, b) == (!numerically_below(a, b) && !numerically_below(b, a)),
{
    lemma2_to64();
    let (ma, mb) = (magnitude(a), magnitude(b));
    assert(magnitude(ma) == ma && magnitude(mb) == mb);
    let (ea, eb) = (binary_exponent(a), binary_exponent(b));
    assert(binary_exponent(ma) == ea && binary_exponent(mb) == eb);
    let (sa, sb) = (numerator(ma), numerator(mb));
    let e = if ea <= eb {
        ea
    } else {
        eb
    };
    let pa = pow2((ea - e) as nat) as int;
    let pb = pow2((eb - e) as nat) as int;
    lemma_pow2_pos((ea - e) as nat);
    lemma_pow2_pos((eb - e) as nat);
    if ma < mb {
        lemma_bits_order_numbers(ma, mb);
        assert(pa == 1);
    } else if mb < ma {
        lemma_bits_order_numbers(mb, ma);
        assert(pb == 1);
    } else {
        assert(pa == 1 && pb == 1);
    }
    // Of the magnitudes, the scaled numerators order as the bits do.
    assert((ma < mb) == (sa * pa < sb * pb) && (ma == mb) == (sa * pa == sb * pb)
        && sa * pa >= 0 && sb * pb >= 0 && (ma == 0) == (sa * pa == 0) && (mb == 0) == (sb * pb
        == 0)) by {
        lemma_fundamental_div_mod(ma as int, HIDDEN as int);
        lemma_fundamental_div_mod(mb as int, HIDDEN as int);
        lemma_mod_bound(ma as int, HIDDEN as int);
        lemma_mod_bound(mb as int, HIDDEN as int);
        assert(sa >= 0 && sb >= 0);
        assert((ma == 0) == (sa == 0)) by (nonlinear_arith)
            requires
                ma == HIDDEN * exponent_field(ma) + fraction_field(ma),
                0 <= fraction_field(ma) < HIDDEN,
                ma >= 0,
                sa == (if exponent_field(ma) == 0 {
                    fraction_field(ma)
                } else {
                    fraction_field(ma) + HIDDEN
                }),
        ;
        assert((mb == 0) == (sb == 0)) by (nonlinear_arith)
            requires
                mb == HIDDEN * exponent_field(mb) + fraction_field(mb),
                0 <= fraction_field(mb) < HIDDEN,
                mb >= 0,
                sb == (if exponent_field(mb) == 0 {
                    fraction_field(mb)
                } else {
                    fraction_field(mb) + HIDDEN
                }),
        ;
        assert(sa * pa >= 0 && sb * pb >= 0 && (sa == 0) == (sa * pa == 0) && (sb == 0) == (sb
            * pb == 0)) by (nonlinear_arith)
            requires
                sa >= 0,
                sb >= 0,
                pa >= 1,
                pb >= 1,
        ;
        if ma < mb {
            assert(sa * pa == sa) by (nonlinear_arith)
                requires
                    pa == 1,
            ;
        } else if mb < ma {
            assert(sb * pb == sb) by (nonlinear_arith)
                requires
                    pb == 1,
            ;
        } else {
            assert(sa * pa == sb * pb);
        }
    }
    let (na, nb) = (numerator(a), numerator(b));
    assert(na == (if a >= SIGN {
        -sa
    } else {
        sa
    }));
    assert(nb == (if b >= SIGN {
        -sb
    } else {
        sb
    }));
    assert((-sa) * pa == -(sa * pa)) by (nonlinear_arith);
    assert((-sb) * pb == -(sb * pb)) by (nonlinear_arith);
}

} // verus!
