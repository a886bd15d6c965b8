//! Values as text, in one of the four bases.
//!
//! An integer in base two, eight or sixteen is written as the digits of its
//! 64 bits, taken as an unsigned number, behind the prefix of the base. In
//! base ten a negative integer is written as a minus sign and its magnitude.
use crate::chars::string_of;
use crate::token::NumberBaseType;
use crate::value::Value;
use vstd::prelude::*;
use vstd::string::StringExecFns;

verus! {

/// The character of a digit: `0` to `9`, then `A` to `F`.
pub open spec fn digit_char(digit: int) -> char {
    if digit < 10 {
        ('0' as int + digit) as char
    } else {
        ('A' as int + digit - 10) as char
    }
}

/// The digits of `value` in the given radix, the most significant first,
/// without leading zeros; zero is the one digit `0`.
pub open spec fn digits_of(value: nat, radix: int) -> Seq<char>
    decreases value,
    via digits_of_shortens
{
    if radix < 2 || value < radix {
        seq![digit_char(value as int)]
    } else {
        digits_of((value as int / radix) as nat, radix).push(digit_char(value as int % radix))
    }
}

#[via_fn]
proof fn digits_of_shortens(value: nat, radix: int) {
    if radix >= 2 && value >= radix {
        lemma_quotient_smaller(value as int, radix);
    }
}

/// Dividing a positive number by two or more makes it smaller, and not negative.
pub proof fn lemma_quotient_smaller(value: int, radix: int)
    requires
        radix >= 2,
        value >= 1,
    ensures
        0 <= value / radix < value,
{
    assert(0 <= value / radix < value) by (nonlinear_arith)
        requires
            radix >= 2,
            value >= 1,
    ;
}

/// The 64 bits of `i`, as an unsigned number.
pub open spec fn bits_of(i: i64) -> nat {
    if i >= 0 {
        i as nat
    } else {
        (i + 0x1_0000_0000_0000_0000) as nat
    }
}

/// What goes before the digits of a literal of the base.
pub open spec fn prefix_of(base: NumberBaseType) -> Seq<char> {
    match base {
        NumberBaseType::Decimal => Seq::empty(),
        NumberBaseType::Binary => seq!['0', 'b'],
        NumberBaseType::Octal => seq!['0', 'o'],
        NumberBaseType::Hex => seq!['0', 'x'],
    }
}

/// The text of the integer `i` in `base`.
pub open spec fn integer_text(i: i64, base: NumberBaseType) -> Seq<char> {
    if base == NumberBaseType::Decimal {
        if i < 0 {
            seq!['-'] + digits_of((-i) as nat, 10)
        } else {
            digits_of(i as nat, 10)
        }
    } else {
        prefix_of(base) + digits_of(bits_of(i), base.radix())
    }
}

fn digit_to_char(digit: u64) -> (c: char)
    requires
        digit < 16,
    ensures
        c == digit_char(digit as int),
{
    if digit < 10 {
        (('0' as u8) + (digit as u8)) as char
    } else {
        (('A' as u8) + (digit as u8) - 10) as char
    }
}

/// Appends the digits of `value` to `out`.
fn push_digits(value: u64, radix: u64, out: &mut Vec<char>)
    requires
        2 <= radix <= 16,
    ensures
        final(out)@ == old(out)@ + digits_of(value as nat, radix as int),
    decreases value,
{
    if value < radix {
        out.push(digit_to_char(value));
        assert(final(out)@ =~= old(out)@ + digits_of(value as nat, radix as int));
    } else {
        proof {
            lemma_quotient_smaller(value as int, radix as int);
        }
        push_digits(value / radix, radix, out);
        out.push(digit_to_char(value % radix));
        assert(final(out)@ =~= old(out)@ + digits_of(value as nat, radix as int));
    }
}

/// Writes the integer `i` in `base`.
pub fn render_integer(i: i64, base: NumberBaseType) -> (text: String)
    ensures
        text@ == integer_text(i, base),
{
    let mut out: Vec<char> = Vec::new();
    match base {
        NumberBaseType::Decimal => {
            if i < 0 {
                out.push('-');
                let magnitude: u64 = ((-(i + 1)) as u64) + 1;
                push_digits(magnitude, 10, &mut out);
            } else {
                push_digits(i as u64, 10, &mut out);
            }
            assert(out@ =~= integer_text(i, base));
        },
        _ => {
            out.push('0');
            let radix: u64 = match base {
                NumberBaseType::Binary => {
                    out.push('b');
                    2
                },
                NumberBaseType::Octal => {
                    out.push('o');
                    8
                },
                _ => {
                    out.push('x');
                    16
                },
            };
            let bits: u64 = if i >= 0 {
                i as u64
            } else {
                ((i - i64::MIN) as u64) + 0x8000_0000_0000_0000
            };
            assert(out@ =~= prefix_of(base));
            push_digits(bits, radix, &mut out);
        },
    }
    string_of(&out)
}

impl Value {
    /// The text of the value in `base`: `undefined` for an undefined value,
    /// the digits of an integer, and none for a floating-point number, which
    /// is for the caller to write.
    pub fn render(&self, base: NumberBaseType) -> (text: Option<String>)
        ensures
            match *self {
                Value::Undefined => text matches Some(t) && t@ == "undefined"@,
                Value::Integer(i) => text matches Some(t) && t@ == integer_text(i, base),
                Value::Float(_) => text is None,
            },
    {
        match self {
            Value::Undefined => Some(String::from_str("undefined")),
            Value::Integer(i) => Some(render_integer(*i, base)),
            Value::Float(_) => None,
        }
    }
}

} // verus!
