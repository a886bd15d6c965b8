//! Integer literals: the value of a text of digits in one of the four bases.
use crate::token::NumberBaseType;
use vstd::prelude::*;

verus! {

/// The value of one digit; the letters `a` to `f` count from ten, in either case.
pub open spec fn digit_value(c: char) -> int {
    if '0' <= c <= '9' {
        c as int - '0' as int
    } else if 'a' <= c <= 'f' {
        c as int - 'a' as int + 10
    } else if 'A' <= c <= 'F' {
        c as int - 'A' as int + 10
    } else {
        0
    }
}

/// The number that the digits of `text` write in the given radix, the first
/// digit being the most significant.
pub open spec fn digits_value(text: Seq<char>, radix: int) -> int
    decreases text.len(),
{
    if text.len() == 0 {
        0
    } else {
        digits_value(text.drop_last(), radix) * radix + digit_value(text.last())
    }
}

/// Whether every character of `text` is a digit of `base`.
pub open spec fn all_digits(text: Seq<char>, base: NumberBaseType) -> bool {
    forall|i: int| 0 <= i < text.len() ==> base.has_digit(#[trigger] text[i])
}

/// The unsigned number that `text` writes in `base`: none if the text is
/// empty, holds anything but digits of the base, or exceeds 64 bits.
pub open spec fn unsigned_of(text: Seq<char>, base: NumberBaseType) -> Option<u64> {
    if text.len() > 0 && all_digits(text, base) && digits_value(text, base.radix()) <= u64::MAX {
        Some(digits_value(text, base.radix()) as u64)
    } else {
        None
    }
}

/// The signed integer with the same 64 bits as `bits`.
pub open spec fn reinterpret(bits: u64) -> i64 {
    if bits <= i64::MAX {
        bits as i64
    } else {
        (bits - 0x1_0000_0000_0000_0000) as i64
    }
}

/// The integer that a literal with the text `text` denotes. A decimal literal
/// must fit a signed 64-bit integer; a literal of another base is read as an
/// unsigned 64-bit number, whose bits are then taken as a signed one.
pub open spec fn integer_of(text: Seq<char>, base: NumberBaseType) -> Option<i64> {
    match unsigned_of(text, base) {
        Some(bits) => if base == NumberBaseType::Decimal {
            if bits <= i64::MAX {
                Some(bits as i64)
            } else {
                None
            }
        } else {
            Some(reinterpret(bits))
        },
        None => None,
    }
}

pub proof fn lemma_digit_bounds(c: char, base: NumberBaseType)
    requires
        base.has_digit(c),
    ensures
        0 <= digit_value(c) < base.radix(),
{
}

/// The value of a text of digits is not negative.
pub proof fn lemma_value_nonnegative(text: Seq<char>, base: NumberBaseType)
    requires
        all_digits(text, base),
    ensures
        0 <= digits_value(text, base.radix()),
    decreases text.len(),
{
    if text.len() > 0 {
        lemma_value_nonnegative(text.drop_last(), base);
        lemma_digit_bounds(text.last(), base);
        assert(digits_value(text.drop_last(), base.radix()) * base.radix() >= 0)
            by (nonlinear_arith)
            requires
                digits_value(text.drop_last(), base.radix()) >= 0,
                base.radix() > 0,
        ;
    }
}

/// A text of digits is worth at least as much as each of its prefixes.
pub proof fn lemma_prefix_value(text: Seq<char>, k: int, base: NumberBaseType)
    requires
        all_digits(text, base),
        0 <= k <= text.len(),
    ensures
        digits_value(text.take(k), base.radix()) <= digits_value(text, base.radix()),
    decreases text.len() - k,
{
    if k == text.len() {
        assert(text.take(k) =~= text);
    } else {
        let rest = text.drop_last();
        lemma_prefix_value(rest, k, base);
        assert(rest.take(k) =~= text.take(k));
        lemma_value_nonnegative(rest, base);
        lemma_digit_bounds(text.last(), base);
        assert(digits_value(rest, base.radix()) * base.radix() >= digits_value(
            rest,
            base.radix(),
        )) by (nonlinear_arith)
            requires
                digits_value(rest, base.radix()) >= 0,
                base.radix() >= 1,
        ;
    }
}

fn radix_of(base: NumberBaseType) -> (radix: u64)
    ensures
        radix == base.radix(),
{
    match base {
        NumberBaseType::Decimal => 10,
        NumberBaseType::Binary => 2,
        NumberBaseType::Octal => 8,
        NumberBaseType::Hex => 16,
    }
}

fn digit_of(c: char) -> (digit: u64)
    ensures
        digit == digit_value(c),
{
    if '0' <= c && c <= '9' {
        (c as u64) - ('0' as u64)
    } else if 'a' <= c && c <= 'f' {
        (c as u64) - ('a' as u64) + 10
    } else if 'A' <= c && c <= 'F' {
        (c as u64) - ('A' as u64) + 10
    } else {
        0
    }
}

/// Reads `text` as an unsigned number written in `base`.
pub fn parse_unsigned(text: &Vec<char>, base: NumberBaseType) -> (parsed: Option<u64>)
    ensures
        parsed == unsigned_of(text@, base),
{
    let radix = radix_of(base);
    let mut value: u64 = 0;
    let mut i: usize = 0;
    while i < text.len()
        invariant
            0 <= i <= text.len(),
            radix == base.radix(),
            all_digits(text@.take(i as int), base),
            value == digits_value(text@.take(i as int), base.radix()),
        decreases text.len() - i,
    {
        let c = text[i];
        let ghost before = text@.take(i as int);
        let ghost after = text@.take(i as int + 1);
        assert(after.drop_last() =~= before);
        assert(after.last() == c);
        if !base.is_char_valid(c) {
            assert(!all_digits(text@, base));
            return None;
        }
        assert(all_digits(after, base)) by {
            assert forall|j: int| 0 <= j < after.len() implies base.has_digit(
                #[trigger] after[j],
            ) by {
                if j < i {
                    assert(after[j] == before[j]);
                }
            }
        }
        let digit = digit_of(c);
        let next = match value.checked_mul(radix) {
            Some(scaled) => scaled.checked_add(digit),
            None => None,
        };
        match next {
            Some(n) => {
                value = n;
            },
            None => {
                proof {
                    assert(digits_value(after, base.radix()) > u64::MAX);
                    if all_digits(text@, base) {
                        lemma_prefix_value(text@, i as int + 1, base);
                    }
                }
                return None;
            },
        }
        i += 1;
    }
    assert(text@.take(i as int) =~= text@);
    if text.len() == 0 {
        None
    } else {
        Some(value)
    }
}

/// Takes the 64 bits of `bits` as a signed integer.
pub fn reinterpret_bits(bits: u64) -> (signed: i64)
    ensures
        signed == reinterpret(bits),
{
    if bits <= 0x7fff_ffff_ffff_ffff {
        bits as i64
    } else {
        ((bits - 0x8000_0000_0000_0000) as i64) + i64::MIN
    }
}

/// Reads `text` as the integer literal that it is in `base`.
pub fn parse_integer(text: &Vec<char>, base: NumberBaseType) -> (parsed: Option<i64>)
    ensures
        parsed == integer_of(text@, base),
{
    match parse_unsigned(text, base) {
        Some(bits) => {
            match base {
                NumberBaseType::Decimal => {
                    if bits <= 0x7fff_ffff_ffff_ffff {
                        Some(bits as i64)
                    } else {
                        None
                    }
                },
                _ => Some(reinterpret_bits(bits)),
            }
        },
        None => None,
    }
}

} // verus!
