//! Equality and order of values.
//!
//! Equality looks at the values themselves. The order looks at the binary64
//! numbers that the values are promoted to, an undefined value being promoted
//! to a NaN, which is neither below nor equal to anything.
use crate::binary64::{bits_equal, bits_less, equal, from_i64, less, of_int, NAN};
use crate::value::Value;
use std::cmp::Ordering;
use vstd::prelude::*;
use vstd::std_specs::cmp::{PartialEqSpecImpl, PartialOrdSpecImpl};

verus! {

impl Value {
    /// The binary64 number by which the value is ordered.
    pub open spec fn ordering_bits(self) -> u64 {
        match self {
            Value::Undefined => NAN,
            Value::Integer(i) => of_int(i),
            Value::Float(bits) => bits,
        }
    }

    /// Whether the two values are equal: two undefined values are, an
    /// undefined and a defined one are not, two integers are when they are the
    /// same, and any other pair when the binary64 numbers are equal that the
    /// two are promoted to.
    pub open spec fn same_as(self, other: Value) -> bool {
        match (self, other) {
            (Value::Undefined, Value::Undefined) => true,
            (Value::Undefined, _) | (_, Value::Undefined) => false,
            (Value::Integer(l), Value::Integer(r)) => l == r,
            _ => equal(self.float_bits(), other.float_bits()),
        }
    }

    /// Whether `self` is below `other` in the order.
    pub open spec fn below(self, other: Value) -> bool {
        less(self.ordering_bits(), other.ordering_bits())
    }

    /// Whether `self` and `other` share a place in the order.
    pub open spec fn level_with(self, other: Value) -> bool {
        equal(self.ordering_bits(), other.ordering_bits())
    }

    fn order_bits(&self) -> (bits: u64)
        ensures
            bits == self.ordering_bits(),
    {
        match self {
            Value::Undefined => NAN,
            Value::Integer(i) => from_i64(*i),
            Value::Float(bits) => *bits,
        }
    }

    pub fn is_below(&self, other: &Value) -> (b: bool)
        ensures
            b == self.below(*other),
    {
        bits_less(self.order_bits(), other.order_bits())
    }

    pub fn is_level_with(&self, other: &Value) -> (b: bool)
        ensures
            b == self.level_with(*other),
    {
        bits_equal(self.order_bits(), other.order_bits())
    }

    /// Sorts the pair into one of three classes: `Less` and `Equal` are what
    /// the order says; every other pair, one with an undefined value or a NaN
    /// too, is `Greater`.
    pub fn cmp(&self, other: &Value) -> (class: Ordering)
        ensures
            class == (if self.below(*other) {
                Ordering::Less
            } else if self.level_with(*other) {
                Ordering::Equal
            } else {
                Ordering::Greater
            }),
    {
        let left = self.order_bits();
        let right = other.order_bits();
        if bits_less(left, right) {
            Ordering::Less
        } else if bits_equal(left, right) {
            Ordering::Equal
        } else {
            Ordering::Greater
        }
    }
}

impl PartialEq for Value {
    fn eq(&self, other: &Self) -> (equal: bool) {
        match self {
            Value::Undefined => match other {
                Value::Undefined => true,
                _ => false,
            },
            Value::Integer(l_int) => match other {
                Value::Integer(r_int) => *l_int == *r_int,
                Value::Float(r_flt) => bits_equal(from_i64(*l_int), *r_flt),
                Value::Undefined => false,
            },
            Value::Float(l_flt) => match other {
                Value::Integer(r_int) => bits_equal(*l_flt, from_i64(*r_int)),
                Value::Float(r_flt) => bits_equal(*l_flt, *r_flt),
                Value::Undefined => false,
            },
        }
    }
}

impl PartialEqSpecImpl for Value {
    open spec fn obeys_eq_spec() -> bool {
        true
    }

    open spec fn eq_spec(&self, other: &Value) -> bool {
        self.same_as(*other)
    }
}

impl Eq for Value {

}

/// The order of the operators `< <= > >=`: a pair with an undefined value or
/// a NaN is not ordered.
impl PartialOrd for Value {
    fn partial_cmp(&self, other: &Self) -> (order: Option<Ordering>) {
        let left = self.order_bits();
        let right = other.order_bits();
        if bits_less(left, right) {
            Some(Ordering::Less)
        } else if bits_equal(left, right) {
            Some(Ordering::Equal)
        } else if bits_less(right, left) {
            Some(Ordering::Greater)
        } else {
            None
        }
    }
}

impl PartialOrdSpecImpl for Value {
    open spec fn obeys_partial_cmp_spec() -> bool {
        true
    }

    open spec fn partial_cmp_spec(&self, other: &Value) -> Option<Ordering> {
        if self.below(*other) {
            Some(Ordering::Less)
        } else if self.level_with(*other) {
            Some(Ordering::Equal)
        } else if other.below(*self) {
            Some(Ordering::Greater)
        } else {
            None
        }
    }
}

} // verus!
