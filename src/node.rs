use vstd::prelude::*;

verus! {

/// A scalar JSON value. A float is held as its IEEE-754 binary64 bit pattern.
#[derive(Debug, Clone, Copy)]
pub enum StaticNode {
    I64(i64),
    U64(u64),
    I128(i128),
    U128(u128),
    F64(u64),
    Bool(bool),
    Null,
}

/// Largest value of an unsigned integer of `bits` bits.
pub open spec fn umax(bits: nat) -> int {
    vstd::arithmetic::power2::pow2(bits) - 1
}

/// Whether a binary64 bit pattern is +0 or -0.
pub open spec fn is_zero_bits(b: u64) -> bool {
    b & 0x7fff_ffff_ffff_ffffu64 == 0
}

impl StaticNode {
    /// The integer that an integer node stands for, whatever its width.
    pub open spec fn int_value(self) -> Option<int> {
        match self {
            StaticNode::I64(n) => Some(n as int),
            StaticNode::U64(n) => Some(n as int),
            StaticNode::I128(n) => Some(n as int),
            StaticNode::U128(n) => Some(n as int),
            _ => None,
        }
    }

    /// Equality of scalars: integers compare by value across widths and
    /// signedness, floats by bit pattern except that +0 and -0 are equal,
    /// the rest by variant and payload.
    pub open spec fn same_value(self, other: StaticNode) -> bool {
        match (self.int_value(), other.int_value()) {
            (Some(a), Some(b)) => a == b,
            (Some(_), None) => false,
            (None, Some(_)) => false,
            (None, None) => match (self, other) {
                (StaticNode::Null, StaticNode::Null) => true,
                (StaticNode::Bool(a), StaticNode::Bool(b)) => a == b,
                (StaticNode::F64(a), StaticNode::F64(b)) => a == b || (is_zero_bits(a)
                    && is_zero_bits(b)),
                _ => false,
            },
        }
    }

    /// The value as an `i128`, when it is an integer in that range.
    pub fn as_i128(&self) -> (r: Option<i128>)
        ensures
            r matches Some(v) ==> self.int_value() == Some(v as int),
            r is None ==> !(self.int_value() matches Some(v) && i128::MIN <= v <= i128::MAX),
    {
        match *self {
            StaticNode::I64(n) => Some(n as i128),
            StaticNode::U64(n) => Some(n as i128),
            StaticNode::I128(n) => Some(n),
            StaticNode::U128(n) => if n <= i128::MAX as u128 {
                Some(n as i128)
            } else {
                None
            },
            _ => None,
        }
    }

    /// The value as a `u128`, when it is an integer in that range.
    pub fn as_u128(&self) -> (r: Option<u128>)
        ensures
            r matches Some(v) ==> self.int_value() == Some(v as int),
            r is None ==> !(self.int_value() matches Some(v) && 0 <= v <= u128::MAX),
    {
        match *self {
            StaticNode::I64(n) => if n >= 0 {
                Some(n as u128)
            } else {
                None
            },
            StaticNode::U64(n) => Some(n as u128),
            StaticNode::I128(n) => if n >= 0 {
                Some(n as u128)
            } else {
                None
            },
            StaticNode::U128(n) => Some(n),
            _ => None,
        }
    }

    /// Scalar equality as `same_value` states it.
    pub fn same(&self, other: &StaticNode) -> (r: bool)
        ensures
            r == self.same_value(*other),
    {
        match (self.as_i128(), other.as_i128()) {
            (Some(a), Some(b)) => return a == b,
            _ => {},
        }
        match (self.as_u128(), other.as_u128()) {
            (Some(a), Some(b)) => return a == b,
            _ => {},
        }
        match (*self, *other) {
            (StaticNode::Null, StaticNode::Null) => true,
            (StaticNode::Bool(a), StaticNode::Bool(b)) => a == b,
            (StaticNode::F64(a), StaticNode::F64(b)) => a == b || (a & 0x7fff_ffff_ffff_ffffu64
                == 0 && b & 0x7fff_ffff_ffff_ffffu64 == 0),
            _ => false,
        }
    }
}

impl PartialEq for StaticNode {
    fn eq(&self, other: &StaticNode) -> (r: bool) {
        self.same(other)
    }
}

impl vstd::std_specs::cmp::PartialEqSpecImpl for StaticNode {
    open spec fn obeys_eq_spec() -> bool {
        false
    }

    open spec fn eq_spec(&self, other: &StaticNode) -> bool {
        self.same_value(*other)
    }
}

/// One slot of a tape. A container start carries the number of its direct
/// children (`len`) and the index just past its last node (`end`).
#[derive(Debug, Clone, Copy)]
pub enum Node<'input> {
    Static(StaticNode),
    String(&'input str),
    Array { len: usize, end: usize },
    Object { len: usize, end: usize },
}

} // verus!
