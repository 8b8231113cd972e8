use vstd::prelude::*;

use crate::node::StaticNode;
use crate::number::{parse_spec, BorrowedNumber, OwnedNumber};

verus! {

broadcast use {
    vstd::std_specs::vec::axiom_vec_decreases_to_view,
    vstd::std_specs::vec::axiom_vec_index_decreases,
};

/// A value tree that owns all of its data. Object entries keep their
/// insertion order.
#[derive(Debug)]
pub enum OwnedValue {
    Static(StaticNode),
    Number(OwnedNumber),
    String(String),
    Array(Vec<OwnedValue>),
    Object(Vec<(String, OwnedValue)>),
}

/// A number of the generic JSON value model: a non-negative integer, a
/// negative integer, or a finite float held as its binary64 bit pattern.
#[derive(Debug, Clone, Copy, PartialEq, Eq)]
pub enum JsonNumber {
    PosInt(u64),
    NegInt(i64),
    Float(u64),
}

/// The generic JSON value model that the bridge converts to and from.
#[derive(Debug)]
pub enum JsonValue {
    Null,
    Bool(bool),
    Number(JsonNumber),
    String(String),
    Array(Vec<JsonValue>),
    Object(Vec<(String, JsonValue)>),
}

/// Why a conversion to or from the generic JSON value model failed.
#[derive(Debug, Clone, Copy, PartialEq, Eq)]
pub enum SerdeConversionError {
    /// The generic model cannot hold NaN or an infinity.
    NanOrInfinity,
    /// A 128-bit integer does not fit the generic model's 64-bit integers.
    NumberOutOfBounds,
    /// A number kept as its literal does not parse.
    InvalidNumber,
    /// A generic number matched none of its expected forms.
    Oops,
}

/// Whether a binary64 bit pattern is a finite number: its exponent bits
/// are not all set.
pub open spec fn is_finite_bits(b: u64) -> bool {
    (b >> 52u64) & 0x7ffu64 != 0x7ffu64
}

/// The generic number for a 64-bit integer: negative ones are `NegInt`.
pub open spec fn int_number(v: int) -> JsonNumber {
    if v < 0 {
        JsonNumber::NegInt(v as i64)
    } else {
        JsonNumber::PosInt(v as u64)
    }
}

/// How a scalar is exported.
pub open spec fn export_static(n: StaticNode) -> Result<JsonValue, SerdeConversionError> {
    match n {
        StaticNode::Null => Ok(JsonValue::Null),
        StaticNode::Bool(b) => Ok(JsonValue::Bool(b)),
        StaticNode::I64(v) => Ok(JsonValue::Number(int_number(v as int))),
        StaticNode::U64(v) => Ok(JsonValue::Number(JsonNumber::PosInt(v))),
        StaticNode::I128(v) => if i64::MIN <= v <= i64::MAX {
            Ok(JsonValue::Number(int_number(v as int)))
        } else {
            Err(SerdeConversionError::NumberOutOfBounds)
        },
        StaticNode::U128(v) => if v <= u64::MAX {
            Ok(JsonValue::Number(JsonNumber::PosInt(v as u64)))
        } else {
            Err(SerdeConversionError::NumberOutOfBounds)
        },
        StaticNode::F64(b) => if is_finite_bits(b) {
            Ok(JsonValue::Number(JsonNumber::Float(b)))
        } else {
            Err(SerdeConversionError::NanOrInfinity)
        },
    }
}

/// The first export failure in `v`, in document order, if any.
pub open spec fn export_err(v: OwnedValue) -> Option<SerdeConversionError>
    decreases v,
{
    match v {
        OwnedValue::Static(n) => match export_static(n) {
            Ok(_) => None,
            Err(e) => Some(e),
        },
        OwnedValue::Number(m) => match parse_spec(m@) {
            Some(n) => match export_static(n) {
                Ok(_) => None,
                Err(e) => Some(e),
            },
            None => Some(SerdeConversionError::InvalidNumber),
        },
        OwnedValue::String(_) => None,
        OwnedValue::Array(a) => {
            proof { broadcast use vstd::std_specs::vec::axiom_vec_decreases_to_view; }
            items_err(a@)
        },
        OwnedValue::Object(o) => {
            proof { broadcast use vstd::std_specs::vec::axiom_vec_decreases_to_view; }
            entries_err(o@)
        },
    }
}

/// The first export failure among `s`, if any.
pub open spec fn items_err(s: Seq<OwnedValue>) -> Option<SerdeConversionError>
    decreases s,
{
    if s.len() == 0 {
        None
    } else {
        match items_err(s.drop_last()) {
            Some(e) => Some(e),
            None => export_err(s.last()),
        }
    }
}

/// The first export failure among the values of `s`, if any.
pub open spec fn entries_err(s: Seq<(String, OwnedValue)>) -> Option<SerdeConversionError>
    decreases s,
{
    if s.len() == 0 {
        None
    } else {
        match entries_err(s.drop_last()) {
            Some(e) => Some(e),
            None => export_err(s.last().1),
        }
    }
}

/// `j` is the export of `v`: same shape, strings and keys alike, element and
/// entry order kept, scalars as `export_static` gives them.
pub open spec fn exports_to(v: OwnedValue, j: JsonValue) -> bool
    decreases v,
{
    match v {
        OwnedValue::Static(n) => export_static(n) == Ok::<JsonValue, SerdeConversionError>(j),
        OwnedValue::Number(m) => parse_spec(m@) matches Some(n) && export_static(n) == Ok::<
            JsonValue,
            SerdeConversionError,
        >(j),
        OwnedValue::String(s) => j matches JsonValue::String(t) && s@ == t@,
        OwnedValue::Array(a) => match j {
            JsonValue::Array(b) => a@.len() == b@.len() && forall|i: int|
                0 <= i < a@.len() ==> exports_to(#[trigger] a@[i], b@[i]),
            _ => false,
        },
        OwnedValue::Object(o) => match j {
            JsonValue::Object(p) => o@.len() == p@.len() && forall|i: int|
                0 <= i < o@.len() ==> o@[i].0@ == p@[i].0@ && exports_to((#[trigger] o@[i]).1, p@[i].1),
            _ => false,
        },
    }
}

proof fn lemma_items_err_extends(s: Seq<OwnedValue>, k: int)
    requires
        0 <= k <= s.len(),
        items_err(s.take(k)) is Some,
    ensures
        items_err(s) == items_err(s.take(k)),
    decreases s.len() - k,
{
    if k < s.len() {
        assert(s.take(k + 1).drop_last() =~= s.take(k));
        lemma_items_err_extends(s, k + 1);
    } else {
        assert(s.take(k) =~= s);
    }
}

proof fn lemma_entries_err_extends(s: Seq<(String, OwnedValue)>, k: int)
    requires
        0 <= k <= s.len(),
        entries_err(s.take(k)) is Some,
    ensures
        entries_err(s) == entries_err(s.take(k)),
    decreases s.len() - k,
{
    if k < s.len() {
        assert(s.take(k + 1).drop_last() =~= s.take(k));
        lemma_entries_err_extends(s, k + 1);
    } else {
        assert(s.take(k) =~= s);
    }
}

/// The generic number for a signed 64-bit integer.
pub(crate) fn number_of_i64(v: i64) -> (r: JsonNumber)
    ensures
        r == int_number(v as int),
{
    if v < 0 {
        JsonNumber::NegInt(v)
    } else {
        JsonNumber::PosInt(v as u64)
    }
}

/// Exports one scalar.
pub(crate) fn export_scalar(n: StaticNode) -> (r: Result<JsonValue, SerdeConversionError>)
    ensures
        r == export_static(n),
{
    match n {
        StaticNode::Null => Ok(JsonValue::Null),
        StaticNode::Bool(b) => Ok(JsonValue::Bool(b)),
        StaticNode::I64(v) => Ok(JsonValue::Number(number_of_i64(v))),
        StaticNode::U64(v) => Ok(JsonValue::Number(JsonNumber::PosInt(v))),
        StaticNode::I128(v) => if i64::MIN as i128 <= v && v <= i64::MAX as i128 {
            Ok(JsonValue::Number(number_of_i64(v as i64)))
        } else {
            Err(SerdeConversionError::NumberOutOfBounds)
        },
        StaticNode::U128(v) => if v <= u64::MAX as u128 {
            Ok(JsonValue::Number(JsonNumber::PosInt(v as u64)))
        } else {
            Err(SerdeConversionError::NumberOutOfBounds)
        },
        StaticNode::F64(b) => if (b >> 52u64) & 0x7ffu64 != 0x7ffu64 {
            Ok(JsonValue::Number(JsonNumber::Float(b)))
        } else {
            Err(SerdeConversionError::NanOrInfinity)
        },
    }
}

impl OwnedValue {
    /// Exports the tree, as `try_into_json` states.
    fn export_value(&self) -> (r: Result<JsonValue, SerdeConversionError>)
        ensures
            match r {
                Ok(j) => export_err(*self) is None && exports_to(*self, j),
                Err(e) => export_err(*self) == Some(e),
            },
        decreases self,
    {
        match self {
            OwnedValue::Static(n) => export_scalar(*n),
            OwnedValue::Number(m) => match m.parse() {
                Ok(n) => export_scalar(n),
                Err(_) => Err(SerdeConversionError::InvalidNumber),
            },
            OwnedValue::String(s) => Ok(JsonValue::String(s.clone())),
            OwnedValue::Array(a) => {
                let mut out: Vec<JsonValue> = Vec::new();
                let mut i: usize = 0;
                while i < a.len()
                    invariant
                        *self == OwnedValue::Array(*a),
                        i <= a@.len(),
                        out@.len() == i,
                        forall|k: int| 0 <= k < i ==> exports_to(a@[k], #[trigger] out@[k]),
                        items_err(a@.take(i as int)) is None,
                    decreases a@.len() - i,
                {
                    proof {
                        assert(decreases_to!(*self => *a));
                        assert(decreases_to!(*a => a@));
                        assert(decreases_to!(a@ => a@[i as int]));
                        assert(decreases_to!(*self => a@[i as int]));
                    }
                    match a[i].export_value() {
                        Ok(j) => {
                            proof {
                                assert(a@.take(i + 1).drop_last() =~= a@.take(i as int));
                                assert(a@.take(i + 1).last() == a@[i as int]);
                            }
                            out.push(j);
                        },
                        Err(e) => {
                            proof {
                                assert(a@.take(i + 1).drop_last() =~= a@.take(i as int));
                                assert(a@.take(i + 1).last() == a@[i as int]);
                                lemma_items_err_extends(a@, i + 1);
                                assert(export_err(*self) == items_err(a@));
                            }
                            return Err(e);
                        },
                    }
                    i = i + 1;
                }
                proof {
                    assert(a@.take(i as int) =~= a@);
                    assert(exports_to(*self, JsonValue::Array(out)));
                }
                Ok(JsonValue::Array(out))
            },
            OwnedValue::Object(o) => {
                let mut out: Vec<(String, JsonValue)> = Vec::new();
                let mut i: usize = 0;
                while i < o.len()
                    invariant
                        *self == OwnedValue::Object(*o),
                        i <= o@.len(),
                        out@.len() == i,
                        forall|k: int|
                            0 <= k < i ==> o@[k].0@ == (#[trigger] out@[k]).0@ && exports_to(
                                o@[k].1,
                                out@[k].1,
                            ),
                        entries_err(o@.take(i as int)) is None,
                    decreases o@.len() - i,
                {
                    proof {
                        assert(decreases_to!(*self => *o));
                        assert(decreases_to!(*o => o@));
                        assert(decreases_to!(o@ => o@[i as int]));
                        assert(decreases_to!(o@[i as int] => o@[i as int].1));
                        assert(decreases_to!(*self => o@[i as int].1));
                    }
                    match o[i].1.export_value() {
                        Ok(j) => {
                            proof {
                                assert(o@.take(i + 1).drop_last() =~= o@.take(i as int));
                                assert(o@.take(i + 1).last() == o@[i as int]);
                            }
                            let key = o[i].0.clone();
                            out.push((key, j));
                        },
                        Err(e) => {
                            proof {
                                assert(o@.take(i + 1).drop_last() =~= o@.take(i as int));
                                assert(o@.take(i + 1).last() == o@[i as int]);
                                lemma_entries_err_extends(o@, i + 1);
                            }
                            return Err(e);
                        },
                    }
                    i = i + 1;
                }
                proof {
                    assert(o@.take(i as int) =~= o@);
                    assert(exports_to(*self, JsonValue::Object(out)));
                }
                Ok(JsonValue::Object(out))
            },
        }
    }
}

/// The scalar that a generic number imports as: the first of `as_i64`,
/// `as_u64` and the float's bits that exists.
pub open spec fn import_number(n: JsonNumber) -> StaticNode {
    match n {
        JsonNumber::PosInt(u) => if u <= i64::MAX {
            StaticNode::I64(u as i64)
        } else {
            StaticNode::U64(u)
        },
        JsonNumber::NegInt(i) => StaticNode::I64(i),
        JsonNumber::Float(b) => StaticNode::F64(b),
    }
}

/// `v` is the import of `j`: same shape, strings and keys alike, element and
/// entry order kept, numbers as `import_number` gives them.
pub open spec fn imports_to(j: JsonValue, v: OwnedValue) -> bool
    decreases j,
{
    match j {
        JsonValue::Null => v == OwnedValue::Static(StaticNode::Null),
        JsonValue::Bool(b) => v == OwnedValue::Static(StaticNode::Bool(b)),
        JsonValue::Number(n) => v == OwnedValue::Static(import_number(n)),
        JsonValue::String(s) => v matches OwnedValue::String(t) && s@ == t@,
        JsonValue::Array(b) => match v {
            OwnedValue::Array(a) => a@.len() == b@.len() && forall|i: int|
                0 <= i < b@.len() ==> imports_to(#[trigger] b@[i], a@[i]),
            _ => false,
        },
        JsonValue::Object(p) => match v {
            OwnedValue::Object(o) => o@.len() == p@.len() && forall|i: int|
                0 <= i < p@.len() ==> p@[i].0@ == o@[i].0@ && imports_to((#[trigger] p@[i]).1, o@[i].1),
            _ => false,
        },
    }
}

/// The scalar that a leaf stands for: a scalar as it is, a number as its
/// literal parses.
pub open spec fn scalar_of(v: OwnedValue) -> Option<StaticNode> {
    match v {
        OwnedValue::Static(n) => Some(n),
        OwnedValue::Number(m) => parse_spec(m@),
        _ => None,
    }
}

/// Both are scalar leaves whose scalars are equal.
pub open spec fn scalars_equal(a: OwnedValue, b: OwnedValue) -> bool {
    scalar_of(a) matches Some(x) && scalar_of(b) matches Some(y) && x.same_value(y)
}

/// Tree equality: same shape, strings and keys alike, element and entry
/// order alike, scalars equal as `same_value` says.
pub open spec fn same_tree(a: OwnedValue, b: OwnedValue) -> bool
    decreases a,
{
    match a {
        OwnedValue::Static(_) => scalars_equal(a, b),
        OwnedValue::Number(_) => scalars_equal(a, b),
        OwnedValue::String(s) => b matches OwnedValue::String(t) && s@ == t@,
        OwnedValue::Array(x) => match b {
            OwnedValue::Array(y) => x@.len() == y@.len() && forall|i: int|
                0 <= i < x@.len() ==> same_tree(#[trigger] x@[i], y@[i]),
            _ => false,
        },
        OwnedValue::Object(x) => match b {
            OwnedValue::Object(y) => x@.len() == y@.len() && forall|i: int|
                0 <= i < x@.len() ==> x@[i].0@ == y@[i].0@ && same_tree((#[trigger] x@[i]).1, y@[i].1),
            _ => false,
        },
    }
}

impl JsonNumber {
    /// The number as an `i64`, when it is an integer in that range.
    pub fn as_i64(&self) -> (r: Option<i64>)
        ensures
            r == (match *self {
                JsonNumber::PosInt(u) => if u <= i64::MAX {
                    Some(u as i64)
                } else {
                    None
                },
                JsonNumber::NegInt(i) => Some(i),
                JsonNumber::Float(_) => None::<i64>,
            }),
    {
        match *self {
            JsonNumber::PosInt(u) => if u <= i64::MAX as u64 {
                Some(u as i64)
            } else {
                None
            },
            JsonNumber::NegInt(i) => Some(i),
            JsonNumber::Float(_) => None,
        }
    }

    /// The number as a `u64`, when it is a non-negative integer.
    pub fn as_u64(&self) -> (r: Option<u64>)
        ensures
            r == (match *self {
                JsonNumber::PosInt(u) => Some(u),
                _ => None::<u64>,
            }),
    {
        match *self {
            JsonNumber::PosInt(u) => Some(u),
            _ => None,
        }
    }

    /// The bit pattern of a float.
    pub fn float_bits(&self) -> (r: Option<u64>)
        ensures
            r == (match *self {
                JsonNumber::Float(b) => Some(b),
                _ => None::<u64>,
            }),
    {
        match *self {
            JsonNumber::Float(b) => Some(b),
            _ => None,
        }
    }
}

impl OwnedValue {
    /// Imports a tree, as `try_from_json` states.
    fn import_value(j: &JsonValue) -> (r: Result<OwnedValue, SerdeConversionError>)
        ensures
            r matches Ok(v) && imports_to(*j, v),
        decreases j,
    {
        match j {
            JsonValue::Null => Ok(OwnedValue::Static(StaticNode::Null)),
            JsonValue::Bool(b) => Ok(OwnedValue::Static(StaticNode::Bool(*b))),
            JsonValue::Number(n) => {
                if let Some(v) = n.as_i64() {
                    Ok(OwnedValue::Static(StaticNode::I64(v)))
                } else if let Some(v) = n.as_u64() {
                    Ok(OwnedValue::Static(StaticNode::U64(v)))
                } else if let Some(b) = n.float_bits() {
                    Ok(OwnedValue::Static(StaticNode::F64(b)))
                } else {
                    Err(SerdeConversionError::Oops)
                }
            },
            JsonValue::String(s) => Ok(OwnedValue::String(s.clone())),
            JsonValue::Array(b) => {
                let mut out: Vec<OwnedValue> = Vec::new();
                let mut i: usize = 0;
                while i < b.len()
                    invariant
                        *j == JsonValue::Array(*b),
                        i <= b@.len(),
                        out@.len() == i,
                        forall|k: int| 0 <= k < i ==> imports_to(b@[k], #[trigger] out@[k]),
                    decreases b@.len() - i,
                {
                    proof {
                        let ghost jb = (*j)->Array_0;
                        assert(decreases_to!(*j => jb));
                        assert(decreases_to!(jb => jb@));
                        assert(decreases_to!(jb@ => jb@[i as int]));
                    }
                    match OwnedValue::import_value(&b[i]) {
                        Ok(v) => out.push(v),
                        Err(e) => return Err(e),
                    }
                    i = i + 1;
                }
                proof {
                    assert(imports_to(*j, OwnedValue::Array(out)));
                }
                Ok(OwnedValue::Array(out))
            },
            JsonValue::Object(p) => {
                let mut out: Vec<(String, OwnedValue)> = Vec::new();
                let mut i: usize = 0;
                while i < p.len()
                    invariant
                        *j == JsonValue::Object(*p),
                        i <= p@.len(),
                        out@.len() == i,
                        forall|k: int|
                            0 <= k < i ==> p@[k].0@ == (#[trigger] out@[k]).0@ && imports_to(
                                p@[k].1,
                                out@[k].1,
                            ),
                    decreases p@.len() - i,
                {
                    proof {
                        let ghost jp = (*j)->Object_0;
                        assert(decreases_to!(*j => jp));
                        assert(decreases_to!(jp => jp@));
                        assert(decreases_to!(jp@ => jp@[i as int]));
                        assert(decreases_to!(jp@[i as int] => jp@[i as int].1));
                    }
                    match OwnedValue::import_value(&p[i].1) {
                        Ok(v) => {
                            let key = p[i].0.clone();
                            out.push((key, v));
                        },
                        Err(e) => return Err(e),
                    }
                    i = i + 1;
                }
                proof {
                    assert(imports_to(*j, OwnedValue::Object(out)));
                }
                Ok(OwnedValue::Object(out))
            },
        }
    }
}

impl OwnedValue {
    /// The scalar that a leaf stands for, as `scalar_of` states it.
    pub fn scalar(&self) -> (r: Option<StaticNode>)
        ensures
            r == scalar_of(*self),
    {
        match self {
            OwnedValue::Static(n) => Some(*n),
            OwnedValue::Number(m) => match m.parse() {
                Ok(n) => Some(n),
                Err(_) => None,
            },
            _ => None,
        }
    }

    /// A leaf that keeps a number as its literal, in an owned copy of the
    /// same bytes.
    pub fn from_borrowed_number(number: &BorrowedNumber) -> (r: OwnedValue)
        ensures
            r matches OwnedValue::Number(m) && m@ == number@,
    {
        OwnedValue::Number(number.to_owned_number())
    }

    /// Tree equality as `same_tree` states it.
    pub fn same(&self, other: &OwnedValue) -> (r: bool)
        ensures
            r == same_tree(*self, *other),
        decreases self,
    {
        match (self, other) {
            (OwnedValue::String(s), OwnedValue::String(t)) => *s == *t,
            (OwnedValue::Array(x), OwnedValue::Array(y)) => {
                if x.len() != y.len() {
                    return false;
                }
                let mut i: usize = 0;
                while i < x.len()
                    invariant
                        *self == OwnedValue::Array(*x),
                        *other == OwnedValue::Array(*y),
                        x@.len() == y@.len(),
                        i <= x@.len(),
                        forall|k: int| 0 <= k < i ==> same_tree(#[trigger] x@[k], y@[k]),
                    decreases x@.len() - i,
                {
                    proof {
                        let ghost sx = (*self)->Array_0;
                        assert(decreases_to!(*self => sx));
                        assert(decreases_to!(sx => sx@));
                        assert(decreases_to!(sx@ => sx@[i as int]));
                    }
                    if !x[i].same(&y[i]) {
                        return false;
                    }
                    i = i + 1;
                }
                true
            },
            (OwnedValue::Object(x), OwnedValue::Object(y)) => {
                if x.len() != y.len() {
                    return false;
                }
                let mut i: usize = 0;
                while i < x.len()
                    invariant
                        *self == OwnedValue::Object(*x),
                        *other == OwnedValue::Object(*y),
                        x@.len() == y@.len(),
                        i <= x@.len(),
                        forall|k: int|
                            0 <= k < i ==> (#[trigger] x@[k]).0@ == y@[k].0@ && same_tree(
                                x@[k].1,
                                y@[k].1,
                            ),
                    decreases x@.len() - i,
                {
                    proof {
                        let ghost sx = (*self)->Object_0;
                        assert(decreases_to!(*self => sx));
                        assert(decreases_to!(sx => sx@));
                        assert(decreases_to!(sx@ => sx@[i as int]));
                        assert(decreases_to!(sx@[i as int] => sx@[i as int].1));
                    }
                    if x[i].0 != y[i].0 || !x[i].1.same(&y[i].1) {
                        return false;
                    }
                    i = i + 1;
                }
                true
            },
            _ => match (self.scalar(), other.scalar()) {
                (Some(x), Some(y)) => x.same(&y),
                _ => false,
            },
        }
    }
}

impl PartialEq for OwnedValue {
    fn eq(&self, other: &OwnedValue) -> (r: bool) {
        self.same(other)
    }
}

impl vstd::std_specs::cmp::PartialEqSpecImpl for OwnedValue {
    open spec fn obeys_eq_spec() -> bool {
        false
    }

    open spec fn eq_spec(&self, other: &OwnedValue) -> bool {
        same_tree(*self, *other)
    }
}

/// Exporting a tree and importing the result gives back an equal tree,
/// for every tree whose export succeeds (no NaN or infinity, no integer
/// outside the 64-bit range).
pub proof fn lemma_round_trip(v: OwnedValue, j: JsonValue, w: OwnedValue)
    requires
        export_err(v) is None,
        exports_to(v, j),
        imports_to(j, w),
    ensures
        same_tree(v, w),
{
    lemma_round_trip_inner(v, j, w);
}

proof fn lemma_round_trip_inner(v: OwnedValue, j: JsonValue, w: OwnedValue)
    requires
        exports_to(v, j),
        imports_to(j, w),
    ensures
        same_tree(v, w),
    decreases v,
{
    match v {
        OwnedValue::Static(n) => {
            assert(same_tree(v, w));
        },
        OwnedValue::Number(m) => {
            assert(same_tree(v, w));
        },
        OwnedValue::String(_) => {
            assert(same_tree(v, w));
        },
        OwnedValue::Array(a) => {
            assert(j is Array);
            let b = j->Array_0;
            assert(w is Array);
            let c = w->Array_0;
            assert forall|i: int| 0 <= i < a@.len() implies same_tree(#[trigger] a@[i], c@[i]) by {
                let va = v->Array_0;
                assert(decreases_to!(v => va));
                assert(decreases_to!(va => va@));
                assert(decreases_to!(va@ => va@[i]));
                let jb = j->Array_0;
                assert(decreases_to!(j => jb));
                assert(decreases_to!(jb => jb@));
                assert(decreases_to!(jb@ => jb@[i]));
                assert(exports_to(a@[i], b@[i]));
                assert(imports_to(b@[i], c@[i]));
                lemma_round_trip_inner(a@[i], b@[i], c@[i]);
            }
            assert(a@.len() == b@.len());
            assert(c@.len() == b@.len());
            assert(same_tree(v, w));
        },
        OwnedValue::Object(o) => {
            assert(j is Object);
            let p = j->Object_0;
            assert(w is Object);
            let c = w->Object_0;
            assert forall|i: int| 0 <= i < o@.len() implies o@[i].0@ == c@[i].0@ && same_tree(
                (#[trigger] o@[i]).1,
                c@[i].1,
            ) by {
                let vo = v->Object_0;
                assert(decreases_to!(v => vo));
                assert(decreases_to!(vo => vo@));
                assert(decreases_to!(vo@ => vo@[i]));
                assert(decreases_to!(vo@[i] => vo@[i].1));
                let jp = j->Object_0;
                assert(decreases_to!(j => jp));
                assert(decreases_to!(jp => jp@));
                assert(decreases_to!(jp@ => jp@[i]));
                assert(decreases_to!(jp@[i] => jp@[i].1));
                assert(exports_to(o@[i].1, p@[i].1));
                assert(imports_to(p@[i].1, c@[i].1));
                lemma_round_trip_inner(o@[i].1, p@[i].1, c@[i].1);
            }
            assert(same_tree(v, w));
        },
    }
}

/// No two entries of `s` have the same key.
pub open spec fn keys_distinct<T>(s: Seq<(String, T)>) -> bool {
    forall|i: int, k: int| 0 <= i < k < s.len() ==> s[i].0@ != s[k].0@
}

/// Every object in the tree has distinct keys.
pub open spec fn wf(v: OwnedValue) -> bool
    decreases v,
{
    match v {
        OwnedValue::Array(a) => forall|i: int| 0 <= i < a@.len() ==> wf(#[trigger] a@[i]),
        OwnedValue::Object(o) => keys_distinct(o@) && forall|i: int|
            0 <= i < o@.len() ==> wf((#[trigger] o@[i]).1),
        _ => true,
    }
}

/// Every object in the generic value has distinct keys, as a map's do.
pub open spec fn json_wf(j: JsonValue) -> bool
    decreases j,
{
    match j {
        JsonValue::Array(a) => forall|i: int| 0 <= i < a@.len() ==> json_wf(#[trigger] a@[i]),
        JsonValue::Object(o) => keys_distinct(o@) && forall|i: int|
            0 <= i < o@.len() ==> json_wf((#[trigger] o@[i]).1),
        _ => true,
    }
}

/// An export keeps keys distinct.
pub proof fn lemma_export_wf(v: OwnedValue, j: JsonValue)
    requires
        exports_to(v, j),
        wf(v),
    ensures
        json_wf(j),
    decreases v,
{
    match v {
        OwnedValue::Array(a) => {
            let b = j->Array_0;
            assert forall|i: int| 0 <= i < b@.len() implies json_wf(#[trigger] b@[i]) by {
                let va = v->Array_0;
                assert(decreases_to!(v => va));
                assert(decreases_to!(va => va@));
                assert(decreases_to!(va@ => va@[i]));
                assert(exports_to(a@[i], b@[i]));
                lemma_export_wf(a@[i], b@[i]);
            }
        },
        OwnedValue::Object(o) => {
            let p = j->Object_0;
            assert forall|i: int| 0 <= i < p@.len() implies json_wf((#[trigger] p@[i]).1) by {
                let vo = v->Object_0;
                assert(decreases_to!(v => vo));
                assert(decreases_to!(vo => vo@));
                assert(decreases_to!(vo@ => vo@[i]));
                assert(decreases_to!(vo@[i] => vo@[i].1));
                assert(exports_to(o@[i].1, p@[i].1));
                lemma_export_wf(o@[i].1, p@[i].1);
            }
            assert forall|i: int, k: int| 0 <= i < k < p@.len() implies p@[i].0@ != p@[k].0@ by {
                assert(o@[i].0@ == p@[i].0@);
                assert(o@[k].0@ == p@[k].0@);
            }
        },
        _ => {},
    }
}

/// An import keeps keys distinct.
pub proof fn lemma_import_wf(j: JsonValue, v: OwnedValue)
    requires
        imports_to(j, v),
        json_wf(j),
    ensures
        wf(v),
    decreases j,
{
    match j {
        JsonValue::Array(b) => {
            let a = v->Array_0;
            assert forall|i: int| 0 <= i < a@.len() implies wf(#[trigger] a@[i]) by {
                let jb = j->Array_0;
                assert(decreases_to!(j => jb));
                assert(decreases_to!(jb => jb@));
                assert(decreases_to!(jb@ => jb@[i]));
                assert(imports_to(b@[i], a@[i]));
                lemma_import_wf(b@[i], a@[i]);
            }
        },
        JsonValue::Object(p) => {
            let o = v->Object_0;
            assert forall|i: int| 0 <= i < o@.len() implies wf((#[trigger] o@[i]).1) by {
                let jp = j->Object_0;
                assert(decreases_to!(j => jp));
                assert(decreases_to!(jp => jp@));
                assert(decreases_to!(jp@ => jp@[i]));
                assert(decreases_to!(jp@[i] => jp@[i].1));
                assert(imports_to(p@[i].1, o@[i].1));
                lemma_import_wf(p@[i].1, o@[i].1);
            }
            assert forall|i: int, k: int| 0 <= i < k < o@.len() implies o@[i].0@ != o@[k].0@ by {
                assert(o@[i].0@ == p@[i].0@);
                assert(o@[k].0@ == p@[k].0@);
            }
        },
        _ => {},
    }
}

impl OwnedValue {
    /// Converts the tree into the generic JSON value model, keeping element
    /// and entry order. Fails with the first failure in document order: a
    /// NaN or infinite float, a 128-bit integer outside the 64-bit range, or
    /// a number literal that does not parse. A tree whose objects have
    /// distinct keys exports to a value whose objects have distinct keys.
    pub fn try_into_json(&self) -> (r: Result<JsonValue, SerdeConversionError>)
        ensures
            match r {
                Ok(j) => export_err(*self) is None && exports_to(*self, j) && (wf(*self)
                    ==> json_wf(j)),
                Err(e) => export_err(*self) == Some(e),
            },
    {
        let r = self.export_value();
        proof {
            if r is Ok && wf(*self) {
                lemma_export_wf(*self, r->Ok_0);
            }
        }
        r
    }

    /// Builds a tree from the generic JSON value model, keeping element and
    /// entry order. A number becomes the first of a signed 64-bit, an
    /// unsigned 64-bit or a float scalar that represents it. Distinct keys
    /// in the input give a tree whose objects have distinct keys.
    pub fn try_from_json(j: &JsonValue) -> (r: Result<OwnedValue, SerdeConversionError>)
        ensures
            r matches Ok(v) && imports_to(*j, v) && (json_wf(*j) ==> wf(v)),
    {
        let r = OwnedValue::import_value(j);
        proof {
            if json_wf(*j) {
                lemma_import_wf(*j, r->Ok_0);
            }
        }
        r
    }
}

} // verus!
