use vstd::prelude::*;

use crate::node::StaticNode;
use crate::number::{parse_spec, BorrowedNumber, OwnedNumber};
use crate::value::{
    export_scalar, export_static, import_number, scalar_of, JsonValue, OwnedValue,
    SerdeConversionError,
};

verus! {

broadcast use {
    vstd::std_specs::vec::axiom_vec_decreases_to_view,
    vstd::std_specs::vec::axiom_vec_index_decreases,
};

/// Text that borrows from the input or holds its own copy.
#[derive(Debug)]
pub enum BorrowedStr<'v> {
    Borrowed(&'v str),
    Owned(String),
}

impl<'v> View for BorrowedStr<'v> {
    type V = Seq<char>;

    open spec fn view(&self) -> Seq<char> {
        match self {
            BorrowedStr::Borrowed(s) => s@,
            BorrowedStr::Owned(s) => s@,
        }
    }
}

impl<'v> BorrowedStr<'v> {
    /// An owned copy of the text.
    pub fn to_owned_string(&self) -> (r: String)
        ensures
            r@ == self@,
    {
        match self {
            BorrowedStr::Borrowed(s) => (*s).to_owned(),
            BorrowedStr::Owned(s) => s.clone(),
        }
    }
}

impl<'v> BorrowedStr<'v> {
    /// Whether the text equals `other`.
    pub fn same_text(&self, other: &String) -> (r: bool)
        ensures
            r == (self@ == other@),
    {
        match self {
            BorrowedStr::Borrowed(s) => {
                let o: &str = other.as_str();
                str_eq(s, o)
            },
            BorrowedStr::Owned(s) => *s == *other,
        }
    }
}

/// Whether two strings hold the same characters.
fn str_eq(a: &str, b: &str) -> (r: bool)
    ensures
        r == (a@ == b@),
{
    let x = a.to_owned();
    let y = b.to_owned();
    x == y
}

/// A value tree whose strings may borrow from the input buffer, so that it
/// cannot outlive that buffer. Object entries keep their insertion order.
#[derive(Debug)]
pub enum BorrowedValue<'v> {
    Static(StaticNode),
    Number(BorrowedNumber<'v>),
    String(BorrowedStr<'v>),
    Array(Vec<BorrowedValue<'v>>),
    Object(Vec<(BorrowedStr<'v>, BorrowedValue<'v>)>),
}

/// The first export failure in `v`, in document order, if any.
pub open spec fn borrowed_export_err<'v>(v: BorrowedValue<'v>) -> Option<SerdeConversionError>
    decreases v,
{
    match v {
        BorrowedValue::Static(n) => match export_static(n) {
            Ok(_) => None,
            Err(e) => Some(e),
        },
        BorrowedValue::Number(m) => match parse_spec(m@) {
            Some(n) => match export_static(n) {
                Ok(_) => None,
                Err(e) => Some(e),
            },
            None => Some(SerdeConversionError::InvalidNumber),
        },
        BorrowedValue::String(_) => None,
        BorrowedValue::Array(a) => {
            proof { broadcast use vstd::std_specs::vec::axiom_vec_decreases_to_view; }
            borrowed_items_err(a@)
        },
        BorrowedValue::Object(o) => {
            proof { broadcast use vstd::std_specs::vec::axiom_vec_decreases_to_view; }
            borrowed_entries_err(o@)
        },
    }
}

/// The first export failure among `s`, if any.
pub open spec fn borrowed_items_err<'v>(s: Seq<BorrowedValue<'v>>) -> Option<SerdeConversionError>
    decreases s,
{
    if s.len() == 0 {
        None
    } else {
        match borrowed_items_err(s.drop_last()) {
            Some(e) => Some(e),
            None => borrowed_export_err(s.last()),
        }
    }
}

/// The first export failure among the values of `s`, if any.
pub open spec fn borrowed_entries_err<'v>(s: Seq<(BorrowedStr<'v>, BorrowedValue<'v>)>) -> Option<SerdeConversionError>
    decreases s,
{
    if s.len() == 0 {
        None
    } else {
        match borrowed_entries_err(s.drop_last()) {
            Some(e) => Some(e),
            None => borrowed_export_err(s.last().1),
        }
    }
}

/// `j` is the export of `v`: same shape, strings and keys alike, element and
/// entry order kept, scalars as `export_static` gives them.
pub open spec fn borrowed_exports_to<'v>(v: BorrowedValue<'v>, j: JsonValue) -> bool
    decreases v,
{
    match v {
        BorrowedValue::Static(n) => export_static(n) == Ok::<JsonValue, SerdeConversionError>(j),
        BorrowedValue::Number(m) => parse_spec(m@) matches Some(n) && export_static(n) == Ok::<
            JsonValue,
            SerdeConversionError,
        >(j),
        BorrowedValue::String(s) => j matches JsonValue::String(t) && s@ == t@,
        BorrowedValue::Array(a) => match j {
            JsonValue::Array(b) => a@.len() == b@.len() && forall|i: int|
                0 <= i < a@.len() ==> borrowed_exports_to(#[trigger] a@[i], b@[i]),
            _ => false,
        },
        BorrowedValue::Object(o) => match j {
            JsonValue::Object(p) => o@.len() == p@.len() && forall|i: int|
                0 <= i < o@.len() ==> o@[i].0@ == p@[i].0@ && borrowed_exports_to((#[trigger] o@[i]).1, p@[i].1),
            _ => false,
        },
    }
}

proof fn lemma_borrowed_items_err_extends<'v>(s: Seq<BorrowedValue<'v>>, k: int)
    requires
        0 <= k <= s.len(),
        borrowed_items_err(s.take(k)) is Some,
    ensures
        borrowed_items_err(s) == borrowed_items_err(s.take(k)),
    decreases s.len() - k,
{
    if k < s.len() {
        assert(s.take(k + 1).drop_last() =~= s.take(k));
        lemma_borrowed_items_err_extends(s, k + 1);
    } else {
        assert(s.take(k) =~= s);
    }
}

proof fn lemma_borrowed_entries_err_extends<'v>(s: Seq<(BorrowedStr<'v>, BorrowedValue<'v>)>, k: int)
    requires
        0 <= k <= s.len(),
        borrowed_entries_err(s.take(k)) is Some,
    ensures
        borrowed_entries_err(s) == borrowed_entries_err(s.take(k)),
    decreases s.len() - k,
{
    if k < s.len() {
        assert(s.take(k + 1).drop_last() =~= s.take(k));
        lemma_borrowed_entries_err_extends(s, k + 1);
    } else {
        assert(s.take(k) =~= s);
    }
}

impl<'v> BorrowedValue<'v> {
    /// Converts the tree into the generic JSON value model, keeping element
    /// and entry order. Fails with the first failure in document order: a
    /// NaN or infinite float, or a 128-bit integer outside the 64-bit range.
    pub fn try_into_json(&self) -> (r: Result<JsonValue, SerdeConversionError>)
        ensures
            match r {
                Ok(j) => borrowed_export_err(*self) is None && borrowed_exports_to(*self, j),
                Err(e) => borrowed_export_err(*self) == Some(e),
            },
        decreases self,
    {
        match self {
            BorrowedValue::Static(n) => export_scalar(*n),
            BorrowedValue::Number(m) => match m.parse() {
                Ok(n) => export_scalar(n),
                Err(_) => Err(SerdeConversionError::InvalidNumber),
            },
            BorrowedValue::String(s) => Ok(JsonValue::String(s.to_owned_string())),
            BorrowedValue::Array(a) => {
                let mut out: Vec<JsonValue> = Vec::new();
                let mut i: usize = 0;
                while i < a.len()
                    invariant
                        *self == BorrowedValue::Array(*a),
                        i <= a@.len(),
                        out@.len() == i,
                        forall|k: int| 0 <= k < i ==> borrowed_exports_to(a@[k], #[trigger] out@[k]),
                        borrowed_items_err(a@.take(i as int)) is None,
                    decreases a@.len() - i,
                {
                    proof {
                        assert(decreases_to!(*self => *a));
                        assert(decreases_to!(*a => a@));
                        assert(decreases_to!(a@ => a@[i as int]));
                        assert(decreases_to!(*self => a@[i as int]));
                    }
                    match a[i].try_into_json() {
                        Ok(j) => {
                            proof {
                                assert(a@.take(i + 1).drop_last() =~= a@.take(i as int));
                                assert(a@.take(i + 1).last() == a@[i as int]);
                            }
                            out.push(j);
                        },
                        Err(e) => {
                            proof {
                                assert(a@.take(i + 1).drop_last() =~= a@.take(i as int));
                                assert(a@.take(i + 1).last() == a@[i as int]);
                                lemma_borrowed_items_err_extends(a@, i + 1);
                                assert(borrowed_export_err(*self) == borrowed_items_err(a@));
                            }
                            return Err(e);
                        },
                    }
                    i = i + 1;
                }
                proof {
                    assert(a@.take(i as int) =~= a@);
                    assert(borrowed_exports_to(*self, JsonValue::Array(out)));
                }
                Ok(JsonValue::Array(out))
            },
            BorrowedValue::Object(o) => {
                let mut out: Vec<(String, JsonValue)> = Vec::new();
                let mut i: usize = 0;
                while i < o.len()
                    invariant
                        *self == BorrowedValue::Object(*o),
                        i <= o@.len(),
                        out@.len() == i,
                        forall|k: int|
                            0 <= k < i ==> o@[k].0@ == (#[trigger] out@[k]).0@ && borrowed_exports_to(
                                o@[k].1,
                                out@[k].1,
                            ),
                        borrowed_entries_err(o@.take(i as int)) is None,
                    decreases o@.len() - i,
                {
                    proof {
                        assert(decreases_to!(*self => *o));
                        assert(decreases_to!(*o => o@));
                        assert(decreases_to!(o@ => o@[i as int]));
                        assert(decreases_to!(o@[i as int] => o@[i as int].1));
                        assert(decreases_to!(*self => o@[i as int].1));
                    }
                    match o[i].1.try_into_json() {
                        Ok(j) => {
                            proof {
                                assert(o@.take(i + 1).drop_last() =~= o@.take(i as int));
                                assert(o@.take(i + 1).last() == o@[i as int]);
                            }
                            let key = o[i].0.to_owned_string();
                            out.push((key, j));
                        },
                        Err(e) => {
                            proof {
                                assert(o@.take(i + 1).drop_last() =~= o@.take(i as int));
                                assert(o@.take(i + 1).last() == o@[i as int]);
                                lemma_borrowed_entries_err_extends(o@, i + 1);
                            }
                            return Err(e);
                        },
                    }
                    i = i + 1;
                }
                proof {
                    assert(o@.take(i as int) =~= o@);
                    assert(borrowed_exports_to(*self, JsonValue::Object(out)));
                }
                Ok(JsonValue::Object(out))
            },
        }
    }
}

/// `v` is the import of `j`: same shape, strings and keys alike, element and
/// entry order kept, numbers as `import_number` gives them.
pub open spec fn borrowed_imports_to<'v>(j: JsonValue, v: BorrowedValue<'v>) -> bool
    decreases j,
{
    match j {
        JsonValue::Null => v == BorrowedValue::Static(StaticNode::Null),
        JsonValue::Bool(b) => v == BorrowedValue::Static(StaticNode::Bool(b)),
        JsonValue::Number(n) => v == BorrowedValue::Static(import_number(n)),
        JsonValue::String(s) => v matches BorrowedValue::String(t) && s@ == t@,
        JsonValue::Array(b) => match v {
            BorrowedValue::Array(a) => a@.len() == b@.len() && forall|i: int|
                0 <= i < b@.len() ==> borrowed_imports_to(#[trigger] b@[i], a@[i]),
            _ => false,
        },
        JsonValue::Object(p) => match v {
            BorrowedValue::Object(o) => o@.len() == p@.len() && forall|i: int|
                0 <= i < p@.len() ==> p@[i].0@ == o@[i].0@ && borrowed_imports_to((#[trigger] p@[i]).1, o@[i].1),
            _ => false,
        },
    }
}

impl<'v> BorrowedValue<'v> {
    /// Builds a tree from the generic JSON value model, keeping element and
    /// entry order. A number becomes the first of a signed 64-bit, an
    /// unsigned 64-bit or a float scalar that represents it.
    pub fn try_from_json(j: &JsonValue) -> (r: Result<BorrowedValue<'v>, SerdeConversionError>)
        ensures
            r matches Ok(v) && borrowed_imports_to(*j, v),
        decreases j,
    {
        match j {
            JsonValue::Null => Ok(BorrowedValue::Static(StaticNode::Null)),
            JsonValue::Bool(b) => Ok(BorrowedValue::Static(StaticNode::Bool(*b))),
            JsonValue::Number(n) => {
                if let Some(v) = n.as_i64() {
                    Ok(BorrowedValue::Static(StaticNode::I64(v)))
                } else if let Some(v) = n.as_u64() {
                    Ok(BorrowedValue::Static(StaticNode::U64(v)))
                } else if let Some(b) = n.float_bits() {
                    Ok(BorrowedValue::Static(StaticNode::F64(b)))
                } else {
                    Err(SerdeConversionError::Oops)
                }
            },
            JsonValue::String(s) => Ok(BorrowedValue::String(BorrowedStr::Owned(s.clone()))),
            JsonValue::Array(b) => {
                let mut out: Vec<BorrowedValue<'v>> = Vec::new();
                let mut i: usize = 0;
                while i < b.len()
                    invariant
                        *j == JsonValue::Array(*b),
                        i <= b@.len(),
                        out@.len() == i,
                        forall|k: int| 0 <= k < i ==> borrowed_imports_to(b@[k], #[trigger] out@[k]),
                    decreases b@.len() - i,
                {
                    proof {
                        let ghost jb = (*j)->Array_0;
                        assert(decreases_to!(*j => jb));
                        assert(decreases_to!(jb => jb@));
                        assert(decreases_to!(jb@ => jb@[i as int]));
                    }
                    match BorrowedValue::try_from_json(&b[i]) {
                        Ok(v) => out.push(v),
                        Err(e) => return Err(e),
                    }
                    i = i + 1;
                }
                proof {
                    assert(borrowed_imports_to(*j, BorrowedValue::Array(out)));
                }
                Ok(BorrowedValue::Array(out))
            },
            JsonValue::Object(p) => {
                let mut out: Vec<(BorrowedStr<'v>, BorrowedValue<'v>)> = Vec::new();
                let mut i: usize = 0;
                while i < p.len()
                    invariant
                        *j == JsonValue::Object(*p),
                        i <= p@.len(),
                        out@.len() == i,
                        forall|k: int|
                            0 <= k < i ==> p@[k].0@ == (#[trigger] out@[k]).0@ && borrowed_imports_to(
                                p@[k].1,
                                out@[k].1,
                            ),
                    decreases p@.len() - i,
                {
                    proof {
                        let ghost jp = (*j)->Object_0;
                        assert(decreases_to!(*j => jp));
                        assert(decreases_to!(jp => jp@));
                        assert(decreases_to!(jp@ => jp@[i as int]));
                        assert(decreases_to!(jp@[i as int] => jp@[i as int].1));
                    }
                    match BorrowedValue::try_from_json(&p[i].1) {
                        Ok(v) => {
                            let key = BorrowedStr::Owned(p[i].0.clone());
                            out.push((key, v));
                        },
                        Err(e) => return Err(e),
                    }
                    i = i + 1;
                }
                proof {
                    assert(borrowed_imports_to(*j, BorrowedValue::Object(out)));
                }
                Ok(BorrowedValue::Object(out))
            },
        }
    }
}

/// `o` is the owned copy of `b`: same shape, the same text in every string
/// and key, the same scalars, element and entry order kept.
pub open spec fn materializes<'v>(b: BorrowedValue<'v>, o: OwnedValue) -> bool
    decreases b,
{
    match b {
        BorrowedValue::Static(n) => o == OwnedValue::Static(n),
        BorrowedValue::Number(m) => o matches OwnedValue::Number(c) && c@ == m@,
        BorrowedValue::String(s) => o matches OwnedValue::String(t) && s@ == t@,
        BorrowedValue::Array(a) => match o {
            OwnedValue::Array(c) => a@.len() == c@.len() && forall|i: int|
                0 <= i < a@.len() ==> materializes(#[trigger] a@[i], c@[i]),
            _ => false,
        },
        BorrowedValue::Object(a) => match o {
            OwnedValue::Object(c) => a@.len() == c@.len() && forall|i: int|
                0 <= i < a@.len() ==> a@[i].0@ == c@[i].0@ && materializes(
                    (#[trigger] a@[i]).1,
                    c@[i].1,
                ),
            _ => false,
        },
    }
}

impl<'v> BorrowedValue<'v> {
    /// An owned copy of the tree, which no longer depends on the input
    /// buffer. It always succeeds.
    pub fn into_owned_value(&self) -> (r: OwnedValue)
        ensures
            materializes(*self, r),
        decreases self,
    {
        match self {
            BorrowedValue::Static(n) => OwnedValue::Static(*n),
            BorrowedValue::Number(m) => OwnedValue::Number(m.to_owned_number()),
            BorrowedValue::String(s) => OwnedValue::String(s.to_owned_string()),
            BorrowedValue::Array(a) => {
                let mut out: Vec<OwnedValue> = Vec::new();
                let mut i: usize = 0;
                while i < a.len()
                    invariant
                        *self == BorrowedValue::Array(*a),
                        i <= a@.len(),
                        out@.len() == i,
                        forall|k: int| 0 <= k < i ==> materializes(a@[k], #[trigger] out@[k]),
                    decreases a@.len() - i,
                {
                    proof {
                        let ghost sa = (*self)->Array_0;
                        assert(decreases_to!(*self => sa));
                        assert(decreases_to!(sa => sa@));
                        assert(decreases_to!(sa@ => sa@[i as int]));
                    }
                    let v = a[i].into_owned_value();
                    out.push(v);
                    i = i + 1;
                }
                OwnedValue::Array(out)
            },
            BorrowedValue::Object(o) => {
                let mut out: Vec<(String, OwnedValue)> = Vec::new();
                let mut i: usize = 0;
                while i < o.len()
                    invariant
                        *self == BorrowedValue::Object(*o),
                        i <= o@.len(),
                        out@.len() == i,
                        forall|k: int|
                            0 <= k < i ==> o@[k].0@ == (#[trigger] out@[k]).0@ && materializes(
                                o@[k].1,
                                out@[k].1,
                            ),
                    decreases o@.len() - i,
                {
                    proof {
                        let ghost so = (*self)->Object_0;
                        assert(decreases_to!(*self => so));
                        assert(decreases_to!(so => so@));
                        assert(decreases_to!(so@ => so@[i as int]));
                        assert(decreases_to!(so@[i as int] => so@[i as int].1));
                    }
                    let key = o[i].0.to_owned_string();
                    let v = o[i].1.into_owned_value();
                    out.push((key, v));
                    i = i + 1;
                }
                OwnedValue::Object(out)
            },
        }
    }
}

/// The scalar that a leaf stands for: a scalar as it is, a number as its
/// literal parses.
pub open spec fn borrowed_scalar_of<'v>(v: BorrowedValue<'v>) -> Option<StaticNode> {
    match v {
        BorrowedValue::Static(n) => Some(n),
        BorrowedValue::Number(m) => parse_spec(m@),
        _ => None,
    }
}

/// Both are scalar leaves whose scalars are equal.
pub open spec fn mixed_scalars_equal<'v>(a: BorrowedValue<'v>, b: OwnedValue) -> bool {
    borrowed_scalar_of(a) matches Some(x) && scalar_of(b) matches Some(y) && x.same_value(y)
}

impl<'v> BorrowedValue<'v> {
    /// The scalar that a leaf stands for, as `borrowed_scalar_of` states it.
    pub fn scalar(&self) -> (r: Option<StaticNode>)
        ensures
            r == borrowed_scalar_of(*self),
    {
        match self {
            BorrowedValue::Static(n) => Some(*n),
            BorrowedValue::Number(m) => match m.parse() {
                Ok(n) => Some(n),
                Err(_) => None,
            },
            _ => None,
        }
    }

    /// A leaf that keeps a number as its literal, holding the same bytes.
    pub fn from_owned_number(number: OwnedNumber) -> (r: BorrowedValue<'v>)
        ensures
            r matches BorrowedValue::Number(m) && m@ == number@,
    {
        BorrowedValue::Number(number.into_borrowed_number())
    }
}

/// Equality of a borrowed and an owned tree: same shape, strings and keys
/// alike, element and entry order alike, scalars equal as `same_value` says.
pub open spec fn same_mixed<'v>(a: BorrowedValue<'v>, b: OwnedValue) -> bool
    decreases a,
{
    match a {
        BorrowedValue::Static(_) => mixed_scalars_equal(a, b),
        BorrowedValue::Number(_) => mixed_scalars_equal(a, b),
        BorrowedValue::String(s) => b matches OwnedValue::String(t) && s@ == t@,
        BorrowedValue::Array(x) => match b {
            OwnedValue::Array(y) => x@.len() == y@.len() && forall|i: int|
                0 <= i < x@.len() ==> same_mixed(#[trigger] x@[i], y@[i]),
            _ => false,
        },
        BorrowedValue::Object(x) => match b {
            OwnedValue::Object(y) => x@.len() == y@.len() && forall|i: int|
                0 <= i < x@.len() ==> x@[i].0@ == y@[i].0@ && same_mixed((#[trigger] x@[i]).1, y@[i].1),
            _ => false,
        },
    }
}

impl<'v> BorrowedValue<'v> {
    /// Equality with an owned tree as `same_mixed` states it.
    pub fn eq_owned(&self, other: &OwnedValue) -> (r: bool)
        ensures
            r == same_mixed(*self, *other),
        decreases self,
    {
        match (self, other) {
            (BorrowedValue::String(s), OwnedValue::String(t)) => s.same_text(t),
            (BorrowedValue::Array(x), OwnedValue::Array(y)) => {
                if x.len() != y.len() {
                    return false;
                }
                let mut i: usize = 0;
                while i < x.len()
                    invariant
                        *self == BorrowedValue::Array(*x),
                        *other == OwnedValue::Array(*y),
                        x@.len() == y@.len(),
                        i <= x@.len(),
                        forall|k: int| 0 <= k < i ==> same_mixed(#[trigger] x@[k], y@[k]),
                    decreases x@.len() - i,
                {
                    proof {
                        let ghost sx = (*self)->Array_0;
                        assert(decreases_to!(*self => sx));
                        assert(decreases_to!(sx => sx@));
                        assert(decreases_to!(sx@ => sx@[i as int]));
                    }
                    if !x[i].eq_owned(&y[i]) {
                        return false;
                    }
                    i = i + 1;
                }
                true
            },
            (BorrowedValue::Object(x), OwnedValue::Object(y)) => {
                if x.len() != y.len() {
                    return false;
                }
                let mut i: usize = 0;
                while i < x.len()
                    invariant
                        *self == BorrowedValue::Object(*x),
                        *other == OwnedValue::Object(*y),
                        x@.len() == y@.len(),
                        i <= x@.len(),
                        forall|k: int|
                            0 <= k < i ==> (#[trigger] x@[k]).0@ == y@[k].0@ && same_mixed(
                                x@[k].1,
                                y@[k].1,
                            ),
                    decreases x@.len() - i,
                {
                    proof {
                        let ghost sx = (*self)->Object_0;
                        assert(decreases_to!(*self => sx));
                        assert(decreases_to!(sx => sx@));
                        assert(decreases_to!(sx@ => sx@[i as int]));
                        assert(decreases_to!(sx@[i as int] => sx@[i as int].1));
                    }
                    if !x[i].0.same_text(&y[i].0) || !x[i].1.eq_owned(&y[i].1) {
                        return false;
                    }
                    i = i + 1;
                }
                true
            },
            _ => match (self.scalar(), other.scalar()) {
                (Some(x), Some(y)) => x.same(&y),
                _ => false,
            },
        }
    }
}

} // verus!
