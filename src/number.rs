use vstd::prelude::*;

use crate::error::{Error, ErrorType};
use crate::grammar::{
    check_number, digits_value, has_exp, has_frac, is_digit, is_integer_literal, is_number,
    lemma_digits_end_bounds, lemma_digits_value_mono, lemma_digits_value_nonneg, literal_int,
    scan_digits, sign_end,
};
use crate::node::StaticNode;

verus! {

/// What a binary64 parse of a decimal literal yields: its bit pattern, or
/// nothing when the literal is refused or out of range.
pub uninterp spec fn float_bits_of(s: Seq<u8>) -> Option<u64>;

/// Relies on serde_json's number deserialization (`from_slice` into
/// `serde_json::Number`, then `Number::as_f64`) to turn a decimal literal
/// into the nearest binary64 value; the result depends on the bytes alone.
#[verifier::external_body]
fn decimal_to_float_bits(s: &[u8]) -> (r: Option<u64>)
    ensures
        r == float_bits_of(s@),
{
    serde_json::from_slice::<serde_json::Number>(s).ok().and_then(|n| n.as_f64()).map(
        |x| x.to_bits(),
    )
}

/// The scalar that a number literal denotes, if it is one and fits: a
/// non-negative integer becomes `U64`, a negative one `I64`, a literal with a
/// fraction or exponent `F64`.
pub open spec fn parse_spec(s: Seq<u8>) -> Option<StaticNode> {
    if !is_number(s) {
        None
    } else if is_integer_literal(s) {
        let v = literal_int(s);
        if sign_end(s) == 1 {
            if v >= i64::MIN {
                Some(StaticNode::I64(v as i64))
            } else {
                None
            }
        } else {
            if v <= u64::MAX {
                Some(StaticNode::U64(v as u64))
            } else {
                None
            }
        }
    } else {
        match float_bits_of(s) {
            Some(b) => Some(StaticNode::F64(b)),
            None => None,
        }
    }
}

/// What `parse` returns on the bytes `s`.
pub open spec fn parse_result(s: Seq<u8>) -> Result<StaticNode, Error> {
    match parse_spec(s) {
        Some(n) => Ok(n),
        None => Err(Error { index: 0, error: ErrorType::Syntax }),
    }
}

/// Reads the digits of `s[lo..]` as a magnitude no larger than `limit`.
fn magnitude(s: &[u8], lo: usize, limit: u64) -> (r: Option<u64>)
    requires
        lo <= s@.len(),
        forall|k: int| lo <= k < s@.len() ==> is_digit(#[trigger] s@[k]),
    ensures
        r matches Some(m) ==> m as int == digits_value(s@, lo as int, s@.len() as int) && m
            <= limit,
        r is None ==> digits_value(s@, lo as int, s@.len() as int) > limit,
{
    let mut acc: u64 = 0;
    let mut i: usize = lo;
    while i < s.len()
        invariant
            lo <= i <= s@.len(),
            acc as int == digits_value(s@, lo as int, i as int),
            acc <= limit,
            forall|k: int| lo <= k < s@.len() ==> is_digit(#[trigger] s@[k]),
        decreases s@.len() - i,
    {
        let d = (s[i] - 48) as u128;
        let next: u128 = acc as u128 * 10 + d;
        if next > limit as u128 {
            proof {
                assert(digits_value(s@, lo as int, i + 1) == next);
                lemma_digits_value_mono(s@, lo as int, i + 1, s@.len() as int);
            }
            return None;
        }
        acc = next as u64;
        i = i + 1;
    }
    Some(acc)
}

/// Parses a number literal into the scalar it denotes.
pub fn parse_number(s: &[u8]) -> (r: Result<StaticNode, Error>)
    ensures
        r == parse_result(s@),
{
    if !check_number(s) {
        return Err(Error::generic(ErrorType::Syntax));
    }
    let ghost g = s@;
    let neg = s[0] == 45u8;
    let sign: usize = if neg { 1 } else { 0 };
    let ie = scan_digits(s, sign);
    proof { lemma_digits_end_bounds(g, sign as int); }
    if ie == s.len() {
        assert(!has_frac(g) && !has_exp(g));
        assert(is_integer_literal(g));
        assert(sign_end(g) == sign as int);
        if neg {
            match magnitude(s, 1, 9223372036854775808u64) {
                Some(m) => {
                    let v: i64 = if m == 9223372036854775808u64 {
                        i64::MIN
                    } else {
                        -(m as i64)
                    };
                    Ok(StaticNode::I64(v))
                },
                None => Err(Error::generic(ErrorType::Syntax)),
            }
        } else {
            match magnitude(s, 0, u64::MAX) {
                Some(m) => Ok(StaticNode::U64(m)),
                None => Err(Error::generic(ErrorType::Syntax)),
            }
        }
    } else {
        assert(has_frac(g) || has_exp(g));
        match decimal_to_float_bits(s) {
            Some(b) => Ok(StaticNode::F64(b)),
            None => Err(Error::generic(ErrorType::Syntax)),
        }
    }
}

/// An integer literal within the signed 64-bit range parses to exactly the
/// integer it denotes.
pub proof fn lemma_integer_literal_value(s: Seq<u8>)
    requires
        is_integer_literal(s),
        i64::MIN <= literal_int(s) <= i64::MAX,
    ensures
        parse_spec(s) matches Some(n) && n.int_value() == Some(literal_int(s)),
{
    lemma_digits_end_bounds(s, sign_end(s));
    lemma_digits_value_nonneg(s, sign_end(s), s.len() as int);
}

/// Whether two byte slices hold the same bytes.
fn bytes_eq(a: &[u8], b: &[u8]) -> (r: bool)
    ensures
        r == (a@ == b@),
{
    if a.len() != b.len() {
        return false;
    }
    let mut i: usize = 0;
    while i < a.len()
        invariant
            a@.len() == b@.len(),
            i <= a@.len(),
            forall|k: int| 0 <= k < i ==> a@[k] == b@[k],
        decreases a@.len() - i,
    {
        if a[i] != b[i] {
            return false;
        }
        i = i + 1;
    }
    assert(a@ =~= b@);
    true
}

/// A fresh vector holding the bytes of `s`.
fn copy_bytes(s: &[u8]) -> (r: Vec<u8>)
    ensures
        r@ == s@,
{
    let mut r: Vec<u8> = Vec::with_capacity(s.len());
    let mut i: usize = 0;
    while i < s.len()
        invariant
            i <= s@.len(),
            r@ == s@.subrange(0, i as int),
        decreases s@.len() - i,
    {
        r.push(s[i]);
        i = i + 1;
    }
    assert(r@ =~= s@);
    r
}

/// Number equality: both literals parse and the scalars they denote are
/// equal; a literal that does not parse equals nothing.
pub open spec fn numbers_equal(a: Seq<u8>, b: Seq<u8>) -> bool {
    parse_spec(a) matches Some(x) && parse_spec(b) matches Some(y) && x.same_value(y)
}

/// Number equality on literal bytes, as `numbers_equal` states it.
fn parsed_eq(a: &[u8], b: &[u8]) -> (r: bool)
    ensures
        r == numbers_equal(a@, b@),
{
    match (parse_number(a), parse_number(b)) {
        (Ok(x), Ok(y)) => x.same(&y),
        _ => false,
    }
}

/// Where the literal bytes of a `BorrowedNumber` live.
#[derive(Debug, Clone)]
pub enum NumberBytes<'num> {
    Borrowed(&'num [u8]),
    Owned(Vec<u8>),
}

/// A number literal kept unparsed, borrowing its bytes from the input
/// or holding its own copy of them.
#[derive(Debug, Clone)]
pub struct BorrowedNumber<'num> {
    inner: NumberBytes<'num>,
}

impl<'num> View for BorrowedNumber<'num> {
    type V = Seq<u8>;

    closed spec fn view(&self) -> Seq<u8> {
        match self.inner {
            NumberBytes::Borrowed(b) => b@,
            NumberBytes::Owned(v) => v@,
        }
    }
}

impl<'num> BorrowedNumber<'num> {
    /// A number that borrows its literal bytes.
    pub fn from_slice(number: &'num [u8]) -> (r: BorrowedNumber<'num>)
        ensures
            r@ == number@,
            r.is_borrowed(),
    {
        BorrowedNumber { inner: NumberBytes::Borrowed(number) }
    }

    /// A number that owns its literal bytes.
    pub fn from_vec(number: Vec<u8>) -> (r: BorrowedNumber<'num>)
        ensures
            r@ == number@,
            !r.is_borrowed(),
    {
        BorrowedNumber { inner: NumberBytes::Owned(number) }
    }

    /// Whether the bytes are borrowed from the input.
    pub closed spec fn is_borrowed(&self) -> bool {
        self.inner is Borrowed
    }

    /// The literal bytes.
    pub fn as_bytes(&self) -> (r: &[u8])
        ensures
            r@ == self@,
    {
        match &self.inner {
            NumberBytes::Borrowed(b) => b,
            NumberBytes::Owned(v) => v.as_slice(),
        }
    }

    /// Interprets the literal; parsing again gives the same result.
    pub fn parse(&self) -> (r: Result<StaticNode, Error>)
        ensures
            r == parse_result(self@),
    {
        parse_number(self.as_bytes())
    }

    /// An owned copy that keeps the literal bytes as they are.
    pub fn to_owned_number(&self) -> (r: OwnedNumber)
        ensures
            r@ == self@,
    {
        OwnedNumber { inner: copy_bytes(self.as_bytes()) }
    }

    /// Equality with an owned number: both literals parse and their values
    /// agree; a literal that does not parse equals no number.
    pub fn eq_owned(&self, other: &OwnedNumber) -> (r: bool)
        ensures
            r == numbers_equal(self@, other@),
    {
        parsed_eq(self.as_bytes(), other.inner.as_slice())
    }

    /// Whether the literal bytes are the same, as hashing and interning use.
    pub fn same_bytes(&self, other: &OwnedNumber) -> (r: bool)
        ensures
            r == (self@ == other@),
    {
        bytes_eq(self.as_bytes(), other.inner.as_slice())
    }

    /// Equality with a scalar: the literal parses and the values agree; a
    /// literal that does not parse equals no scalar.
    pub fn eq_static(&self, other: &StaticNode) -> (r: bool)
        ensures
            r == (parse_spec(self@) matches Some(n) && n.same_value(*other)),
    {
        match self.parse() {
            Ok(n) => n.same(other),
            Err(_) => false,
        }
    }
}

impl<'num> From<&'num [u8]> for BorrowedNumber<'num> {
    fn from(number: &'num [u8]) -> (r: BorrowedNumber<'num>) {
        BorrowedNumber { inner: NumberBytes::Borrowed(number) }
    }
}

impl<'num> vstd::std_specs::convert::FromSpecImpl<&'num [u8]> for BorrowedNumber<'num> {
    open spec fn obeys_from_spec() -> bool {
        true
    }

    closed spec fn from_spec(number: &'num [u8]) -> BorrowedNumber<'num> {
        BorrowedNumber { inner: NumberBytes::Borrowed(number) }
    }
}

impl<'num> From<Vec<u8>> for BorrowedNumber<'num> {
    fn from(number: Vec<u8>) -> (r: BorrowedNumber<'num>) {
        BorrowedNumber { inner: NumberBytes::Owned(number) }
    }
}

impl<'num> vstd::std_specs::convert::FromSpecImpl<Vec<u8>> for BorrowedNumber<'num> {
    open spec fn obeys_from_spec() -> bool {
        true
    }

    closed spec fn from_spec(number: Vec<u8>) -> BorrowedNumber<'num> {
        BorrowedNumber { inner: NumberBytes::Owned(number) }
    }
}

impl<'num> PartialEq for BorrowedNumber<'num> {
    fn eq(&self, other: &BorrowedNumber<'num>) -> (r: bool) {
        parsed_eq(self.as_bytes(), other.as_bytes())
    }
}

impl<'num> vstd::std_specs::cmp::PartialEqSpecImpl for BorrowedNumber<'num> {
    open spec fn obeys_eq_spec() -> bool {
        false
    }

    open spec fn eq_spec(&self, other: &BorrowedNumber<'num>) -> bool {
        numbers_equal(self@, other@)
    }
}

/// A number literal kept unparsed, holding its own bytes.
#[derive(Debug, Clone)]
pub struct OwnedNumber {
    inner: Vec<u8>,
}

impl View for OwnedNumber {
    type V = Seq<u8>;

    closed spec fn view(&self) -> Seq<u8> {
        self.inner@
    }
}

impl OwnedNumber {
    /// A number holding a copy of the literal bytes.
    pub fn from_slice(number: &[u8]) -> (r: OwnedNumber)
        ensures
            r@ == number@,
    {
        OwnedNumber { inner: copy_bytes(number) }
    }

    /// A number holding the given literal bytes.
    pub fn from_vec(number: Vec<u8>) -> (r: OwnedNumber)
        ensures
            r@ == number@,
    {
        OwnedNumber { inner: number }
    }

    /// The literal bytes.
    pub fn as_bytes(&self) -> (r: &[u8])
        ensures
            r@ == self@,
    {
        self.inner.as_slice()
    }

    /// Interprets the literal; parsing again gives the same result.
    pub fn parse(&self) -> (r: Result<StaticNode, Error>)
        ensures
            r == parse_result(self@),
    {
        parse_number(self.inner.as_slice())
    }

    /// The same literal as a number that owns its bytes.
    pub fn into_borrowed_number<'num>(self) -> (r: BorrowedNumber<'num>)
        ensures
            r@ == self@,
            !r.is_borrowed(),
    {
        BorrowedNumber::from_vec(self.inner)
    }

    /// Equality with a borrowed number: both literals parse and their values
    /// agree; a literal that does not parse equals no number.
    pub fn eq_borrowed(&self, other: &BorrowedNumber) -> (r: bool)
        ensures
            r == numbers_equal(self@, other@),
    {
        parsed_eq(self.inner.as_slice(), other.as_bytes())
    }

    /// Whether the literal bytes are the same, as hashing and interning use.
    pub fn same_bytes(&self, other: &BorrowedNumber) -> (r: bool)
        ensures
            r == (self@ == other@),
    {
        bytes_eq(self.inner.as_slice(), other.as_bytes())
    }

    /// Equality with a scalar: the literal parses and the values agree; a
    /// literal that does not parse equals no scalar.
    pub fn eq_static(&self, other: &StaticNode) -> (r: bool)
        ensures
            r == (parse_spec(self@) matches Some(n) && n.same_value(*other)),
    {
        match self.parse() {
            Ok(n) => n.same(other),
            Err(_) => false,
        }
    }
}

impl From<Vec<u8>> for OwnedNumber {
    fn from(number: Vec<u8>) -> (r: OwnedNumber) {
        OwnedNumber { inner: number }
    }
}

impl vstd::std_specs::convert::FromSpecImpl<Vec<u8>> for OwnedNumber {
    open spec fn obeys_from_spec() -> bool {
        true
    }

    closed spec fn from_spec(number: Vec<u8>) -> OwnedNumber {
        OwnedNumber { inner: number }
    }
}

impl PartialEq for OwnedNumber {
    fn eq(&self, other: &OwnedNumber) -> (r: bool) {
        parsed_eq(self.inner.as_slice(), other.inner.as_slice())
    }
}

impl vstd::std_specs::cmp::PartialEqSpecImpl for OwnedNumber {
    open spec fn obeys_eq_spec() -> bool {
        false
    }

    open spec fn eq_spec(&self, other: &OwnedNumber) -> bool {
        numbers_equal(self@, other@)
    }
}

impl StaticNode {
    /// Equality with a borrowed number, as `BorrowedNumber::eq_static` says.
    pub fn eq_borrowed_number(&self, other: &BorrowedNumber) -> (r: bool)
        ensures
            r == (parse_spec(other@) matches Some(n) && self.same_value(n)),
    {
        match other.parse() {
            Ok(n) => self.same(&n),
            Err(_) => false,
        }
    }

    /// Equality with an owned number, as `OwnedNumber::eq_static` says.
    pub fn eq_owned_number(&self, other: &OwnedNumber) -> (r: bool)
        ensures
            r == (parse_spec(other@) matches Some(n) && self.same_value(n)),
    {
        match other.parse() {
            Ok(n) => self.same(&n),
            Err(_) => false,
        }
    }
}

/// A literal taken as a borrowed number and as an owned number compares
/// equal, whenever it parses (a literal such as `1e400` that the grammar
/// accepts but that overflows equals nothing).
pub proof fn lemma_borrowed_owned_agree(b: Seq<u8>, x: BorrowedNumber, y: OwnedNumber)
    requires
        is_number(b),
        parse_spec(b) is Some,
        x@ == b,
        y@ == b,
    ensures
        numbers_equal(x@, y@),
{
    lemma_same_value_reflexive(parse_spec(b)->Some_0);
}

/// Every scalar equals itself.
pub proof fn lemma_same_value_reflexive(n: StaticNode)
    ensures
        n.same_value(n),
{
}

} // verus!
