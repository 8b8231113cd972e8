use vstd::prelude::*;

verus! {

/// An ASCII decimal digit.
pub open spec fn is_digit(c: u8) -> bool {
    48 <= c <= 57
}

/// The first index at or after `i` that holds no digit.
pub open spec fn digits_end(s: Seq<u8>, i: int) -> int
    decreases s.len() - i,
{
    if 0 <= i < s.len() && is_digit(s[i]) {
        digits_end(s, i + 1)
    } else {
        i
    }
}

/// Length of the optional leading minus sign.
pub open spec fn sign_end(s: Seq<u8>) -> int {
    if s.len() > 0 && s[0] == 45u8 {
        1
    } else {
        0
    }
}

/// End of the integer part.
pub open spec fn int_end(s: Seq<u8>) -> int {
    digits_end(s, sign_end(s))
}

/// Whether a fraction (`.` and digits) follows the integer part.
pub open spec fn has_frac(s: Seq<u8>) -> bool {
    int_end(s) < s.len() && s[int_end(s)] == 46u8
}

/// End of the fraction, or of the integer part when there is none.
pub open spec fn frac_end(s: Seq<u8>) -> int {
    if has_frac(s) {
        digits_end(s, int_end(s) + 1)
    } else {
        int_end(s)
    }
}

/// Whether an exponent (`e` or `E`) follows.
pub open spec fn has_exp(s: Seq<u8>) -> bool {
    frac_end(s) < s.len() && (s[frac_end(s)] == 101u8 || s[frac_end(s)] == 69u8)
}

/// Where the exponent's digits start, after its optional sign.
pub open spec fn exp_digits_start(s: Seq<u8>) -> int {
    let k = frac_end(s) + 1;
    if k < s.len() && (s[k] == 43u8 || s[k] == 45u8) {
        k + 1
    } else {
        k
    }
}

/// End of the exponent, or of what precedes it when there is none.
pub open spec fn exp_end(s: Seq<u8>) -> int {
    if has_exp(s) {
        digits_end(s, exp_digits_start(s))
    } else {
        frac_end(s)
    }
}

/// `-`? digits (`.` digits)? ((`e`|`E`) (`+`|`-`)? digits)?, and nothing else.
pub open spec fn is_number(s: Seq<u8>) -> bool {
    &&& int_end(s) > sign_end(s)
    &&& has_frac(s) ==> frac_end(s) > int_end(s) + 1
    &&& has_exp(s) ==> exp_end(s) > exp_digits_start(s)
    &&& exp_end(s) == s.len()
}

/// A number literal with neither fraction nor exponent.
pub open spec fn is_integer_literal(s: Seq<u8>) -> bool {
    is_number(s) && !has_frac(s) && !has_exp(s)
}

/// The decimal value of the digits in `s[lo..hi]`.
pub open spec fn digits_value(s: Seq<u8>, lo: int, hi: int) -> int
    decreases hi - lo,
{
    if hi <= lo {
        0
    } else {
        10 * digits_value(s, lo, hi - 1) + (s[hi - 1] as int - 48)
    }
}

/// The integer that an integer literal denotes.
pub open spec fn literal_int(s: Seq<u8>) -> int {
    let m = digits_value(s, sign_end(s), s.len() as int);
    if sign_end(s) == 1 {
        -m
    } else {
        m
    }
}

pub proof fn lemma_digits_end_bounds(s: Seq<u8>, i: int)
    requires
        0 <= i <= s.len(),
    ensures
        i <= digits_end(s, i) <= s.len(),
        forall|k: int| i <= k < digits_end(s, i) ==> is_digit(#[trigger] s[k]),
        digits_end(s, i) < s.len() ==> !is_digit(s[digits_end(s, i)]),
    decreases s.len() - i,
{
    if i < s.len() && is_digit(s[i]) {
        lemma_digits_end_bounds(s, i + 1);
    }
}

/// A longer run of digits never has a smaller value.
pub proof fn lemma_digits_value_mono(s: Seq<u8>, lo: int, i: int, j: int)
    requires
        0 <= lo <= i <= j <= s.len(),
        forall|k: int| lo <= k < j ==> is_digit(#[trigger] s[k]),
    ensures
        0 <= digits_value(s, lo, i) <= digits_value(s, lo, j),
    decreases j - i,
{
    if i < j {
        lemma_digits_value_mono(s, lo, i, j - 1);
        assert(is_digit(s[j - 1]));
    } else {
        lemma_digits_value_nonneg(s, lo, i);
    }
}

pub proof fn lemma_digits_value_nonneg(s: Seq<u8>, lo: int, i: int)
    requires
        0 <= lo <= i <= s.len(),
        forall|k: int| lo <= k < i ==> is_digit(#[trigger] s[k]),
    ensures
        0 <= digits_value(s, lo, i),
    decreases i - lo,
{
    if lo < i {
        lemma_digits_value_nonneg(s, lo, i - 1);
        assert(is_digit(s[i - 1]));
    }
}

/// Index of the first non-digit at or after `i`.
pub fn scan_digits(s: &[u8], i: usize) -> (r: usize)
    requires
        i <= s@.len(),
    ensures
        r == digits_end(s@, i as int),
{
    let mut k: usize = i;
    while k < s.len() && 48 <= s[k] && s[k] <= 57
        invariant
            i <= k <= s@.len(),
            digits_end(s@, k as int) == digits_end(s@, i as int),
        decreases s@.len() - k,
    {
        k = k + 1;
    }
    k
}

/// Whether `s` is a number literal.
pub fn check_number(s: &[u8]) -> (r: bool)
    ensures
        r == is_number(s@),
{
    let ghost g = s@;
    let sign: usize = if s.len() > 0 && s[0] == 45u8 { 1 } else { 0 };
    let ie = scan_digits(s, sign);
    proof { lemma_digits_end_bounds(g, sign as int); }
    if ie <= sign {
        return false;
    }
    let mut fe: usize = ie;
    if ie < s.len() && s[ie] == 46u8 {
        fe = scan_digits(s, ie + 1);
        proof { lemma_digits_end_bounds(g, ie + 1); }
        if fe <= ie + 1 {
            return false;
        }
    }
    assert(fe == frac_end(g));
    let mut ee: usize = fe;
    if fe < s.len() && (s[fe] == 101u8 || s[fe] == 69u8) {
        let mut k: usize = fe + 1;
        if k < s.len() && (s[k] == 43u8 || s[k] == 45u8) {
            k = k + 1;
        }
        ee = scan_digits(s, k);
        proof { lemma_digits_end_bounds(g, k as int); }
        if ee <= k {
            return false;
        }
    }
    ee == s.len()
}

} // verus!
