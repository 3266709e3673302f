//! Runtime numbers are IEEE binary32 values, held as their raw bit
//! patterns. Comparisons and negation are implemented here directly on
//! the bits; rounding arithmetic, decimal conversion and decimal
//! rendering go through `rustc_apfloat`'s software implementation of
//! the same format.

use vstd::prelude::*;

verus! {

/// The sign bit of a binary32 bit pattern.
pub open spec fn sign_of(b: u32) -> bool {
    b & 0x8000_0000 != 0
}

/// The magnitude (exponent and fraction) of a binary32 bit pattern.
pub open spec fn magnitude_of(b: u32) -> u32 {
    b & 0x7fff_ffff
}

/// A binary32 bit pattern encodes a NaN when its exponent field is all
/// ones and its fraction is non-zero, i.e. its magnitude exceeds that
/// of infinity.
pub open spec fn is_nan_bits(b: u32) -> bool {
    magnitude_of(b) > 0x7f80_0000
}

/// Order key of a non-NaN binary32 bit pattern: the two encodings of
/// zero share the key 0, and the ordering of the encoded values is the
/// ordering of these signed magnitudes.
pub open spec fn key_of(b: u32) -> int {
    if sign_of(b) {
        -(magnitude_of(b) as int)
    } else {
        magnitude_of(b) as int
    }
}

/// IEEE equality of two binary32 bit patterns: false when either is a
/// NaN; both zeroes are equal; otherwise the values are equal exactly
/// when the bit patterns are.
pub open spec fn num_eq_bits(a: u32, b: u32) -> bool {
    !is_nan_bits(a) && !is_nan_bits(b) && key_of(a) == key_of(b)
}

/// IEEE `<` on two binary32 bit patterns: false when either is a NaN.
pub open spec fn num_lt_bits(a: u32, b: u32) -> bool {
    !is_nan_bits(a) && !is_nan_bits(b) && key_of(a) < key_of(b)
}

/// IEEE `<=` on two binary32 bit patterns: false when either is a NaN.
pub open spec fn num_le_bits(a: u32, b: u32) -> bool {
    !is_nan_bits(a) && !is_nan_bits(b) && key_of(a) <= key_of(b)
}

/// The bit pattern of the negated value: the sign bit flipped.
pub open spec fn neg_bits(b: u32) -> u32 {
    b ^ 0x8000_0000
}

/// Whether the bit pattern encodes a NaN.
pub fn num_is_nan(b: u32) -> (r: bool)
    ensures
        r == is_nan_bits(b),
{
    (b & 0x7fff_ffff) > 0x7f80_0000
}

/// IEEE equality on bit patterns.
pub fn num_eq(a: u32, b: u32) -> (r: bool)
    ensures
        r == num_eq_bits(a, b),
{
    if num_is_nan(a) || num_is_nan(b) {
        return false;
    }
    let ma = a & 0x7fff_ffff;
    let mb = b & 0x7fff_ffff;
    let sa = (a & 0x8000_0000) != 0;
    let sb = (b & 0x8000_0000) != 0;
    if sa == sb {
        ma == mb
    } else {
        ma == 0 && mb == 0
    }
}

/// IEEE `<` on bit patterns.
pub fn num_lt(a: u32, b: u32) -> (r: bool)
    ensures
        r == num_lt_bits(a, b),
{
    if num_is_nan(a) || num_is_nan(b) {
        return false;
    }
    let ma = a & 0x7fff_ffff;
    let mb = b & 0x7fff_ffff;
    let sa = (a & 0x8000_0000) != 0;
    let sb = (b & 0x8000_0000) != 0;
    if !sa && !sb {
        ma < mb
    } else if sa && sb {
        mb < ma
    } else if sa {
        // negative < non-negative, unless both encode zero
        !(ma == 0 && mb == 0)
    } else {
        false
    }
}

/// IEEE `<=` on bit patterns.
pub fn num_le(a: u32, b: u32) -> (r: bool)
    ensures
        r == num_le_bits(a, b),
{
    if num_is_nan(a) || num_is_nan(b) {
        return false;
    }
    let lt = num_lt(a, b);
    let eq = num_eq(a, b);
    lt || eq
}

/// Negation on bit patterns: flips the sign bit.
pub fn num_neg(b: u32) -> (r: u32)
    ensures
        r == neg_bits(b),
{
    b ^ 0x8000_0000
}

/// The binary32 sum of the two encoded values, rounded to nearest-even.
pub uninterp spec fn add_bits(a: u32, b: u32) -> u32;

/// The binary32 difference of the two encoded values, rounded to nearest-even.
pub uninterp spec fn sub_bits(a: u32, b: u32) -> u32;

/// The binary32 product of the two encoded values, rounded to nearest-even.
pub uninterp spec fn mul_bits(a: u32, b: u32) -> u32;

/// The binary32 quotient of the two encoded values, rounded to
/// nearest-even; a zero divisor yields an infinity or NaN encoding, per
/// the format, never an error.
pub uninterp spec fn div_bits(a: u32, b: u32) -> u32;

/// The binary32 value of a decimal numeral, rounded to nearest-even.
pub uninterp spec fn decimal_bits(s: Seq<char>) -> u32;

/// The decimal rendering of the encoded value.
pub uninterp spec fn render_bits(b: u32) -> Seq<char>;

/// Relies on rustc_apfloat's `Single` (IEEE binary32) addition: a
/// deterministic, correctly rounded function of the operand bits alone.
#[verifier::external_body]
pub fn num_add(a: u32, b: u32) -> (r: u32)
    ensures
        r == add_bits(a, b),
{
    let x = <rustc_apfloat::ieee::Single as rustc_apfloat::Float>::from_bits(a as u128);
    let y = <rustc_apfloat::ieee::Single as rustc_apfloat::Float>::from_bits(b as u128);
    rustc_apfloat::Float::to_bits((x + y).value) as u32
}

/// Relies on rustc_apfloat's `Single` (IEEE binary32) subtraction: a
/// deterministic, correctly rounded function of the operand bits alone.
#[verifier::external_body]
pub fn num_sub(a: u32, b: u32) -> (r: u32)
    ensures
        r == sub_bits(a, b),
{
    let x = <rustc_apfloat::ieee::Single as rustc_apfloat::Float>::from_bits(a as u128);
    let y = <rustc_apfloat::ieee::Single as rustc_apfloat::Float>::from_bits(b as u128);
    rustc_apfloat::Float::to_bits((x - y).value) as u32
}

/// Relies on rustc_apfloat's `Single` (IEEE binary32) multiplication: a
/// deterministic, correctly rounded function of the operand bits alone.
#[verifier::external_body]
pub fn num_mul(a: u32, b: u32) -> (r: u32)
    ensures
        r == mul_bits(a, b),
{
    let x = <rustc_apfloat::ieee::Single as rustc_apfloat::Float>::from_bits(a as u128);
    let y = <rustc_apfloat::ieee::Single as rustc_apfloat::Float>::from_bits(b as u128);
    rustc_apfloat::Float::to_bits((x * y).value) as u32
}

/// Relies on rustc_apfloat's `Single` (IEEE binary32) division: a
/// deterministic, correctly rounded function of the operand bits alone;
/// division by zero returns an infinity or NaN encoding rather than
/// failing.
#[verifier::external_body]
pub fn num_div(a: u32, b: u32) -> (r: u32)
    ensures
        r == div_bits(a, b),
{
    let x = <rustc_apfloat::ieee::Single as rustc_apfloat::Float>::from_bits(a as u128);
    let y = <rustc_apfloat::ieee::Single as rustc_apfloat::Float>::from_bits(b as u128);
    rustc_apfloat::Float::to_bits((x / y).value) as u32
}

/// How many dots a character sequence contains.
pub open spec fn dot_count(s: Seq<char>) -> nat
    decreases s.len(),
{
    if s.len() == 0 {
        0
    } else {
        dot_count(s.drop_last()) + if s.last() == '.' {
            1nat
        } else {
            0nat
        }
    }
}

/// Whether a character sequence is a numeral the scanner may hand to
/// the decimal converter: nothing but digits and dots, starting with a
/// digit, with at most one dot.
pub open spec fn numeral_valid(s: Seq<char>) -> bool {
    &&& s.len() > 0
    &&& crate::strutil::is_digit_char(s[0])
    &&& forall|i: int| 0 <= i < s.len() ==> crate::strutil::is_numeral_char(#[trigger] s[i])
    &&& dot_count(s) <= 1
}

/// Decides [`numeral_valid`] for a scanned word.
pub fn numeral_check(w: &Vec<char>) -> (r: bool)
    ensures
        r == numeral_valid(w@),
{
    if w.len() == 0 {
        return false;
    }
    let c0 = w[0];
    if !('0' <= c0 && c0 <= '9') {
        return false;
    }
    let mut i: usize = 0;
    let mut dots: u64 = 0;
    while i < w.len()
        invariant
            0 <= i <= w@.len(),
            dots == dot_count(w@.take(i as int)),
            dots <= i,
            forall|j: int| 0 <= j < i ==> crate::strutil::is_numeral_char(#[trigger] w@[j]),
        decreases w@.len() - i,
    {
        let c = w[i];
        if !(('0' <= c && c <= '9') || c == '.') {
            return false;
        }
        proof {
            assert(w@.take(i + 1).drop_last() =~= w@.take(i as int));
            assert(w@.take(i + 1).last() == w@[i as int]);
        }
        if c == '.' {
            dots = dots + 1;
        }
        i = i + 1;
    }
    proof {
        assert(w@.take(w@.len() as int) =~= w@);
    }
    dots <= 1
}

/// Relies on rustc_apfloat's `Single::from_str`: correctly rounded
/// decimal-to-binary32 conversion, a deterministic function of the text
/// alone. It accepts every numeral of digits with at most one dot, so
/// the unwrap cannot fail on the admitted inputs; a numeral too large
/// for the format converts to the infinity encoding.
#[verifier::external_body]
pub fn num_from_decimal(w: &Vec<char>) -> (r: u32)
    requires
        numeral_valid(w@),
    ensures
        r == decimal_bits(w@),
{
    let s: String = w.iter().collect();
    let v: rustc_apfloat::ieee::Single = s.parse().unwrap();
    rustc_apfloat::Float::to_bits(v) as u32
}

/// Relies on rustc_apfloat's decimal rendering of `Single`: a
/// deterministic function of the bits alone that prints the value
/// exactly or with enough digits to read the same value back; integral
/// values print with no fraction part, infinities as `+Inf`/`-Inf`, and
/// NaN encodings as `NaN`.
#[verifier::external_body]
pub fn num_render(b: u32) -> (r: String)
    ensures
        r@ == render_bits(b),
{
    let v = <rustc_apfloat::ieee::Single as rustc_apfloat::Float>::from_bits(b as u128);
    format!("{}", v)
}

} // verus!
