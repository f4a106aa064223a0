//! Runtime numbers. A number is the bit pattern of an IEEE 754 double,
//! carried as a `u64`. Equality, ordering, negation and the text form of
//! integral values are defined over the bits and verified; the four rounded
//! arithmetic operations, decimal-to-double conversion and the text form of
//! non-integral values are performed by an outside soft-float library behind
//! trusted wrappers.

use vstd::prelude::*;
use rustc_apfloat::Float;

verus! {

/// The exponent field of a double's bit pattern.
pub open spec fn num_exp(b: u64) -> u64 {
    (b >> 52) & 0x7ff
}

/// The fraction field of a double's bit pattern.
pub open spec fn num_frac(b: u64) -> u64 {
    b & 0xf_ffff_ffff_ffff
}

/// The sign bit of a double's bit pattern.
pub open spec fn num_sign(b: u64) -> bool {
    b & 0x8000_0000_0000_0000 != 0
}

/// The magnitude bits: everything but the sign.
pub open spec fn num_mag(b: u64) -> u64 {
    b & 0x7fff_ffff_ffff_ffff
}

/// Whether the bit pattern encodes a NaN.
pub open spec fn num_is_nan(b: u64) -> bool {
    num_exp(b) == 0x7ff && num_frac(b) != 0
}

/// IEEE equality over bit patterns: NaN equals nothing, positive and
/// negative zero are equal, and every other value equals only its own bit
/// pattern.
pub open spec fn num_eq_v(a: u64, b: u64) -> bool {
    &&& !num_is_nan(a)
    &&& !num_is_nan(b)
    &&& (a == b || (num_mag(a) == 0 && num_mag(b) == 0))
}

/// IEEE strict order over bit patterns: false whenever either side is NaN;
/// otherwise sign-and-magnitude order, with the two zeros equal.
pub open spec fn num_lt_v(a: u64, b: u64) -> bool {
    &&& !num_is_nan(a)
    &&& !num_is_nan(b)
    &&& if num_sign(a) && num_sign(b) {
        num_mag(b) < num_mag(a)
    } else if !num_sign(a) && !num_sign(b) {
        num_mag(a) < num_mag(b)
    } else if num_sign(a) && !num_sign(b) {
        !(num_mag(a) == 0 && num_mag(b) == 0)
    } else {
        false
    }
}

/// IEEE non-strict order: strictly below or equal (so false on NaN).
pub open spec fn num_le_v(a: u64, b: u64) -> bool {
    num_lt_v(a, b) || num_eq_v(a, b)
}

/// IEEE negation flips exactly the sign bit, on every value including
/// zeros and NaNs.
pub open spec fn num_neg_v(b: u64) -> u64 {
    b ^ 0x8000_0000_0000_0000
}

/// Whether both operands are numbers IEEE equality holds between.
pub fn num_eq(a: u64, b: u64) -> (r: bool)
    ensures
        r == num_eq_v(a, b),
{
    let a_nan = ((a >> 52) & 0x7ff) == 0x7ff && (a & 0xf_ffff_ffff_ffff) != 0;
    let b_nan = ((b >> 52) & 0x7ff) == 0x7ff && (b & 0xf_ffff_ffff_ffff) != 0;
    !a_nan && !b_nan && (a == b || ((a & 0x7fff_ffff_ffff_ffff) == 0 && (b
        & 0x7fff_ffff_ffff_ffff) == 0))
}

/// Whether the first operand is strictly below the second in IEEE order.
pub fn num_lt(a: u64, b: u64) -> (r: bool)
    ensures
        r == num_lt_v(a, b),
{
    let a_nan = ((a >> 52) & 0x7ff) == 0x7ff && (a & 0xf_ffff_ffff_ffff) != 0;
    let b_nan = ((b >> 52) & 0x7ff) == 0x7ff && (b & 0xf_ffff_ffff_ffff) != 0;
    if a_nan || b_nan {
        return false;
    }
    let sa = a & 0x8000_0000_0000_0000 != 0;
    let sb = b & 0x8000_0000_0000_0000 != 0;
    let ma = a & 0x7fff_ffff_ffff_ffff;
    let mb = b & 0x7fff_ffff_ffff_ffff;
    if sa && sb {
        mb < ma
    } else if !sa && !sb {
        ma < mb
    } else if sa && !sb {
        !(ma == 0 && mb == 0)
    } else {
        false
    }
}

/// Whether the first operand is below or IEEE-equal to the second.
pub fn num_le(a: u64, b: u64) -> (r: bool)
    ensures
        r == num_le_v(a, b),
{
    num_lt(a, b) || num_eq(a, b)
}

/// The negated bit pattern.
pub fn num_neg(b: u64) -> (r: u64)
    ensures
        r == num_neg_v(b),
{
    b ^ 0x8000_0000_0000_0000
}

/// The bit pattern of the correctly rounded IEEE sum of two doubles.
pub uninterp spec fn add_bits(a: u64, b: u64) -> u64;

/// The bit pattern of the correctly rounded IEEE difference of two doubles.
pub uninterp spec fn sub_bits(a: u64, b: u64) -> u64;

/// The bit pattern of the correctly rounded IEEE product of two doubles.
pub uninterp spec fn mul_bits(a: u64, b: u64) -> u64;

/// The bit pattern of the correctly rounded IEEE quotient of two doubles.
pub uninterp spec fn div_bits(a: u64, b: u64) -> u64;

/// Relies on rustc_apfloat::ieee::Double's addition: round-to-nearest-even
/// IEEE double addition, a function of the two bit patterns alone.
#[verifier::external_body]
pub(crate) fn num_add(a: u64, b: u64) -> (r: u64)
    ensures
        r == add_bits(a, b),
{
    let x = rustc_apfloat::ieee::Double::from_bits(a as u128);
    let y = rustc_apfloat::ieee::Double::from_bits(b as u128);
    (x + y).value.to_bits() as u64
}

/// Relies on rustc_apfloat::ieee::Double's subtraction: round-to-nearest-even
/// IEEE double subtraction, a function of the two bit patterns alone.
#[verifier::external_body]
pub(crate) fn num_sub(a: u64, b: u64) -> (r: u64)
    ensures
        r == sub_bits(a, b),
{
    let x = rustc_apfloat::ieee::Double::from_bits(a as u128);
    let y = rustc_apfloat::ieee::Double::from_bits(b as u128);
    (x - y).value.to_bits() as u64
}

/// Relies on rustc_apfloat::ieee::Double's multiplication:
/// round-to-nearest-even IEEE double multiplication, a function of the two
/// bit patterns alone.
#[verifier::external_body]
pub(crate) fn num_mul(a: u64, b: u64) -> (r: u64)
    ensures
        r == mul_bits(a, b),
{
    let x = rustc_apfloat::ieee::Double::from_bits(a as u128);
    let y = rustc_apfloat::ieee::Double::from_bits(b as u128);
    (x * y).value.to_bits() as u64
}

/// Relies on rustc_apfloat::ieee::Double's division: round-to-nearest-even
/// IEEE double division, a function of the two bit patterns alone. Division
/// by zero yields an infinity or NaN bit pattern, never a panic.
#[verifier::external_body]
pub(crate) fn num_div(a: u64, b: u64) -> (r: u64)
    ensures
        r == div_bits(a, b),
{
    let x = rustc_apfloat::ieee::Double::from_bits(a as u128);
    let y = rustc_apfloat::ieee::Double::from_bits(b as u128);
    (x / y).value.to_bits() as u64
}

/// Whether a byte sequence is a numeral the lexer can produce: one or more
/// ASCII digits, optionally followed by a dot and one or more digits.
pub open spec fn is_digit_byte(b: u8) -> bool {
    48 <= b <= 57
}

/// Whether a byte sequence is a run of one or more ASCII digits.
pub open spec fn all_digit_bytes(s: Seq<u8>) -> bool {
    forall|i: int| 0 <= i < s.len() ==> is_digit_byte(#[trigger] s[i])
}

/// A numeral as the lexer produces it: digits, or digits dot digits.
pub open spec fn is_numeral(s: Seq<u8>) -> bool {
    ||| (s.len() > 0 && all_digit_bytes(s))
    ||| (exists|k: int|
        1 <= k < s.len() - 1 && s[k] == 46 && all_digit_bytes(s.subrange(0, k))
            && all_digit_bytes(s.subrange(k + 1, s.len() as int)))
}

/// The bit pattern of the double a decimal numeral converts to, rounded to
/// nearest-even.
pub uninterp spec fn dec_bits_of(text: Seq<u8>) -> u64;

/// Relies on rustc_apfloat::ieee::Double::from_str: correctly rounded
/// decimal-to-double conversion, a function of the numeral text alone. The
/// precondition keeps the input to plain digit-and-dot numerals, which that
/// parser always accepts.
#[verifier::external_body]
pub(crate) fn num_from_decimal(text: &Vec<u8>) -> (r: u64)
    requires
        is_numeral(text@),
    ensures
        r == dec_bits_of(text@),
{
    match core::str::from_utf8(text) {
        Ok(s) => match s.parse::<rustc_apfloat::ieee::Double>() {
            Ok(d) => d.to_bits() as u64,
            Err(_) => 0,
        },
        Err(_) => 0,
    }
}

/// The text an outside formatter renders a non-integral double's bits to.
pub uninterp spec fn float_text_of(b: u64) -> Seq<char>;

/// Relies on rustc_apfloat::ieee::Double's Display: a decimal rendering with
/// enough digits to round-trip, a function of the bit pattern alone.
#[verifier::external_body]
fn num_text_fallback(b: u64) -> (r: String)
    ensures
        r@ == float_text_of(b),
{
    let d = rustc_apfloat::ieee::Double::from_bits(b as u128);
    format!("{}", d)
}

/// The decimal digit character for a value below ten.
pub open spec fn digit_char(d: int) -> char {
    if d == 0 {
        '0'
    } else if d == 1 {
        '1'
    } else if d == 2 {
        '2'
    } else if d == 3 {
        '3'
    } else if d == 4 {
        '4'
    } else if d == 5 {
        '5'
    } else if d == 6 {
        '6'
    } else if d == 7 {
        '7'
    } else if d == 8 {
        '8'
    } else {
        '9'
    }
}

/// The decimal digit string of a natural number, most significant first.
pub open spec fn dec_digits(n: nat) -> Seq<char>
    decreases n,
{
    if n < 10 {
        seq![digit_char(n as int)]
    } else {
        dec_digits(n / 10).push(digit_char((n % 10) as int))
    }
}

/// The one-character string for a decimal digit.
fn digit_str(d: u64) -> (r: &'static str)
    requires
        d < 10,
    ensures
        r@ =~= seq![digit_char(d as int)],
{
    if d == 0 {
        proof {
            reveal_strlit("0");
        }
        "0"
    } else if d == 1 {
        proof {
            reveal_strlit("1");
        }
        "1"
    } else if d == 2 {
        proof {
            reveal_strlit("2");
        }
        "2"
    } else if d == 3 {
        proof {
            reveal_strlit("3");
        }
        "3"
    } else if d == 4 {
        proof {
            reveal_strlit("4");
        }
        "4"
    } else if d == 5 {
        proof {
            reveal_strlit("5");
        }
        "5"
    } else if d == 6 {
        proof {
            reveal_strlit("6");
        }
        "6"
    } else if d == 7 {
        proof {
            reveal_strlit("7");
        }
        "7"
    } else if d == 8 {
        proof {
            reveal_strlit("8");
        }
        "8"
    } else {
        proof {
            reveal_strlit("9");
        }
        "9"
    }
}

/// The decimal text of a 64-bit natural number.
pub fn format_u64(n: u64) -> (r: String)
    ensures
        r@ == dec_digits(n as nat),
{
    let mut acc = String::new();
    let mut m: u64 = n;
    while m >= 10
        invariant
            dec_digits(n as nat) =~= dec_digits(m as nat) + acc@,
        decreases m,
    {
        let d = digit_str(m % 10);
        let rest = String::from_str(d).concat(acc.as_str());
        proof {
            assert(dec_digits(m as nat) =~= dec_digits((m as nat) / 10) + seq![
                digit_char((m % 10) as int),
            ]);
        }
        acc = rest;
        m = m / 10;
    }
    let r = String::from_str(digit_str(m)).concat(acc.as_str());
    proof {
        assert(r@ =~= dec_digits(n as nat));
    }
    r
}

/// The sign-aware decimal text of an integral value.
pub open spec fn int_text(sign: bool, v: nat) -> Seq<char> {
    if sign {
        seq!['-'] + dec_digits(v)
    } else {
        dec_digits(v)
    }
}

/// Whether the bits encode an integral value small enough for exact
/// integer rendering: zero, or an unbiased exponent within the 64-bit range
/// whose fraction keeps no set bit below the binary point.
pub open spec fn num_int_reachable(b: u64) -> bool {
    ||| num_mag(b) == 0
    ||| (1023 <= num_exp(b) <= 1086 && (num_exp(b) >= 1075 || num_frac(b) & (((1u64 << (
        (1075 - num_exp(b)) as u64)) - 1) as u64) == 0))
}

/// The integral value such bits encode.
pub open spec fn num_int_val(b: u64) -> u64 {
    if num_mag(b) == 0 {
        0
    } else {
        let m = (0x10_0000_0000_0000u64 | num_frac(b)) as u64;
        if num_exp(b) >= 1075 {
            m << ((num_exp(b) - 1075) as u64)
        } else {
            m >> ((1075 - num_exp(b)) as u64)
        }
    }
}

/// The text form of a double's bits: "NaN" and infinities spelled out,
/// integral values in range rendered as exact decimal digits, anything else
/// rendered by the outside formatter.
pub open spec fn text_of_num(b: u64) -> Seq<char> {
    if num_exp(b) == 0x7ff {
        if num_frac(b) != 0 {
            seq!['N', 'a', 'N']
        } else if num_sign(b) {
            seq!['-', 'i', 'n', 'f']
        } else {
            seq!['i', 'n', 'f']
        }
    } else if num_int_reachable(b) {
        int_text(num_sign(b), num_int_val(b) as nat)
    } else {
        float_text_of(b)
    }
}

/// Whether the bits encode an integral value in exact rendering range,
/// given the already extracted fields.
fn num_small_integral(b: u64, exp: u64, frac: u64, mag: u64) -> (r: bool)
    requires
        exp == num_exp(b),
        frac == num_frac(b),
        mag == num_mag(b),
    ensures
        r == num_int_reachable(b),
{
    if mag == 0 {
        true
    } else if 1023 <= exp && exp <= 1086 {
        if exp >= 1075 {
            true
        } else {
            let sh = 1075 - exp;
            proof {
                assert((1u64 << sh) >= 1) by (bit_vector)
                    requires
                        sh <= 52,
                ;
            }
            frac & ((1u64 << sh) - 1) == 0
        }
    } else {
        false
    }
}

/// The text form of a number value, as the print statement emits it.
pub fn number_text(b: u64) -> (r: String)
    ensures
        r@ == text_of_num(b),
{
    let exp = (b >> 52) & 0x7ff;
    let frac = b & 0xf_ffff_ffff_ffff;
    let sign = b & 0x8000_0000_0000_0000 != 0;
    let mag = b & 0x7fff_ffff_ffff_ffff;
    if exp == 0x7ff {
        if frac != 0 {
            let r = String::from_str("NaN");
            proof {
                reveal_strlit("NaN");
                assert(r@ =~= text_of_num(b));
            }
            r
        } else if sign {
            let r = String::from_str("-inf");
            proof {
                reveal_strlit("-inf");
                assert(r@ =~= text_of_num(b));
            }
            r
        } else {
            let r = String::from_str("inf");
            proof {
                reveal_strlit("inf");
                assert(r@ =~= text_of_num(b));
            }
            r
        }
    } else if num_small_integral(b, exp, frac, mag) {
        let v: u64 = if mag == 0 {
            0
        } else {
            let m = 0x10_0000_0000_0000u64 | frac;
            if exp >= 1075 {
                m << (exp - 1075)
            } else {
                m >> (1075 - exp)
            }
        };
        let digits = format_u64(v);
        if sign {
            let r = String::from_str("-").concat(digits.as_str());
            proof {
                reveal_strlit("-");
                assert(r@ =~= int_text(true, num_int_val(b) as nat));
            }
            r
        } else {
            digits
        }
    } else {
        num_text_fallback(b)
    }
}

} // verus!
