//! Exact signed decimal numbers.
//!
//! A [`Dec`] carries an integer count of units together with a power-of-ten
//! scale, so a premium rate such as `-5.25` is held exactly as
//! `units = -525, scale = 2` — no binary floating-point approximation.
//! The bounds mirror what a 96-bit decimal backend can represent; parsing and
//! ordering are delegated to `rust_decimal` through the two trusted wrappers
//! at the bottom of this file.

use vstd::prelude::*;

verus! {

/// Largest unit count a [`Dec`] may carry: one less than two to the 96th.
pub const MAX_DEC_UNITS: i128 = 79228162514264337593543950335;

/// Largest scale (number of fractional digits) a [`Dec`] may carry.
pub const MAX_DEC_SCALE: u32 = 28;

/// An exact decimal number with value `units / 10^scale`.
#[derive(Clone, Copy, Debug, PartialEq, Eq, Structural)]
pub struct Dec {
    pub units: i128,
    pub scale: u32,
}

impl Dec {
    /// Within the range the decimal backend supports.
    pub open spec fn wf(self) -> bool {
        &&& -MAX_DEC_UNITS <= self.units <= MAX_DEC_UNITS
        &&& self.scale <= MAX_DEC_SCALE
    }

    pub fn new(units: i128, scale: u32) -> (r: Dec)
        requires
            -MAX_DEC_UNITS <= units <= MAX_DEC_UNITS,
            scale <= MAX_DEC_SCALE,
        ensures
            r == (Dec { units, scale }),
            r.wf(),
    {
        Dec { units, scale }
    }

    /// Strict numeric `self > other`, decided by the decimal backend.
    pub fn exceeds(&self, other: &Dec) -> (r: bool)
        requires
            self.wf(),
            other.wf(),
        ensures
            r == dec_gt(*self, *other),
    {
        dec_gt_impl(self, other)
    }
}

pub open spec fn pow10(n: nat) -> int
    decreases n,
{
    if n == 0 {
        1
    } else {
        10 * pow10((n - 1) as nat)
    }
}

/// Numeric order on [`Dec`]: `a > b` as rationals, cleared of denominators.
pub open spec fn dec_gt(a: Dec, b: Dec) -> bool {
    a.units * pow10(b.scale as nat) > b.units * pow10(a.scale as nat)
}

/// Numeric equality on [`Dec`]; values of different scales can be equal.
pub open spec fn dec_eq(a: Dec, b: Dec) -> bool {
    a.units * pow10(b.scale as nat) == b.units * pow10(a.scale as nat)
}

pub proof fn lemma_pow10_pos(n: nat)
    ensures
        pow10(n) >= 1,
    decreases n,
{
    if n > 0 {
        lemma_pow10_pos((n - 1) as nat);
    }
}

/// Numeric order is irreflexive over numeric equality: equal values never
/// compare strictly greater.
pub proof fn lemma_dec_eq_not_gt(a: Dec, b: Dec)
    requires
        dec_eq(a, b),
    ensures
        !dec_gt(a, b),
        !dec_gt(b, a),
{
}

// ---------------------------------------------------------------------------
// The decimal-literal grammar that the backend is relied on to parse exactly:
// an optional sign, digits, and at most one decimal point, with at least one
// digit overall, within the 96-bit / 28-place range above.
// ---------------------------------------------------------------------------
pub open spec fn is_digit(c: char) -> bool {
    '0' <= c && c <= '9'
}

pub open spec fn digit_val(c: char) -> int {
    c as int - '0' as int
}

pub open spec fn all_digits(s: Seq<char>) -> bool {
    forall|i: int| 0 <= i < s.len() ==> is_digit(#[trigger] s[i])
}

/// Value of a digit string read in base ten.
pub open spec fn digits_val(s: Seq<char>) -> int
    decreases s.len(),
{
    if s.len() == 0 {
        0
    } else {
        digits_val(s.drop_last()) * 10 + digit_val(s.last())
    }
}

/// Index of the first `'.'` in `s`, or `s.len()` if there is none.
pub open spec fn first_dot(s: Seq<char>) -> int
    decreases s.len(),
{
    if s.len() == 0 {
        0
    } else if s[0] == '.' {
        0
    } else {
        1 + first_dot(s.drop_first())
    }
}

/// The digits before the first dot.
pub open spec fn int_part(s: Seq<char>) -> Seq<char> {
    s.take(first_dot(s))
}

/// The digits after the first dot; empty when there is no dot.
pub open spec fn frac_part(s: Seq<char>) -> Seq<char> {
    if first_dot(s) == s.len() {
        Seq::empty()
    } else {
        s.skip(first_dot(s) + 1)
    }
}

/// An unsigned decimal literal: digits around at most one point, at least one
/// digit in all.
pub open spec fn is_dec_body(s: Seq<char>) -> bool {
    &&& all_digits(int_part(s))
    &&& all_digits(frac_part(s))
    &&& int_part(s).len() + frac_part(s).len() >= 1
}

pub open spec fn dec_body_units(s: Seq<char>) -> int {
    digits_val(int_part(s)) * pow10(frac_part(s).len()) + digits_val(frac_part(s))
}

pub open spec fn dec_body_scale(s: Seq<char>) -> nat {
    frac_part(s).len()
}

pub open spec fn has_sign(s: Seq<char>) -> bool {
    s.len() > 0 && (s[0] == '-' || s[0] == '+')
}

pub open spec fn is_negative_lit(s: Seq<char>) -> bool {
    s.len() > 0 && s[0] == '-'
}

pub open spec fn lit_body(s: Seq<char>) -> Seq<char> {
    if has_sign(s) {
        s.drop_first()
    } else {
        s
    }
}

/// A decimal literal the backend is relied on to parse exactly: a signed
/// decimal body whose value fits the 96-bit / 28-place range.
pub open spec fn is_dec_lit(s: Seq<char>) -> bool {
    &&& is_dec_body(lit_body(s))
    &&& dec_body_units(lit_body(s)) <= MAX_DEC_UNITS
    &&& dec_body_scale(lit_body(s)) <= MAX_DEC_SCALE
}

/// The exact value of a decimal literal, units and scale read off the digits.
pub open spec fn dec_of_lit(s: Seq<char>) -> Dec {
    Dec {
        units: if is_negative_lit(s) {
            (-dec_body_units(lit_body(s))) as i128
        } else {
            dec_body_units(lit_body(s)) as i128
        },
        scale: dec_body_scale(lit_body(s)) as u32,
    }
}

/// The characters the backend's parsers consume; anything else makes parsing
/// fail outright.
pub open spec fn is_dec_alphabet_char(c: char) -> bool {
    ||| is_digit(c)
    ||| c == '.'
    ||| c == '+'
    ||| c == '-'
    ||| c == '_'
    ||| c == 'e'
    ||| c == 'E'
}

pub open spec fn all_dec_alphabet(s: Seq<char>) -> bool {
    forall|i: int| 0 <= i < s.len() ==> is_dec_alphabet_char(#[trigger] s[i])
}

/// Relies on `rust_decimal::Decimal::from_str`: for a plain decimal literal
/// (optional sign, digits, at most one point, within range) it returns the
/// decimal whose mantissa is the concatenated digits and whose scale is the
/// count of fractional digits, and it rejects any input holding a character
/// outside its numeric alphabet; and on `Decimal::mantissa` / `Decimal::scale`,
/// which read those two parts back, always within the range `wf` states.
#[verifier::external_body]
pub(crate) fn dec_from_chars(cs: &Vec<char>) -> (r: Option<Dec>)
    ensures
        is_dec_lit(cs@) ==> r == Some(dec_of_lit(cs@)),
        r is Some ==> r.unwrap().wf() && all_dec_alphabet(cs@),
{
    let s: String = cs.iter().collect();
    match s.parse::<rust_decimal::Decimal>() {
        Ok(d) => Some(Dec { units: d.mantissa(), scale: d.scale() }),
        Err(_) => None,
    }
}

/// Relies on `rust_decimal::Decimal::from_i128_with_scale`, which cannot panic
/// while mantissa and scale stay within the range `wf` states, and on
/// `Decimal`'s `Ord`, which orders decimals by numeric value.
#[verifier::external_body]
fn dec_gt_impl(a: &Dec, b: &Dec) -> (r: bool)
    requires
        a.wf(),
        b.wf(),
    ensures
        r == dec_gt(*a, *b),
{
    let da = rust_decimal::Decimal::from_i128_with_scale(a.units, a.scale);
    let db = rust_decimal::Decimal::from_i128_with_scale(b.units, b.scale);
    da > db
}

} // verus!
