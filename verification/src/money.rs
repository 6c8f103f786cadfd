//! Monetary values: exact fixed-point numbers with four fractional digits.

use vstd::prelude::*;
use vstd::string::StringExecFns;
use crate::text::{decimal_string, decimal_text, digit_char, digit_text};

verus! {

/// Largest magnitude of a decimal's mantissa: 2^96 - 1.
pub const MAX_MANTISSA: i128 = 79228162514264337593543950335;

/// Largest number of fractional digits of a decimal.
pub const MAX_SCALE: u32 = 28;

/// Number of fractional digits that every monetary value carries.
pub const MONEY_SCALE: u32 = 4;

/// `10^e`.
pub open spec fn pow10(e: nat) -> nat
    decreases e,
{
    if e == 0 {
        1
    } else {
        10 * pow10((e - 1) as nat)
    }
}

/// `m / d` rounded to the nearest integer, a tie going to the even neighbour.
/// The sign of `m` is kept: the magnitude is what is rounded.
pub open spec fn round_half_even(m: int, d: int) -> int
    recommends
        d > 0,
{
    let magnitude = if m < 0 { -m } else { m };
    let quotient = magnitude / d;
    let rest = magnitude % d;
    let up = 2 * rest > d || (2 * rest == d && quotient % 2 == 1);
    let rounded = if up { quotient + 1 } else { quotient };
    if m < 0 { -rounded } else { rounded }
}

/// The decimal `mantissa * 10^-scale` rounded to at most `dp` fractional digits,
/// as a pair of mantissa and scale. A decimal that has no more than `dp` digits
/// is left as it is.
pub open spec fn rounded_decimal(mantissa: int, scale: nat, dp: nat) -> (int, nat) {
    if scale <= dp {
        (mantissa, scale)
    } else {
        (round_half_even(mantissa, pow10((scale - dp) as nat) as int), dp)
    }
}

/// The number of ten-thousandths in the decimal `mantissa * 10^-scale`, once it
/// has been rounded to four fractional digits: exact where the decimal has no
/// more than four, else rounded to the nearest, a tie to the even one.
pub open spec fn units_of(mantissa: int, scale: nat) -> int {
    if scale <= 4 {
        mantissa * pow10((4 - scale) as nat)
    } else {
        round_half_even(mantissa, pow10((scale - 4) as nat) as int)
    }
}

/// Whether `mantissa * 10^-scale` is a decimal that the arithmetic can hold:
/// a mantissa of at most 96 bits and at most 28 fractional digits.
pub open spec fn valid_decimal(mantissa: int, scale: nat) -> bool {
    &&& -MAX_MANTISSA <= mantissa <= MAX_MANTISSA
    &&& scale <= MAX_SCALE
}

/// A monetary value, held as a whole number of ten-thousandths.
#[derive(Clone, Copy, Debug, PartialEq, Eq, Structural)]
pub struct Money {
    pub units: i128,
}

impl View for Money {
    type V = int;

    open spec fn view(&self) -> int {
        self.units as int
    }
}

/// `rust_decimal::Decimal::round_dp`, on the decimal built by
/// `Decimal::from_i128_with_scale` and read back with `mantissa` and `scale`.
/// The contract claims banker's rounding: a decimal with more than `dp`
/// fractional digits comes back with exactly `dp`, its magnitude rounded to the
/// nearest value and a tie to the even one; any other comes back unchanged.
#[verifier::external_body]
fn round_dp(mantissa: i128, scale: u32, dp: u32) -> (r: (i128, u32))
    requires
        valid_decimal(mantissa as int, scale as nat),
    ensures
        (r.0 as int, r.1 as nat) == rounded_decimal(mantissa as int, scale as nat, dp as nat),
{
    let d = rust_decimal::Decimal::from_i128_with_scale(mantissa, scale).round_dp(dp);
    (d.mantissa(), d.scale())
}

/// The decimal that `rust_decimal` reads in `text`, as its mantissa and its
/// scale; `None` where it reads none.
pub uninterp spec fn parsed_decimal(text: Seq<char>) -> Option<(i128, u32)>;

/// `rust_decimal::Decimal::from_str`, reached through `str::parse`, with what
/// it returns read by `mantissa` and `scale`. The contract gives the result a
/// name and claims only that the same text is always read in the same way; an
/// error becomes `None`.
#[verifier::external_body]
fn decimal_from_str(text: &str) -> (r: Option<(i128, u32)>)
    ensures
        r == parsed_decimal(text@),
{
    match text.parse::<rust_decimal::Decimal>() {
        Ok(d) => Some((d.mantissa(), d.scale())),
        Err(_) => None,
    }
}

/// The monetary value that `text` writes, in ten-thousandths: the decimal that
/// is read in it, rounded to four fractional digits.
pub open spec fn money_of_text(text: Seq<char>) -> Option<int> {
    match parsed_decimal(text) {
        Some(parts) => if valid_decimal(parts.0 as int, parts.1 as nat) {
            Some(units_of(parts.0 as int, parts.1 as nat))
        } else {
            None
        },
        None => None,
    }
}

/// The four fractional digits of a monetary value whose magnitude leaves
/// `rest` ten-thousandths over a whole number.
pub open spec fn fraction_text(rest: int) -> Seq<char>
    recommends
        0 <= rest < 10000,
{
    seq![
        digit_char(rest / 1000),
        digit_char(rest / 100 % 10),
        digit_char(rest / 10 % 10),
        digit_char(rest % 10),
    ]
}

/// A monetary value of `units` ten-thousandths written out: a minus sign if it
/// is negative, the whole part, a point, and four fractional digits.
pub open spec fn money_text(units: int) -> Seq<char> {
    let magnitude = if units < 0 { -units } else { units };
    let sign = if units < 0 { seq!['-'] } else { Seq::<char>::empty() };
    sign + decimal_text((magnitude / 10000) as nat) + seq!['.'] + fraction_text(magnitude % 10000)
}

impl Money {
    /// The value zero.
    pub fn zero() -> (r: Money)
        ensures
            r@ == 0,
    {
        Money { units: 0 }
    }

    /// The decimal `mantissa * 10^-scale`, rounded to four fractional digits.
    /// `None` when the pair is no valid decimal.
    pub fn from_decimal(mantissa: i128, scale: u32) -> (r: Option<Money>)
        ensures
            r.is_some() <==> valid_decimal(mantissa as int, scale as nat),
            r matches Some(m) ==> m@ == units_of(mantissa as int, scale as nat),
    {
        if scale > MAX_SCALE || mantissa > MAX_MANTISSA || mantissa < -MAX_MANTISSA {
            return None;
        }
        let rounded = round_dp(mantissa, scale, MONEY_SCALE);
        let digits: u32 = rounded.1;
        proof {
            reveal_with_fuel(pow10, 5);
        }
        let ghost exact = rounded_decimal(mantissa as int, scale as nat, MONEY_SCALE as nat);
        assert(exact.0 == rounded.0 && exact.1 == digits);
        if digits >= MONEY_SCALE {
            assert(pow10((MONEY_SCALE - digits) as nat) == 1);
            return Some(Money { units: rounded.0 });
        }
        let factor: i128 = if digits == 0 {
            10000
        } else if digits == 1 {
            1000
        } else if digits == 2 {
            100
        } else {
            10
        };
        assert(factor == pow10((MONEY_SCALE - digits) as nat));
        assert(-792281625142643375935439503350000 <= rounded.0 * factor
            <= 792281625142643375935439503350000) by (nonlinear_arith)
            requires
                1 <= factor <= 10000,
                -79228162514264337593543950335 <= rounded.0 <= 79228162514264337593543950335,
        ;
        Some(Money { units: rounded.0 * factor })
    }

    /// The value of the decimal `parts.0 * 10^-parts.1` that was read in a
    /// text, rounded to four fractional digits; `None` where none was read.
    pub fn from_parsed(parsed: Option<(i128, u32)>) -> (r: Option<Money>)
        ensures
            match r {
                Some(m) => parsed.is_some() && valid_decimal(
                    parsed.unwrap().0 as int,
                    parsed.unwrap().1 as nat,
                ) && m@ == units_of(parsed.unwrap().0 as int, parsed.unwrap().1 as nat),
                None => parsed.is_none() || !valid_decimal(
                    parsed.unwrap().0 as int,
                    parsed.unwrap().1 as nat,
                ),
            },
    {
        match parsed {
            Some(parts) => Money::from_decimal(parts.0, parts.1),
            None => None,
        }
    }

    /// The value written out with its four fractional digits.
    pub fn to_text(&self) -> (r: String)
        ensures
            r@ == money_text(self@),
    {
        let negative = self.units < 0;
        let magnitude: u128 = if negative {
            (-(self.units + 1)) as u128 + 1
        } else {
            self.units as u128
        };
        let rest = magnitude % 10000;
        proof {
            reveal_strlit("-");
            reveal_strlit(".");
        }
        let mut r = if negative {
            String::from_str("-")
        } else {
            String::new()
        };
        r.append(decimal_string(magnitude / 10000).as_str());
        r.append(".");
        r.append(digit_text(rest / 1000));
        r.append(digit_text(rest / 100 % 10));
        r.append(digit_text(rest / 10 % 10));
        r.append(digit_text(rest % 10));
        assert(r@ =~= money_text(self@));
        r
    }

    /// The value that `text` writes, rounded to four fractional digits; `None`
    /// where `text` writes no decimal.
    pub fn parse(text: &str) -> (r: Option<Money>)
        ensures
            match r {
                Some(m) => money_of_text(text@) == Some(m@),
                None => money_of_text(text@).is_none(),
            },
    {
        Money::from_parsed(decimal_from_str(text))
    }
}

/// A decimal of at most four fractional digits is taken as it is: its value
/// in ten-thousandths is exact.
pub proof fn lemma_units_of_exact(mantissa: int, scale: nat)
    requires
        scale <= MONEY_SCALE,
    ensures
        units_of(mantissa, scale) == mantissa * pow10((MONEY_SCALE - scale) as nat),
{
}

/// Rounding goes to a nearest multiple: the rounded quotient, taken `d` times,
/// is no further than half of `d` from `m`.
pub proof fn lemma_round_half_even_nearest(m: int, d: int)
    requires
        d > 0,
    ensures
        -d <= 2 * (round_half_even(m, d) * d - m) <= d,
{
    let magnitude = if m < 0 { -m } else { m };
    let quotient = magnitude / d;
    let rest = magnitude % d;
    vstd::arithmetic::div_mod::lemma_fundamental_div_mod(magnitude, d);
    vstd::arithmetic::div_mod::lemma_mod_bound(magnitude, d);
    assert((quotient + 1) * d == quotient * d + d) by (nonlinear_arith);
    assert((-(quotient + 1)) * d == -(quotient * d) - d) by (nonlinear_arith);
    assert((-quotient) * d == -(quotient * d)) by (nonlinear_arith);
    assert(d * quotient == quotient * d) by (nonlinear_arith);
}

/// A multiple is rounded to itself: `q * d` divided by `d` rounds to `q`.
pub proof fn lemma_round_half_even_exact(q: int, d: int)
    requires
        d > 0,
    ensures
        round_half_even(q * d, d) == q,
{
    let m = q * d;
    let magnitude = if m < 0 { -m } else { m };
    let absolute = if q < 0 { -q } else { q };
    assert(magnitude == absolute * d) by (nonlinear_arith)
        requires
            m == q * d,
            d > 0,
            magnitude == if m < 0 { -m } else { m },
            absolute == if q < 0 { -q } else { q },
    ;
    vstd::arithmetic::div_mod::lemma_fundamental_div_mod_converse(magnitude, d, absolute, 0);
    assert(m < 0 <==> q < 0) by (nonlinear_arith)
        requires
            m == q * d,
            d > 0,
    ;
}

/// A power of ten is positive.
pub proof fn lemma_pow10_positive(e: nat)
    ensures
        pow10(e) > 0,
    decreases e,
{
    if e > 0 {
        lemma_pow10_positive((e - 1) as nat);
    }
}

/// A decimal of more than four fractional digits is taken to a nearest
/// monetary value: what is lost or gained is at most half a ten-thousandth.
/// With `d` the ten-thousandth in the decimal's own unit, `units_of` taken `d`
/// times is no further than half of `d` from the mantissa.
pub proof fn lemma_units_of_nearest(mantissa: int, scale: nat)
    requires
        scale > MONEY_SCALE,
    ensures
        ({
            let d = pow10((scale - MONEY_SCALE) as nat) as int;
            -d <= 2 * (units_of(mantissa, scale) * d - mantissa) <= d
        }),
{
    lemma_pow10_positive((scale - MONEY_SCALE) as nat);
    lemma_round_half_even_nearest(mantissa, pow10((scale - MONEY_SCALE) as nat) as int);
}

} // verus!
