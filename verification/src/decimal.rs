//! Exact decimal numbers, as prices and quantities are quoted.
//!
//! A [`Decimal`] is a sign, a 96-bit coefficient and a scale: the number
//! `coefficient / 10^scale`. Parsing, ordering, subtraction and formatting are
//! those of the `rust_decimal` crate.

use crate::text::{
    has_at_most, law_notation_is_the_numeral, lemma_padded_value, nat_text, padded_text,
};
use std::str::FromStr;
use vstd::arithmetic::power::pow;
use vstd::prelude::*;
use vstd::std_specs::cmp::{PartialEqSpec, PartialOrdSpec};

verus! {

/// The largest coefficient, `2^96 - 1`.
pub const MAX_COEFFICIENT: u128 = 0xFFFF_FFFF_FFFF_FFFF_FFFF_FFFF;

/// The largest number of decimal places.
pub const MAX_SCALE: u32 = 28;

/// An exact decimal number.
#[derive(Clone, Copy, Debug)]
pub struct Decimal {
    negative: bool,
    coefficient: u128,
    scale: u32,
}

/// `10^n`.
pub open spec fn pow10(n: nat) -> nat {
    pow(10, n) as nat
}

impl Decimal {
    /// The coefficient and the scale are within the limits of the format.
    #[verifier::type_invariant]
    pub closed spec fn valid(self) -> bool {
        &&& self.coefficient <= MAX_COEFFICIENT
        &&& self.scale <= MAX_SCALE
    }

    /// Whether the sign bit is set.
    pub closed spec fn negative(self) -> bool {
        self.negative
    }

    /// The digits of the number, read as one natural number.
    pub closed spec fn coefficient(self) -> nat {
        self.coefficient as nat
    }

    /// The number of decimal places.
    pub closed spec fn scale(self) -> nat {
        self.scale as nat
    }

    /// The number itself, counted in units of `10^-28`, the finest step there is.
    pub open spec fn units(self) -> int {
        let magnitude = self.coefficient() * pow10((MAX_SCALE - self.scale()) as nat);
        if self.negative() {
            -magnitude
        } else {
            magnitude as int
        }
    }
}

/// The value of a run of decimal digits.
pub open spec fn digits_value(digits: Seq<char>) -> nat
    decreases digits.len(),
{
    if digits.len() == 0 {
        0
    } else {
        digits_value(digits.drop_last()) * 10 + (digits.last() as nat - '0' as nat) as nat
    }
}

/// Every character is one of `0` to `9`.
pub open spec fn all_digits(text: Seq<char>) -> bool {
    forall|i: int| 0 <= i < text.len() ==> '0' <= #[trigger] text[i] <= '9'
}

/// `text` is a run of digits, with at most one point in it, of at most 28
/// digits in all: the digits read `coefficient`, and `scale` of them stand
/// behind the point.
pub open spec fn written_as(text: Seq<char>, coefficient: nat, scale: nat) -> bool {
    exists|whole: Seq<char>, frac: Seq<char>|
        {
            &&& #[trigger] all_digits(whole)
            &&& #[trigger] all_digits(frac)
            &&& 1 <= whole.len() + frac.len() <= MAX_SCALE
            &&& text == whole + seq!['.'] + frac || (frac.len() == 0 && text == whole)
            &&& coefficient == digits_value(whole + frac)
            &&& scale == frac.len()
        }
}

/// `text` is such a run of digits, then `e-` and the numeral of `n`, which moves
/// the point `n` places to the left.
pub open spec fn written_with_exponent(text: Seq<char>, coefficient: nat, scale: nat) -> bool {
    exists|digits: Seq<char>, places: nat, n: nat|
        {
            &&& #[trigger] written_as(digits, coefficient, places)
            &&& text == digits + seq!['e', '-'] + #[trigger] nat_text(n)
            &&& scale == places + n
            &&& scale <= MAX_SCALE
        }
}

/// `text` spells the number `coefficient / 10^scale`, with or without an
/// exponent.
pub open spec fn spells(text: Seq<char>, coefficient: nat, scale: nat) -> bool {
    written_as(text, coefficient, scale) || written_with_exponent(text, coefficient, scale)
}

/// `text` spells a number.
pub open spec fn spelled(text: Seq<char>) -> bool {
    exists|coefficient: nat, scale: nat| #[trigger] spells(text, coefficient, scale)
}

/// Where `text` spells a number, `d` is that number, digit for digit.
pub open spec fn is_exact(text: Seq<char>, d: Decimal) -> bool {
    forall|coefficient: nat, scale: nat| #[trigger]
        spells(text, coefficient, scale) ==> {
            &&& !d.negative()
            &&& d.coefficient() == coefficient
            &&& d.scale() == scale
        }
}

/// Where `text` spells a number, `r` is that number.
pub open spec fn read_exactly(text: Seq<char>, r: Result<Decimal, String>) -> bool {
    match r {
        Ok(d) => is_exact(text, d),
        Err(_) => !spelled(text),
    }
}

/// The magnitude of `x`.
pub open spec fn abs(x: int) -> nat {
    if x < 0 {
        (-x) as nat
    } else {
        x as nat
    }
}

/// `a - b`, rounded to a whole number if need be, does not exceed the largest
/// coefficient.
pub open spec fn difference_fits(a: Decimal, b: Decimal) -> bool {
    2 * abs(a.units() - b.units()) < (2 * MAX_COEFFICIENT + 1) * pow10(MAX_SCALE as nat)
}

/// `a - b` can be written without rounding with as many decimal places as the
/// finer of the two has.
pub open spec fn difference_is_exact(a: Decimal, b: Decimal) -> bool {
    let scale = if a.scale() < b.scale() {
        b.scale()
    } else {
        a.scale()
    };
    abs(a.units() - b.units()) <= MAX_COEFFICIENT * pow10((MAX_SCALE - scale) as nat)
}

/// A minus sign, or nothing.
pub open spec fn sign_text(d: Decimal) -> Seq<char> {
    if d.negative() {
        seq!['-']
    } else {
        seq![]
    }
}

/// The number with all its decimal places, trailing zeros included.
pub open spec fn plain_text(d: Decimal) -> Seq<char> {
    sign_text(d) + nat_text(d.coefficient() / pow10(d.scale())) + if d.scale() == 0 {
        seq![]
    } else {
        seq!['.'] + padded_text(d.coefficient(), d.scale())
    }
}

/// The magnitude of the number in steps of `10^-places`, cut off toward zero.
pub open spec fn truncated(d: Decimal, places: nat) -> nat {
    d.coefficient() * pow10(places) / pow10(d.scale())
}

/// The number with exactly `places` decimal places: cut off, or filled up with
/// zeros.
pub open spec fn fixed_text(d: Decimal, places: nat) -> Seq<char> {
    let n = truncated(d, places);
    sign_text(d) + nat_text(n / pow10(places)) + if places == 0 {
        seq![]
    } else {
        seq!['.'] + padded_text(n, places)
    }
}

/// The text with `places` decimal places (28 of them at most, the rest are
/// zeros appended later) fits the 32 characters that formatting has room for,
/// and `places` the 16 bits of a format precision.
pub open spec fn fixed_fits(d: Decimal, places: nat) -> bool {
    &&& places <= 0xFFFF
    &&& places == 0 || nat_text(d.coefficient() / pow10(d.scale())).len() + 1 + (if places
        < MAX_SCALE {
        places
    } else {
        MAX_SCALE as nat
    }) <= 32
}

/// The result of `Decimal::from_str` of `rust_decimal` on `text`: the number,
/// or the words of its error.
pub uninterp spec fn parsed_decimal(text: Seq<char>) -> Result<Decimal, Seq<char>>;

/// The difference `a - b` as `Decimal::checked_sub` of `rust_decimal` gives it.
pub uninterp spec fn decimal_difference(a: Decimal, b: Decimal) -> Decimal;

/// Calls `<rust_decimal::Decimal as FromStr>::from_str`. The result is a
/// function of the text alone; a plain run of at most 28 digits, with at most
/// one point, is read digit for digit, and a negative exponent behind it is
/// added to the scale, where that stays within 28 places.
#[verifier::external_body]
fn parse(text: &str) -> (r: Result<Decimal, String>)
    ensures
        match r {
            Ok(d) => d.valid() && parsed_decimal(text@) == Ok::<Decimal, Seq<char>>(d),
            Err(e) => parsed_decimal(text@) == Err::<Decimal, Seq<char>>(e@),
        },
        read_exactly(text@, r),
{
    match rust_decimal::Decimal::from_str(text) {
        Ok(d) => Ok(
            Decimal {
                negative: d.is_sign_negative(),
                coefficient: d.mantissa().unsigned_abs(),
                scale: d.scale(),
            },
        ),
        Err(e) => Err(e.to_string()),
    }
}

/// Calls `<rust_decimal::Decimal as PartialOrd>::lt`, which compares the
/// numbers, whatever their scales: `1.0` and `1.00` are equal.
#[verifier::external_body]
fn precedes(a: &Decimal, b: &Decimal) -> (r: bool)
    requires
        a.valid(),
        b.valid(),
    ensures
        r == (a.units() < b.units()),
{
    let mut x = rust_decimal::Decimal::from_i128_with_scale(a.coefficient as i128, a.scale);
    x.set_sign_negative(a.negative);
    let mut y = rust_decimal::Decimal::from_i128_with_scale(b.coefficient as i128, b.scale);
    y.set_sign_negative(b.negative);
    x < y
}

/// Calls `rust_decimal::Decimal::checked_sub`. It yields a number exactly when
/// the difference, rounded to a whole number if need be, fits a coefficient.
/// The number is a function of the two operands, and it is the difference
/// itself wherever that fits a coefficient at the finer of the two scales.
#[verifier::external_body]
fn difference(a: &Decimal, b: &Decimal) -> (r: Option<Decimal>)
    requires
        a.valid(),
        b.valid(),
    ensures
        r is Some <==> difference_fits(*a, *b),
        r matches Some(d) ==> {
            &&& d.valid()
            &&& d == decimal_difference(*a, *b)
            &&& difference_is_exact(*a, *b) ==> d.units() == a.units() - b.units()
        },
{
    let mut x = rust_decimal::Decimal::from_i128_with_scale(a.coefficient as i128, a.scale);
    x.set_sign_negative(a.negative);
    let mut y = rust_decimal::Decimal::from_i128_with_scale(b.coefficient as i128, b.scale);
    y.set_sign_negative(b.negative);
    x.checked_sub(y).map(
        |d|
            Decimal {
                negative: d.is_sign_negative(),
                coefficient: d.mantissa().unsigned_abs(),
                scale: d.scale(),
            },
    )
}

/// Formats with `<rust_decimal::Decimal as Display>::fmt`, without options.
#[verifier::external_body]
fn display(d: &Decimal) -> (text: String)
    requires
        d.valid(),
    ensures
        text@ == plain_text(*d),
{
    let mut x = rust_decimal::Decimal::from_i128_with_scale(d.coefficient as i128, d.scale);
    x.set_sign_negative(d.negative);
    x.to_string()
}

/// Formats with `<rust_decimal::Decimal as Display>::fmt`, with a precision. It
/// does not round: digits behind the last place are dropped. Its buffer holds
/// 32 characters, and it panics where they do not suffice.
#[verifier::external_body]
fn display_fixed(d: &Decimal, places: u32) -> (text: String)
    requires
        d.valid(),
        fixed_fits(*d, places as nat),
    ensures
        text@ == fixed_text(*d, places as nat),
{
    let mut x = rust_decimal::Decimal::from_i128_with_scale(d.coefficient as i128, d.scale);
    x.set_sign_negative(d.negative);
    format!("{:.*}", places as usize, x)
}

impl Decimal {
    /// Reads a number from its decimal notation.
    pub fn from_str(text: &str) -> (r: Result<Decimal, String>)
        ensures
            match r {
                Ok(d) => parsed_decimal(text@) == Ok::<Decimal, Seq<char>>(d),
                Err(e) => parsed_decimal(text@) == Err::<Decimal, Seq<char>>(e@),
            },
            read_exactly(text@, r),
    {
        parse(text)
    }

    /// Whether the number is zero, whatever its scale.
    pub fn is_zero(&self) -> (r: bool)
        ensures
            r == (self.units() == 0),
    {
        proof {
            lemma_pow10_positive((MAX_SCALE - self.scale()) as nat);
            let p = pow10((MAX_SCALE - self.scale()) as nat);
            assert(self.coefficient * p == 0 <==> self.coefficient == 0) by (nonlinear_arith)
                requires
                    p > 0,
            ;
        }
        self.coefficient == 0
    }

    /// Whether this number is smaller than `other`.
    pub fn less_than(&self, other: &Decimal) -> (r: bool)
        ensures
            r == (self.units() < other.units()),
    {
        proof {
            use_type_invariant(self);
            use_type_invariant(other);
        }
        precedes(self, other)
    }

    /// `self - other`, or `None` where it is out of range.
    pub fn minus(&self, other: &Decimal) -> (r: Option<Decimal>)
        ensures
            r is Some <==> difference_fits(*self, *other),
            r matches Some(d) ==> {
                &&& d == decimal_difference(*self, *other)
                &&& difference_is_exact(*self, *other) ==> d.units() == self.units()
                    - other.units()
            },
    {
        proof {
            use_type_invariant(self);
            use_type_invariant(other);
        }
        difference(self, other)
    }

    /// The number with all its decimal places.
    pub fn to_text(&self) -> (text: String)
        ensures
            text@ == plain_text(*self),
    {
        proof {
            use_type_invariant(self);
        }
        display(self)
    }

    /// Whether [`Decimal::to_fixed_text`] has room for `places` decimal places.
    pub fn fits_fixed_text(&self, places: u32) -> (r: bool)
        ensures
            r == fixed_fits(*self, places as nat),
    {
        proof {
            use_type_invariant(self);
        }
        if places > 0xFFFF {
            return false;
        }
        if places == 0 {
            return true;
        }
        let shown: u32 = if places < MAX_SCALE {
            places
        } else {
            MAX_SCALE
        };
        let one: u128 = power_of_ten(self.scale);
        proof {
            lemma_pow10_positive(self.scale as nat);
        }
        has_at_most(self.coefficient / one, 31 - shown)
    }

    /// The number with exactly `places` decimal places, cut off or filled up
    /// with zeros.
    pub fn to_fixed_text(&self, places: u32) -> (text: String)
        requires
            fixed_fits(*self, places as nat),
        ensures
            text@ == fixed_text(*self, places as nat),
    {
        proof {
            use_type_invariant(self);
        }
        display_fixed(self, places)
    }
}

/// `10^n`.
fn power_of_ten(n: u32) -> (power: u128)
    requires
        n <= MAX_SCALE,
    ensures
        power == pow10(n as nat),
    decreases n,
{
    if n == 0 {
        proof {
            vstd::arithmetic::power::lemma_pow0(10);
        }
        1
    } else {
        let rest: u128 = power_of_ten(n - 1);
        proof {
            vstd::arithmetic::power::lemma_pow_adds(10, 1, (n - 1) as nat);
            vstd::arithmetic::power::lemma_pow1(10);
            vstd::arithmetic::power::lemma_pow_increases(10, (n - 1) as nat, 27);
            lemma_largest_power();
            lemma_pow10_positive((n - 1) as nat);
        }
        rest * 10
    }
}

proof fn lemma_largest_power()
    ensures
        pow(10, 27) == 1_000_000_000_000_000_000_000_000_000,
{
    reveal_with_fuel(pow, 28);
}

/// Powers of ten are positive.
pub proof fn lemma_pow10_positive(n: nat)
    ensures
        pow10(n) > 0,
        pow(10, n) > 0,
{
    vstd::arithmetic::power::lemma_pow_positive(10, n);
}

impl PartialEq for Decimal {
    fn eq(&self, other: &Self) -> (r: bool) {
        !self.less_than(other) && !other.less_than(self)
    }
}

impl vstd::std_specs::cmp::PartialEqSpecImpl for Decimal {
    open spec fn obeys_eq_spec() -> bool {
        true
    }

    open spec fn eq_spec(&self, other: &Self) -> bool {
        self.units() == other.units()
    }
}

impl PartialOrd for Decimal {
    fn partial_cmp(&self, other: &Self) -> (r: Option<std::cmp::Ordering>) {
        if self.less_than(other) {
            Some(std::cmp::Ordering::Less)
        } else if other.less_than(self) {
            Some(std::cmp::Ordering::Greater)
        } else {
            Some(std::cmp::Ordering::Equal)
        }
    }
}

impl vstd::std_specs::cmp::PartialOrdSpecImpl for Decimal {
    open spec fn obeys_partial_cmp_spec() -> bool {
        true
    }

    open spec fn partial_cmp_spec(&self, other: &Self) -> Option<std::cmp::Ordering> {
        if self.units() < other.units() {
            Some(std::cmp::Ordering::Less)
        } else if self.units() > other.units() {
            Some(std::cmp::Ordering::Greater)
        } else {
            Some(std::cmp::Ordering::Equal)
        }
    }
}

/// The coefficient with its sign.
pub open spec fn signed(d: Decimal) -> int {
    if d.negative() {
        -(d.coefficient() as int)
    } else {
        d.coefficient() as int
    }
}

/// Numbers are ordered by value: one is smaller exactly if it is after both are
/// brought to a common denominator.
pub proof fn law_order_is_by_value(a: Decimal, b: Decimal)
    requires
        a.scale() <= 28,
        b.scale() <= 28,
    ensures
        a.units() < b.units() <==> signed(a) * pow10(b.scale()) < signed(b) * pow10(a.scale()),
        a.units() == b.units() <==> signed(a) * pow10(b.scale()) == signed(b) * pow10(a.scale()),
        a.units() == 0 <==> a.coefficient() == 0,
{
    let pa = pow10((28 - a.scale()) as nat) as int;
    let pb = pow10((28 - b.scale()) as nat) as int;
    let qa = pow10(a.scale()) as int;
    let qb = pow10(b.scale()) as int;
    let x = signed(a);
    let y = signed(b);
    lemma_pow10_positive((28 - a.scale()) as nat);
    lemma_pow10_positive((28 - b.scale()) as nat);
    lemma_pow10_positive(a.scale());
    lemma_pow10_positive(b.scale());
    vstd::arithmetic::power::lemma_pow_adds(10, a.scale(), (28 - a.scale()) as nat);
    vstd::arithmetic::power::lemma_pow_adds(10, b.scale(), (28 - b.scale()) as nat);
    assert(qa * pa == qb * pb);
    assert(a.units() == x * pa) by {
        assert(-(a.coefficient() as int) * pa == -(a.coefficient() * pa)) by (nonlinear_arith);
    }
    assert(b.units() == y * pb) by {
        assert(-(b.coefficient() as int) * pb == -(b.coefficient() * pb)) by (nonlinear_arith);
    }
    // x * pa < y * pb, times qa * qb, against x * qb < y * qa, times qa * pa.
    let z = qa * pa;
    assert((x * pa) * (qa * qb) == (x * qb) * z) by (nonlinear_arith)
        requires
            z == qa * pa,
    ;
    assert((y * pb) * (qa * qb) == (y * qa) * z) by (nonlinear_arith)
        requires
            z == qb * pb,
    ;
    assert(z > 0) by (nonlinear_arith)
        requires
            z == qa * pa,
            qa > 0,
            pa > 0,
    ;
    assert(qa * qb > 0) by (nonlinear_arith)
        requires
            qa > 0,
            qb > 0,
    ;
    lemma_scaled_order(x * pa, y * pb, qa * qb);
    lemma_scaled_order(x * qb, y * qa, z);
    assert(x * pa == 0 <==> x == 0) by (nonlinear_arith)
        requires
            pa > 0,
    ;
}

proof fn lemma_scaled_order(a: int, b: int, k: int)
    requires
        k > 0,
    ensures
        a < b <==> a * k < b * k,
        a == b <==> a * k == b * k,
{
    assert(a < b <==> a * k < b * k) by (nonlinear_arith)
        requires
            k > 0,
    ;
    assert(a > b <==> a * k > b * k) by (nonlinear_arith)
        requires
            k > 0,
    ;
}

/// Cutting a number to a precision leaves the largest number of steps that does
/// not exceed it.
pub proof fn law_truncation_rounds_toward_zero(d: Decimal, places: nat)
    ensures
        truncated(d, places) * pow10(d.scale()) <= d.coefficient() * pow10(places),
        d.coefficient() * pow10(places) < (truncated(d, places) + 1) * pow10(d.scale()),
{
    let n = (d.coefficient() * pow10(places)) as int;
    let p = pow10(d.scale()) as int;
    lemma_pow10_positive(d.scale());
    vstd::arithmetic::div_mod::lemma_fundamental_div_mod(n, p);
    let q = n / p;
    assert(q * p <= n < (q + 1) * p) by (nonlinear_arith)
        requires
            n == p * q + n % p,
            0 <= n % p < p,
    ;
}

/// A number that is not negative and not too long reads back from its text, with
/// all its decimal places.
pub proof fn law_text_is_read_back(d: Decimal)
    requires
        !d.negative(),
        nat_text(d.coefficient() / pow10(d.scale())).len() + d.scale() <= 28,
    ensures
        spells(plain_text(d), d.coefficient(), d.scale()),
{
    let c = d.coefficient();
    let p = pow10(d.scale());
    lemma_pow10_positive(d.scale());
    let whole = nat_text(c / p);
    let frac = padded_text(c, d.scale());
    law_notation_is_the_numeral(c / p);
    lemma_padded_value(whole, c, d.scale());
    lemma_padded_value(seq![], c, d.scale());
    assert(seq![] + frac =~= frac);
    lemma_padded_length(c, d.scale());
    vstd::arithmetic::div_mod::lemma_fundamental_div_mod(c as int, p as int);
    assert(digits_value(whole + frac) == c) by (nonlinear_arith)
        requires
            digits_value(whole + frac) == (c / p) * p + c % p,
            c == p * (c / p) + c % p,
    ;
    if d.scale() == 0 {
        assert(plain_text(d) =~= whole);
    } else {
        assert(plain_text(d) =~= whole + seq!['.'] + frac);
    }
    assert(written_as(plain_text(d), c, d.scale()));
}

proof fn lemma_padded_length(n: nat, width: nat)
    ensures
        padded_text(n, width).len() == width,
    decreases width,
{
    if width > 0 {
        lemma_padded_length(n / 10, (width - 1) as nat);
    }
}

/// A text of fixed precision has exactly that many decimal places, and they and
/// the digits before them read as the number of steps.
pub proof fn law_fixed_text_counts_steps(d: Decimal, places: nat)
    requires
        !d.negative(),
        places > 0,
    ensures
        exists|whole: Seq<char>, frac: Seq<char>|
            #![trigger all_digits(whole), all_digits(frac)]
            {
                &&& all_digits(whole)
                &&& all_digits(frac)
                &&& whole.len() >= 1
                &&& frac.len() == places
                &&& fixed_text(d, places) == whole + seq!['.'] + frac
                &&& digits_value(whole + frac) == truncated(d, places)
            },
{
    let n = truncated(d, places);
    let p = pow10(places);
    lemma_pow10_positive(places);
    let whole = nat_text(n / p);
    let frac = padded_text(n, places);
    law_notation_is_the_numeral(n / p);
    lemma_padded_value(whole, n, places);
    lemma_padded_value(seq![], n, places);
    assert(seq![] + frac =~= frac);
    lemma_padded_length(n, places);
    vstd::arithmetic::div_mod::lemma_fundamental_div_mod(n as int, p as int);
    assert(digits_value(whole + frac) == n) by (nonlinear_arith)
        requires
            digits_value(whole + frac) == (n / p) * p + n % p,
            n == p * (n / p) + n % p,
    ;
    assert(fixed_text(d, places) =~= whole + seq!['.'] + frac);
}

/// What stands behind the sign: the digits before the point, and those behind it.
spec fn magnitude_text(d: Decimal) -> Seq<char> {
    nat_text(d.coefficient() / pow10(d.scale())) + if d.scale() == 0 {
        seq![]
    } else {
        seq!['.'] + padded_text(d.coefficient(), d.scale())
    }
}

proof fn lemma_magnitude_text(d: Decimal)
    ensures
        ({
            let whole = nat_text(d.coefficient() / pow10(d.scale()));
            let frac = padded_text(d.coefficient(), d.scale());
            let text = magnitude_text(d);
            &&& whole.len() >= 1
            &&& all_digits(whole)
            &&& all_digits(frac)
            &&& frac.len() == d.scale()
            &&& digits_value(whole + frac) == d.coefficient()
            &&& plain_text(d) == sign_text(d) + text
            &&& text.len() == whole.len() + if d.scale() == 0 {
                0
            } else {
                1 + d.scale()
            }
            &&& forall|i: int| 0 <= i < whole.len() ==> #[trigger] text[i] == whole[i]
            &&& d.scale() > 0 ==> text[whole.len() as int] == '.'
            &&& d.scale() > 0 ==> text.skip((whole.len() + 1) as int) == frac
            &&& forall|i: int| 0 <= i < plain_text(d).len() ==> #[trigger] plain_text(d)[i] != ' '
        }),
{
    let c = d.coefficient();
    let p = pow10(d.scale());
    lemma_pow10_positive(d.scale());
    let whole = nat_text(c / p);
    let frac = padded_text(c, d.scale());
    let text = magnitude_text(d);
    law_notation_is_the_numeral(c / p);
    lemma_padded_value(whole, c, d.scale());
    lemma_padded_value(seq![], c, d.scale());
    assert(seq![] + frac =~= frac);
    lemma_padded_length(c, d.scale());
    vstd::arithmetic::div_mod::lemma_fundamental_div_mod(c as int, p as int);
    assert(digits_value(whole + frac) == c) by (nonlinear_arith)
        requires
            digits_value(whole + frac) == (c / p) * p + c % p,
            c == p * (c / p) + c % p,
    ;
    assert(plain_text(d) =~= sign_text(d) + text);
    if d.scale() > 0 {
        assert(text.skip((whole.len() + 1) as int) =~= frac);
    }
    assert forall|i: int| 0 <= i < plain_text(d).len() implies #[trigger] plain_text(d)[i]
        != ' ' by {
        let k = i - sign_text(d).len();
        if k >= 0 {
            assert(plain_text(d)[i] == text[k]);
            if k < whole.len() {
                assert(text[k] == whole[k]);
            } else if k > whole.len() {
                assert(text[k] == frac[k - whole.len() - 1]);
            }
        }
    }
}

/// The text of a number tells it apart from every other: two numbers with the same
/// text have the same sign, the same digits and the same decimal places.
pub proof fn law_text_tells_numbers_apart(a: Decimal, b: Decimal)
    requires
        plain_text(a) == plain_text(b),
    ensures
        a.negative() == b.negative(),
        a.coefficient() == b.coefficient(),
        a.scale() == b.scale(),
        a.units() == b.units(),
{
    lemma_magnitude_text(a);
    lemma_magnitude_text(b);
    let x = magnitude_text(a);
    let y = magnitude_text(b);
    let wa = nat_text(a.coefficient() / pow10(a.scale()));
    let wb = nat_text(b.coefficient() / pow10(b.scale()));
    let fa = padded_text(a.coefficient(), a.scale());
    let fb = padded_text(b.coefficient(), b.scale());
    assert(x[0] == wa[0] && y[0] == wb[0]);
    assert('0' <= wa[0] <= '9' && '0' <= wb[0] <= '9');
    assert(plain_text(a)[0] == if a.negative() {
        '-'
    } else {
        x[0]
    });
    assert(plain_text(b)[0] == if b.negative() {
        '-'
    } else {
        y[0]
    });
    assert(a.negative() == b.negative());
    let n = sign_text(a).len() as int;
    assert(plain_text(a).skip(n) =~= x);
    assert(plain_text(b).skip(n) =~= y);
    assert(x == y);
    if wa.len() < wb.len() {
        assert(x[wa.len() as int] == wb[wa.len() as int]);
        assert('0' <= wb[wa.len() as int] <= '9');
    }
    if wb.len() < wa.len() {
        assert(y[wb.len() as int] == wa[wb.len() as int]);
        assert('0' <= wa[wb.len() as int] <= '9');
    }
    assert(wa.len() == wb.len());
    assert(wa =~= wb) by {
        assert forall|i: int| 0 <= i < wa.len() implies wa[i] == wb[i] by {
            assert(x[i] == wa[i] && y[i] == wb[i]);
        }
    }
    assert(a.scale() == b.scale());
    assert(fa =~= fb);
}

proof fn lemma_numeral_length(n: nat, k: nat)
    ensures
        nat_text(n).len() <= k + 1 <==> n < pow10(k + 1),
    decreases k,
{
    vstd::arithmetic::power::lemma_pow1(10);
    vstd::arithmetic::power::lemma_pow_adds(10, 1, k);
    lemma_pow10_positive(k);
    if k == 0 {
        vstd::arithmetic::power::lemma_pow0(10);
        if n >= 10 {
            assert(nat_text(n / 10).len() >= 1) by {
                law_notation_is_the_numeral(n / 10);
            }
        }
    } else {
        lemma_numeral_length(n / 10, (k - 1) as nat);
        let p = pow10(k) as int;
        assert(pow10(k + 1) == 10 * p);
        if n < 10 {
            vstd::arithmetic::power::lemma_pow_adds(10, 1, (k - 1) as nat);
            lemma_pow10_positive((k - 1) as nat);
        }
        assert(n / 10 < p <==> n < 10 * p);
    }
}

/// Which numbers can be formatted to a precision: with 28 places or more, those
/// below a thousand; with fewer, those whose digits before the point leave room
/// for the rest in 31; and all of them with none.
pub proof fn law_room_for_fixed_text(d: Decimal, places: nat)
    ensures
        fixed_fits(d, places) <==> places <= 65_535 && (places == 0 || d.coefficient() / pow10(
            d.scale(),
        ) < pow10(
            (31 - if places < 28 {
                places as int
            } else {
                28
            }) as nat,
        )),
{
    let whole = d.coefficient() / pow10(d.scale());
    let shown = if places < 28 {
        places as int
    } else {
        28int
    };
    if places > 0 {
        lemma_numeral_length(whole, (30 - shown) as nat);
    }
}

/// The text of a number is one word: there is something in it, and no space.
pub proof fn law_text_is_one_word(d: Decimal)
    ensures
        plain_text(d).len() > 0,
        forall|i: int| 0 <= i < plain_text(d).len() ==> #[trigger] plain_text(d)[i] != ' ',
{
    lemma_magnitude_text(d);
}

/// The operators compare by value, whatever the number of decimal places.
pub proof fn law_operators_compare_values(a: Decimal, b: Decimal)
    ensures
        a.eq_spec(&b) <==> a.units() == b.units(),
        a.partial_cmp_spec(&b) == Some(std::cmp::Ordering::Less) <==> a.units() < b.units(),
        a.partial_cmp_spec(&b) == Some(std::cmp::Ordering::Equal) <==> a.units() == b.units(),
        a.partial_cmp_spec(&b) == Some(std::cmp::Ordering::Greater) <==> a.units() > b.units(),
{
}

} // verus!
