//! Amounts of money: rust_decimal's 96-bit decimal numbers, held as sign,
//! magnitude and scale.

use crate::text::{chars_of, decimal_digits, push_char, zero_padded};
use vstd::arithmetic::power::pow;
use vstd::prelude::*;

verus! {

/// A decimal amount: `(-1 if negative) * magnitude / 10^scale`. Zero may carry
/// either sign, as in rust_decimal.
#[derive(Clone, Copy, Debug, PartialEq, Eq, Structural)]
pub struct Amount {
    pub negative: bool,
    pub magnitude: u128,
    pub scale: u32,
}

/// 2^96: the magnitudes of amounts lie below it.
pub open spec fn magnitude_limit() -> int {
    0x1_0000_0000_0000_0000_0000_0000
}

pub open spec fn pow10(e: int) -> int {
    pow(10, e as nat)
}

pub open spec fn max_scale(a: u32, b: u32) -> u32 {
    if a >= b { a } else { b }
}

impl Amount {
    /// The amount is one that rust_decimal can hold.
    pub open spec fn wf(self) -> bool {
        self.magnitude < magnitude_limit() && self.scale <= 28
    }

    /// The value times 10^28: an integer for every amount, so that values
    /// compare and add as these numbers do.
    pub open spec fn key(self) -> int {
        (if self.negative { -(self.magnitude as int) } else { self.magnitude as int }) * pow10(
            28 - self.scale,
        )
    }
}

/// `a + b` is a decimal that rust_decimal holds exactly, at the larger of the
/// two scales.
pub open spec fn sum_fits(a: Amount, b: Amount) -> bool {
    let k = a.key() + b.key();
    let bound = magnitude_limit() * pow10(28 - max_scale(a.scale, b.scale));
    -bound < k < bound
}

/// `a - b` is a decimal that rust_decimal holds exactly, at the larger of the
/// two scales.
pub open spec fn difference_fits(a: Amount, b: Amount) -> bool {
    let k = a.key() - b.key();
    let bound = magnitude_limit() * pow10(28 - max_scale(a.scale, b.scale));
    -bound < k < bound
}

/// The digits of a magnitude; none for zero.
pub open spec fn magnitude_digits(m: nat) -> Seq<char> {
    if m == 0 {
        seq![]
    } else {
        decimal_digits(m)
    }
}

/// The digits of the amount, with zeros in front up to its scale.
pub open spec fn scaled_digits(a: Amount) -> Seq<char> {
    zero_padded(magnitude_digits(a.magnitude as nat), a.scale as nat)
}

pub open spec fn sign_text(a: Amount) -> Seq<char> {
    if a.negative {
        seq!['-']
    } else {
        seq![]
    }
}

/// A whole part, "0" where it has no digits.
pub open spec fn whole_text(w: Seq<char>) -> Seq<char> {
    if w.len() == 0 {
        seq!['0']
    } else {
        w
    }
}

/// How rust_decimal writes an amount: its sign where negative (zero too), the
/// whole digits ("0" where there are none), and where the scale is above zero a
/// point and exactly `scale` digits.
pub open spec fn decimal_text(a: Amount) -> Seq<char> {
    let ds = scaled_digits(a);
    let whole_len = ds.len() - a.scale;
    if a.scale == 0 {
        sign_text(a) + whole_text(ds)
    } else {
        sign_text(a) + whole_text(ds.take(whole_len)) + seq!['.'] + ds.skip(whole_len)
    }
}

/// How rust_decimal writes an amount with precision 2 (`{:.2}`): as
/// `decimal_text`, but with exactly two digits after the point, the further
/// digits cut off and missing ones written as zeros.
pub open spec fn two_place_text(a: Amount) -> Seq<char> {
    let ds = scaled_digits(a);
    let whole_len = ds.len() - a.scale;
    sign_text(a) + whole_text(ds.take(whole_len)) + seq!['.'] + (ds.skip(whole_len) + seq![
        '0',
        '0',
    ]).take(2)
}

/// rust_decimal's `round_dp(2)`: amounts with two places or fewer stay as they
/// are; others go to two places, rounding half to even. A zero keeps its sign;
/// an amount that rounds to zero loses it.
pub open spec fn rounded_to_cents(a: Amount) -> Amount {
    if a.scale <= 2 {
        a
    } else {
        let d = pow10(a.scale - 2);
        let q = (a.magnitude as int) / d;
        let r = (a.magnitude as int) % d;
        let half = d / 2;
        let up = r > half || (r == half && q % 2 == 1);
        let m = if up {
            q + 1
        } else {
            q
        };
        Amount { negative: a.negative && (a.magnitude == 0 || m != 0), magnitude: m as u128, scale: 2 }
    }
}

/// The amount of value `k / 10^28` at scale `s`: a zero value is not negative.
pub open spec fn amount_of_key(k: int, s: u32) -> Amount {
    Amount {
        negative: k < 0,
        magnitude: ((if k < 0 {
            -k
        } else {
            k
        }) / pow10(28 - s)) as u128,
        scale: s,
    }
}

/// The amount rust_decimal's `+` gives for two non-zero amounts whose exact sum
/// it cannot hold at the larger of their scales: the sum rounded to fewer
/// places.
pub uninterp spec fn rounded_sum(a: Amount, b: Amount) -> Amount;

/// The amount rust_decimal's `-` gives for two non-zero amounts whose exact
/// difference it cannot hold at the larger of their scales: the difference
/// rounded to fewer places.
pub uninterp spec fn rounded_difference(a: Amount, b: Amount) -> Amount;

/// rust_decimal's `+` overflows: the sum cannot be held even without places.
pub uninterp spec fn sum_overflows(a: Amount, b: Amount) -> bool;

/// rust_decimal's `-` overflows: the difference cannot be held even without
/// places.
pub uninterp spec fn difference_overflows(a: Amount, b: Amount) -> bool;

/// What rust_decimal's `+` gives where it does not overflow: the other
/// operand, unchanged, where one is zero; the exact sum at the larger of the
/// two scales (a zero sum without sign) where that fits; else `rounded_sum`.
pub open spec fn decimal_sum(a: Amount, b: Amount) -> Amount {
    if a.magnitude == 0 {
        b
    } else if b.magnitude == 0 {
        a
    } else if sum_fits(a, b) {
        amount_of_key(a.key() + b.key(), max_scale(a.scale, b.scale))
    } else {
        rounded_sum(a, b)
    }
}

/// What rust_decimal's `-` gives where it does not overflow: from zero, the
/// second operand with its sign turned (unchanged if it is zero too); less
/// zero, the first operand unchanged; the exact difference at the larger of the
/// two scales (a zero difference without sign) where that fits; else
/// `rounded_difference`.
pub open spec fn decimal_difference(a: Amount, b: Amount) -> Amount {
    if a.magnitude == 0 {
        if b.magnitude == 0 {
            b
        } else {
            Amount { negative: !b.negative, ..b }
        }
    } else if b.magnitude == 0 {
        a
    } else if difference_fits(a, b) {
        amount_of_key(a.key() - b.key(), max_scale(a.scale, b.scale))
    } else {
        rounded_difference(a, b)
    }
}

// ---------------------------------------------------------------------------
// Calls into rust_decimal. An amount goes in and comes out by sign, magnitude
// and scale.

/// `Decimal::checked_add`: `None` exactly where `+` overflows (`sum_overflows`,
/// never where the exact sum fits); else `decimal_sum`, an amount rust_decimal
/// holds, whose value is the exact sum where that fits. Which amount a rounded
/// sum is, is named (`rounded_sum`), not stated.
#[verifier::external_body]
fn decimal_checked_add(a: Amount, b: Amount) -> (r: Option<Amount>)
    requires
        a.wf(),
        b.wf(),
    ensures
        r.is_none() == sum_overflows(a, b),
        sum_fits(a, b) ==> r.is_some(),
        r matches Some(x) ==> x == decimal_sum(a, b) && x.wf(),
        r matches Some(x) ==> (a.magnitude != 0 && b.magnitude != 0 && !sum_fits(a, b) ==> x
            == rounded_sum(a, b)),
        r matches Some(x) ==> (sum_fits(a, b) ==> x.key() == a.key() + b.key() && x.scale
            <= max_scale(a.scale, b.scale)),
{
    let mut x = rust_decimal::Decimal::from_i128_with_scale(a.magnitude as i128, a.scale);
    x.set_sign_negative(a.negative);
    let mut y = rust_decimal::Decimal::from_i128_with_scale(b.magnitude as i128, b.scale);
    y.set_sign_negative(b.negative);
    x.checked_add(y).map(|r| Amount { negative: r.is_sign_negative(), magnitude: r.mantissa().unsigned_abs(), scale: r.scale() })
}

/// `Decimal::checked_sub`: `None` exactly where `-` overflows
/// (`difference_overflows`, never where the exact difference fits); else
/// `decimal_difference`, an amount rust_decimal holds, whose value is the exact
/// difference where that fits. Which amount a rounded difference is, is named
/// (`rounded_difference`), not stated.
#[verifier::external_body]
fn decimal_checked_sub(a: Amount, b: Amount) -> (r: Option<Amount>)
    requires
        a.wf(),
        b.wf(),
    ensures
        r.is_none() == difference_overflows(a, b),
        difference_fits(a, b) ==> r.is_some(),
        r matches Some(x) ==> x == decimal_difference(a, b) && x.wf(),
        r matches Some(x) ==> (a.magnitude != 0 && b.magnitude != 0 && !difference_fits(a, b)
            ==> x == rounded_difference(a, b)),
        r matches Some(x) ==> (difference_fits(a, b) ==> x.key() == a.key() - b.key() && x.scale
            <= max_scale(a.scale, b.scale)),
{
    let mut x = rust_decimal::Decimal::from_i128_with_scale(a.magnitude as i128, a.scale);
    x.set_sign_negative(a.negative);
    let mut y = rust_decimal::Decimal::from_i128_with_scale(b.magnitude as i128, b.scale);
    y.set_sign_negative(b.negative);
    x.checked_sub(y).map(|r| Amount { negative: r.is_sign_negative(), magnitude: r.mantissa().unsigned_abs(), scale: r.scale() })
}

/// `Decimal < Decimal`: compares the values.
#[verifier::external_body]
fn decimal_less(a: Amount, b: Amount) -> (r: bool)
    requires
        a.wf(),
        b.wf(),
    ensures
        r == (a.key() < b.key()),
{
    let mut x = rust_decimal::Decimal::from_i128_with_scale(a.magnitude as i128, a.scale);
    x.set_sign_negative(a.negative);
    let mut y = rust_decimal::Decimal::from_i128_with_scale(b.magnitude as i128, b.scale);
    y.set_sign_negative(b.negative);
    x < y
}

/// `Decimal::round_dp(2)`.
#[verifier::external_body]
fn decimal_round_cents(a: Amount) -> (r: Amount)
    requires
        a.wf(),
    ensures
        r == rounded_to_cents(a),
        r.wf(),
{
    let mut x = rust_decimal::Decimal::from_i128_with_scale(a.magnitude as i128, a.scale);
    x.set_sign_negative(a.negative);
    let r = x.round_dp(2);
    Amount { negative: r.is_sign_negative(), magnitude: r.mantissa().unsigned_abs(), scale: r.scale() }
}

/// `Decimal::to_string` (its `Display`).
#[verifier::external_body]
fn decimal_to_string(a: Amount) -> (r: String)
    requires
        a.wf(),
    ensures
        r@ == decimal_text(a),
{
    let mut x = rust_decimal::Decimal::from_i128_with_scale(a.magnitude as i128, a.scale);
    x.set_sign_negative(a.negative);
    x.to_string()
}

/// `format!("{:.2}", decimal)`.
#[verifier::external_body]
fn decimal_two_places(a: Amount) -> (r: String)
    requires
        a.wf(),
    ensures
        r@ == two_place_text(a),
{
    let mut x = rust_decimal::Decimal::from_i128_with_scale(a.magnitude as i128, a.scale);
    x.set_sign_negative(a.negative);
    format!("{:.2}", x)
}

impl Amount {
    pub open spec fn zero_spec() -> Amount {
        Amount { negative: false, magnitude: 0, scale: 0 }
    }

    /// Zero, with scale 0.
    pub fn zero() -> (r: Amount)
        ensures
            r == Amount::zero_spec(),
            r.wf(),
            r.key() == 0,
    {
        proof {
            lemma_key_sign(Amount::zero_spec());
        }
        Amount { negative: false, magnitude: 0, scale: 0 }
    }

    /// The value is above zero.
    pub fn is_positive(&self) -> (r: bool)
        requires
            self.wf(),
        ensures
            r == (self.key() > 0),
    {
        proof {
            lemma_key_sign(*self);
        }
        !self.negative && self.magnitude != 0
    }

    /// The value is below zero.
    pub fn is_negative(&self) -> (r: bool)
        requires
            self.wf(),
        ensures
            r == (self.key() < 0),
    {
        proof {
            lemma_key_sign(*self);
        }
        self.negative && self.magnitude != 0
    }

    /// The value is zero.
    pub fn is_zero(&self) -> (r: bool)
        requires
            self.wf(),
        ensures
            r == (self.key() == 0),
    {
        proof {
            lemma_key_sign(*self);
        }
        self.magnitude == 0
    }

    /// The same amount without its sign (rust_decimal's `abs`).
    pub fn abs(&self) -> (r: Amount)
        requires
            self.wf(),
        ensures
            r == (Amount { negative: false, ..*self }),
            r.wf(),
            r.key() == (if self.key() < 0 { -self.key() } else { self.key() }),
    {
        proof {
            lemma_key_sign(*self);
            lemma_key_sign(Amount { negative: false, ..*self });
            let m = self.magnitude as int;
            let p = pow10(28 - self.scale);
            assert((-m) * p == -(m * p)) by (nonlinear_arith);
        }
        Amount { negative: false, magnitude: self.magnitude, scale: self.scale }
    }

    /// The sum as rust_decimal's `+` gives it (`decimal_sum`), or `None` where
    /// that overflows.
    pub fn checked_plus(&self, other: &Amount) -> (r: Option<Amount>)
        requires
            self.wf(),
            other.wf(),
        ensures
            r is None <==> sum_overflows(*self, *other),
            r matches Some(x) ==> x == decimal_sum(*self, *other) && x.wf(),
            sum_fits(*self, *other) ==> (r matches Some(x) && x.key() == self.key() + other.key()
                && x.scale <= max_scale(self.scale, other.scale)),
    {
        decimal_checked_add(*self, *other)
    }

    /// The sum as rust_decimal's `+` gives it (`decimal_sum`), where that does
    /// not overflow: exact where the exact sum fits.
    pub fn plus(&self, other: &Amount) -> (r: Amount)
        requires
            self.wf(),
            other.wf(),
            !sum_overflows(*self, *other),
        ensures
            r == decimal_sum(*self, *other),
            r.wf(),
            sum_fits(*self, *other) ==> r.key() == self.key() + other.key() && r.scale
                <= max_scale(self.scale, other.scale),
    {
        match decimal_checked_add(*self, *other) {
            Some(x) => x,
            None => {
                assert(false);
                *self
            },
        }
    }

    /// The difference as rust_decimal's `-` gives it (`decimal_difference`), or
    /// `None` where that overflows.
    pub fn checked_minus(&self, other: &Amount) -> (r: Option<Amount>)
        requires
            self.wf(),
            other.wf(),
        ensures
            r is None <==> difference_overflows(*self, *other),
            r matches Some(x) ==> x == decimal_difference(*self, *other) && x.wf(),
            difference_fits(*self, *other) ==> (r matches Some(x) && x.key() == self.key()
                - other.key() && x.scale <= max_scale(self.scale, other.scale)),
    {
        decimal_checked_sub(*self, *other)
    }

    /// The difference as rust_decimal's `-` gives it (`decimal_difference`),
    /// where that does not overflow: exact where the exact difference fits.
    pub fn minus(&self, other: &Amount) -> (r: Amount)
        requires
            self.wf(),
            other.wf(),
            !difference_overflows(*self, *other),
        ensures
            r == decimal_difference(*self, *other),
            r.wf(),
            difference_fits(*self, *other) ==> r.key() == self.key() - other.key() && r.scale
                <= max_scale(self.scale, other.scale),
    {
        match decimal_checked_sub(*self, *other) {
            Some(x) => x,
            None => {
                assert(false);
                *self
            },
        }
    }

    /// The value is below that of `other`.
    pub fn less_than(&self, other: &Amount) -> (r: bool)
        requires
            self.wf(),
            other.wf(),
        ensures
            r == (self.key() < other.key()),
    {
        decimal_less(*self, *other)
    }

    /// The amount rounded to two places, half to even (`round_dp(2)`).
    pub fn round_cents(&self) -> (r: Amount)
        requires
            self.wf(),
        ensures
            r == rounded_to_cents(*self),
            r.wf(),
    {
        decimal_round_cents(*self)
    }

    /// The amount as rust_decimal writes it.
    pub fn to_text(&self) -> (r: String)
        requires
            self.wf(),
        ensures
            r@ == decimal_text(*self),
    {
        decimal_to_string(*self)
    }

    /// The amount as rust_decimal writes it with precision 2.
    pub fn to_two_place_text(&self) -> (r: String)
        requires
            self.wf(),
        ensures
            r@ == two_place_text(*self),
    {
        decimal_two_places(*self)
    }
}

/// The key of an amount has the sign of the amount and is zero exactly for a
/// zero magnitude.
pub proof fn lemma_key_sign(a: Amount)
    requires
        a.scale <= 28,
    ensures
        (a.key() > 0) == (!a.negative && a.magnitude != 0),
        (a.key() < 0) == (a.negative && a.magnitude != 0),
        (a.key() == 0) == (a.magnitude == 0),
{
    let p = pow10(28 - a.scale);
    vstd::arithmetic::power::lemma_pow_positive(10, (28 - a.scale) as nat);
    let m = a.magnitude as int;
    if a.negative {
        if m > 0 {
            assert(-m * p < 0) by (nonlinear_arith) requires m > 0, p > 0;
        } else {
            assert(-m * p == 0) by (nonlinear_arith) requires m == 0;
        }
    } else {
        if m > 0 {
            assert(m * p > 0) by (nonlinear_arith) requires m > 0, p > 0;
        } else {
            assert(m * p == 0) by (nonlinear_arith) requires m == 0;
        }
    }
}

/// The magnitude of an amount with its sign, as an integer.
pub open spec fn signed_magnitude(a: Amount) -> int {
    if a.negative {
        -(a.magnitude as int)
    } else {
        a.magnitude as int
    }
}

/// Read at a scale `s` at least its own, an amount's key is its signed
/// magnitude times 10^(s - scale), times 10^(28 - s).
proof fn lemma_key_at_scale(a: Amount, s: int)
    requires
        a.scale <= s <= 28,
    ensures
        a.key() == (signed_magnitude(a) * pow10(s - a.scale)) * pow10(28 - s),
{
    vstd::arithmetic::power::lemma_pow_adds(10, (s - a.scale) as nat, (28 - s) as nat);
    assert(((s - a.scale) as nat + (28 - s) as nat) as nat == (28 - a.scale) as nat);
    let v = signed_magnitude(a);
    let x = pow10(s - a.scale);
    let y = pow10(28 - s);
    assert(v * (x * y) == (v * x) * y) by (nonlinear_arith);
}

/// `amount_of_key` gives back, at scale `s`, the value of a key that is a
/// multiple of 10^(28 - s) with a factor below 2^96 in size.
proof fn lemma_amount_of_key(q: int, s: u32)
    requires
        s <= 28,
        -magnitude_limit() < q < magnitude_limit(),
    ensures
        amount_of_key(q * pow10(28 - s), s).key() == q * pow10(28 - s),
        amount_of_key(q * pow10(28 - s), s).wf(),
        amount_of_key(q * pow10(28 - s), s).scale == s,
{
    let p = pow10(28 - s);
    vstd::arithmetic::power::lemma_pow_positive(10, (28 - s) as nat);
    let k = q * p;
    let r = amount_of_key(k, s);
    if q < 0 {
        assert(k < 0 && -k == p * (-q)) by (nonlinear_arith)
            requires
                k == q * p,
                q < 0,
                p > 0,
        ;
        vstd::arithmetic::div_mod::lemma_div_multiples_vanish(-q, p);
        assert(r.magnitude as int == -q);
        assert(r.key() == -(-q) * p);
        assert(-(-q) * p == k) by (nonlinear_arith)
            requires
                k == q * p,
        ;
    } else {
        assert(k >= 0 && k == p * q) by (nonlinear_arith)
            requires
                k == q * p,
                q >= 0,
                p > 0,
        ;
        vstd::arithmetic::div_mod::lemma_div_multiples_vanish(q, p);
        assert(r.magnitude as int == q);
    }
}

/// Where the exact sum of two amounts fits, rust_decimal's `+` gives it, at a
/// scale no wider than the larger of theirs.
pub proof fn lemma_exact_sum(a: Amount, b: Amount)
    requires
        a.wf(),
        b.wf(),
        sum_fits(a, b),
    ensures
        decimal_sum(a, b).key() == a.key() + b.key(),
        decimal_sum(a, b).wf(),
        decimal_sum(a, b).scale <= max_scale(a.scale, b.scale),
{
    lemma_key_sign(a);
    lemma_key_sign(b);
    if a.magnitude != 0 && b.magnitude != 0 {
        let s = max_scale(a.scale, b.scale);
        let p = pow10(28 - s);
        vstd::arithmetic::power::lemma_pow_positive(10, (28 - s) as nat);
        lemma_key_at_scale(a, s as int);
        lemma_key_at_scale(b, s as int);
        let qa = signed_magnitude(a) * pow10(s - a.scale);
        let qb = signed_magnitude(b) * pow10(s - b.scale);
        let q = qa + qb;
        let m = magnitude_limit();
        assert(-m < q < m) by (nonlinear_arith)
            requires
                -(m * p) < qa * p + qb * p < m * p,
                q == qa + qb,
                p > 0,
        ;
        assert(qa * p + qb * p == q * p) by (nonlinear_arith)
            requires
                q == qa + qb,
        ;
        lemma_amount_of_key(q, s);
    }
}

/// Where the exact difference of two amounts fits, rust_decimal's `-` gives it,
/// at a scale no wider than the larger of theirs.
pub proof fn lemma_exact_difference(a: Amount, b: Amount)
    requires
        a.wf(),
        b.wf(),
        difference_fits(a, b),
    ensures
        decimal_difference(a, b).key() == a.key() - b.key(),
        decimal_difference(a, b).wf(),
        decimal_difference(a, b).scale <= max_scale(a.scale, b.scale),
{
    lemma_key_sign(a);
    lemma_key_sign(b);
    if a.magnitude == 0 {
        if b.magnitude != 0 {
            let p = pow10(28 - b.scale);
            let v = b.magnitude as int;
            assert((-v) * p == -(v * p)) by (nonlinear_arith);
        }
    } else if b.magnitude != 0 {
        let s = max_scale(a.scale, b.scale);
        let p = pow10(28 - s);
        vstd::arithmetic::power::lemma_pow_positive(10, (28 - s) as nat);
        lemma_key_at_scale(a, s as int);
        lemma_key_at_scale(b, s as int);
        let qa = signed_magnitude(a) * pow10(s - a.scale);
        let qb = signed_magnitude(b) * pow10(s - b.scale);
        let q = qa - qb;
        let m = magnitude_limit();
        assert(-m < q < m) by (nonlinear_arith)
            requires
                -(m * p) < qa * p - qb * p < m * p,
                q == qa - qb,
                p > 0,
        ;
        assert(qa * p - qb * p == q * p) by (nonlinear_arith)
            requires
                q == qa - qb,
        ;
        lemma_amount_of_key(q, s);
    }
}

/// The position of the first `c` in `t`, if there is one.
pub open spec fn first_index(t: Seq<char>, c: char) -> Option<int>
    decreases t.len(),
{
    if t.len() == 0 {
        None
    } else if t[0] == c {
        Some(0)
    } else {
        match first_index(t.drop_first(), c) {
            Some(i) => Some(i + 1),
            None => None,
        }
    }
}

/// The length of the leading group of digits when they are written in groups
/// of three from the right.
pub open spec fn first_group_len(n: int) -> int {
    if n <= 0 {
        0
    } else {
        (n - 1) % 3 + 1
    }
}

/// Each group of three characters with a comma in front.
pub open spec fn comma_groups(t: Seq<char>) -> Seq<char>
    decreases t.len(),
{
    if t.len() == 0 {
        seq![]
    } else if t.len() <= 3 {
        seq![','] + t
    } else {
        seq![','] + t.take(3) + comma_groups(t.skip(3))
    }
}

/// Digits in groups of three from the right, separated by commas: "1,234,567".
#[verifier::opaque]
pub open spec fn group_thousands(s: Seq<char>) -> Seq<char> {
    let f = first_group_len(s.len() as int);
    s.take(f) + comma_groups(s.skip(f))
}

/// `s` with zeros after it up to `width` characters.
pub open spec fn pad_right_zeros(s: Seq<char>, width: nat) -> Seq<char> {
    if s.len() >= width {
        s
    } else {
        s + Seq::new((width - s.len()) as nat, |i: int| '0')
    }
}

/// A number as rust_decimal writes it, split at its first point: whether it
/// starts with a minus sign, the digits before the point (without the sign),
/// and the digits after it ("00" where there is no point).
pub open spec fn split_number(t: Seq<char>) -> (bool, Seq<char>, Seq<char>) {
    let num = match first_index(t, '.') {
        Some(i) => t.take(i),
        None => t,
    };
    let frac = match first_index(t, '.') {
        Some(i) => t.skip(i + 1),
        None => seq!['0', '0'],
    };
    let negative = num.len() > 0 && num[0] == '-';
    (negative, if negative { num.skip(1) } else { num }, frac)
}

/// A number as rust_decimal writes it, laid out for people: the whole part in
/// groups of three with commas and at least two places after the point.
pub open spec fn money_layout(t: Seq<char>) -> Seq<char> {
    let (negative, int_part, frac) = split_number(t);
    (if negative { seq!['-'] } else { seq![] }) + group_thousands(int_part) + seq!['.']
        + pad_right_zeros(frac, 2)
}

/// An amount for people to read: rounded to two places (half to even),
/// written as rust_decimal writes it, and laid out by `money_layout`:
/// "-1,234.50".
pub open spec fn money_text(a: Amount) -> Seq<char> {
    money_layout(decimal_text(rounded_to_cents(a)))
}

proof fn lemma_first_index(t: Seq<char>, c: char)
    ensures
        first_index(t, c) matches Some(i) ==> 0 <= i < t.len() && t[i] == c && forall|k: int|
            0 <= k < i ==> t[k] != c,
        first_index(t, c) is None ==> forall|k: int| 0 <= k < t.len() ==> t[k] != c,
    decreases t.len(),
{
    if t.len() > 0 && t[0] != c {
        lemma_first_index(t.drop_first(), c);
        assert forall|k: int| 1 <= k < t.len() implies t[k] == t.drop_first()[k - 1] by {}
    }
}

proof fn lemma_first_index_unique(t: Seq<char>, c: char, i: int)
    requires
        0 <= i < t.len(),
        t[i] == c,
        forall|k: int| 0 <= k < i ==> t[k] != c,
    ensures
        first_index(t, c) == Some(i),
    decreases t.len(),
{
    if i > 0 {
        lemma_first_index_unique(t.drop_first(), c, i - 1);
    }
}

proof fn lemma_first_index_none(t: Seq<char>, c: char)
    requires
        forall|k: int| 0 <= k < t.len() ==> t[k] != c,
    ensures
        first_index(t, c) is None,
    decreases t.len(),
{
    if t.len() > 0 {
        lemma_first_index_none(t.drop_first(), c);
    }
}

proof fn lemma_comma_groups_push(t: Seq<char>, b: Seq<char>)
    requires
        t.len() % 3 == 0,
        b.len() == 3,
    ensures
        comma_groups(t + b) == comma_groups(t) + seq![','] + b,
    decreases t.len(),
{
    if t.len() == 0 {
        assert(t + b =~= b);
    } else {
        assert(t.len() >= 3);
        assert((t + b).take(3) =~= t.take(3));
        assert((t + b).skip(3) =~= t.skip(3) + b);
        lemma_comma_groups_push(t.skip(3), b);
        if t.len() == 3 {
            assert(t.skip(3) =~= Seq::<char>::empty());
            assert(t.take(3) =~= t);
        }
    }
}

/// The groups after the first: for a multiple of three characters, a comma at
/// every fourth place from the start and the characters in their order
/// between the commas.
proof fn lemma_comma_groups_shape(t: Seq<char>)
    requires
        t.len() % 3 == 0,
    ensures
        comma_groups(t).len() == t.len() / 3 * 4,
        forall|q: int|
            0 <= q < comma_groups(t).len() ==> #[trigger] comma_groups(t)[q] == if q % 4 == 0 {
                ','
            } else {
                t[(q / 4) * 3 + q % 4 - 1]
            },
    decreases t.len(),
{
    if t.len() == 3 {
        assert(comma_groups(t) == seq![','] + t);
    } else if t.len() > 3 {
        let rest = t.skip(3);
        lemma_comma_groups_shape(rest);
        let cg = comma_groups(t);
        assert(cg == seq![','] + t.take(3) + comma_groups(rest));
        assert forall|q: int| 0 <= q < cg.len() implies #[trigger] cg[q] == if q % 4 == 0 {
            ','
        } else {
            t[(q / 4) * 3 + q % 4 - 1]
        } by {
            if q >= 4 {
                let r = q - 4;
                assert(cg[q] == comma_groups(rest)[r]);
                assert(r / 4 == q / 4 - 1 && r % 4 == q % 4);
                if q % 4 != 0 {
                    assert(rest[(r / 4) * 3 + r % 4 - 1] == t[(q / 4) * 3 + q % 4 - 1]);
                }
            }
        }
    }
}

/// Thousands are grouped uniformly: counted from the end, every fourth
/// character is a comma and the others are the digits in their order, so the
/// leading group has one to three digits and every later group exactly three,
/// whatever the number of digits.
pub proof fn law_thousands_grouping(s: Seq<char>)
    ensures
        group_thousands(s).len() == if s.len() == 0 {
            0
        } else {
            s.len() + (s.len() - 1) / 3
        },
        forall|p: int|
            0 <= p < group_thousands(s).len() ==> (#[trigger] group_thousands(s)[p]) == if (
            group_thousands(s).len() - p) % 4 == 0 {
                ','
            } else {
                s[s.len() - 1 - (group_thousands(s).len() - 1 - p) + (group_thousands(s).len() - 1
                    - p) / 4]
            },
{
    reveal(group_thousands);
    let n = s.len() as int;
    let g = group_thousands(s);
    if n == 0 {
        assert(g =~= Seq::<char>::empty());
    } else {
        let f = (n - 1) % 3 + 1;
        let t = s.skip(f);
        let m = (n - f) / 3;
        assert(n == f + 3 * m);
        lemma_comma_groups_shape(t);
        assert(g == s.take(f) + comma_groups(t));
        assert(g.len() == f + 4 * m);
        assert forall|p: int| 0 <= p < g.len() implies (#[trigger] g[p]) == if (g.len() - p) % 4
            == 0 {
            ','
        } else {
            s[n - 1 - (g.len() - 1 - p) + (g.len() - 1 - p) / 4]
        } by {
            let d = g.len() - 1 - p;
            if p < f {
                assert(g[p] == s[p]);
                assert(d == 4 * m + (f - 1 - p));
                assert(d / 4 == m && d % 4 == f - 1 - p);
            } else {
                let q = p - f;
                assert(g[p] == comma_groups(t)[q]);
                assert(d == 4 * m - 1 - q);
                if q % 4 == 0 {
                    assert((g.len() - p) % 4 == 0);
                } else {
                    let a = q / 4;
                    let b = q % 4;
                    assert(d == 4 * (m - a - 1) + (3 - b));
                    assert(d / 4 == m - a - 1 && d % 4 == 3 - b);
                    assert(t[a * 3 + b - 1] == s[f + a * 3 + b - 1]);
                }
            }
        }
    }
}

fn push_all(out: &mut String, cs: &Vec<char>, from: usize, to: usize)
    requires
        from <= to <= cs.len(),
    ensures
        final(out)@ == old(out)@ + cs@.subrange(from as int, to as int),
{
    let mut i = from;
    while i < to
        invariant
            from <= i <= to <= cs.len(),
            out@ == old(out)@ + cs@.subrange(from as int, i as int),
        decreases to - i,
    {
        push_char(out, cs[i]);
        i = i + 1;
        assert(cs@.subrange(from as int, i as int) =~= cs@.subrange(from as int, i - 1).push(
            cs@[i - 1],
        ));
    }
}

/// Appends `cs[from..to]` in groups of three from the right, with commas.
fn push_grouped(out: &mut String, cs: &Vec<char>, from: usize, to: usize)
    requires
        from <= to <= cs.len(),
    ensures
        final(out)@ == old(out)@ + group_thousands(cs@.subrange(from as int, to as int)),
{
    let ghost s = cs@.subrange(from as int, to as int);
    let n = to - from;
    let f = if n == 0 { 0 } else { (n - 1) % 3 + 1 };
    push_all(out, cs, from, from + f);
    assert(cs@.subrange(from as int, from + f) =~= s.take(f as int));
    let ghost base = out@;
    let mut i = from + f;
    assert(s.skip(f as int).take(0) =~= Seq::<char>::empty());
    while i < to
        invariant
            from + f <= i <= to <= cs.len(),
            n == to - from,
            s == cs@.subrange(from as int, to as int),
            f == first_group_len(n as int),
            (i - from - f) % 3 == 0,
            (n - f) % 3 == 0,
            out@ == base + comma_groups(cs@.subrange(from + f, i as int)),
        decreases to - i,
    {
        let ghost before = cs@.subrange(from + f, i as int);
        push_char(out, ',');
        push_all(out, cs, i, i + 3);
        proof {
            lemma_comma_groups_push(before, cs@.subrange(i as int, i + 3));
            assert(before + cs@.subrange(i as int, i + 3) =~= cs@.subrange(from + f, i + 3));
        }
        i = i + 3;
    }
    assert(cs@.subrange(from + f, to as int) =~= s.skip(f as int));
    reveal(group_thousands);
}

/// An amount for people to read: rounded to two places, its whole part in
/// groups of three with commas, two places after the point.
pub fn format_decimal(amount: Amount) -> (r: String)
    requires
        amount.wf(),
    ensures
        r@ == money_text(amount),
{
    let rounded = amount.round_cents();
    let text = rounded.to_text();
    lay_out_money(text.as_str())
}

proof fn lemma_split_number(t: Seq<char>, dot: int)
    requires
        0 <= dot <= t.len(),
        dot < t.len() ==> t[dot] == '.',
        forall|j: int| 0 <= j < dot ==> t[j] != '.',
    ensures
        ({
            let negative = dot > 0 && t[0] == '-';
            let from: int = if negative { 1 } else { 0 };
            split_number(t) == (
                negative,
                t.subrange(from, dot),
                if dot < t.len() { t.subrange(dot + 1, t.len() as int) } else { seq!['0', '0'] },
            )
        }),
{
    if dot < t.len() {
        lemma_first_index_unique(t, '.', dot);
        assert(t.skip(dot + 1) =~= t.subrange(dot + 1, t.len() as int));
    } else {
        lemma_first_index_none(t, '.');
    }
    let num = t.take(dot);
    let negative = dot > 0 && t[0] == '-';
    if negative {
        assert(num.skip(1) =~= t.subrange(1, dot));
    } else {
        assert(num =~= t.subrange(0, dot));
    }
}

fn lay_out_money(text: &str) -> (r: String)
    ensures
        r@ == money_layout(text@),
{
    let cs = chars_of(text);
    let n = cs.len();
    let mut k: usize = 0;
    while k < n && cs[k] != '.'
        invariant
            k <= n == cs.len(),
            forall|j: int| 0 <= j < k ==> cs@[j] != '.',
        decreases n - k,
    {
        k = k + 1;
    }
    let dot = k;
    proof {
        lemma_split_number(cs@, dot as int);
    }
    let negative = dot > 0 && cs[0] == '-';
    let int_from: usize = if negative { 1 } else { 0 };
    let mut out = String::new();
    if negative {
        push_char(&mut out, '-');
    }
    push_grouped(&mut out, &cs, int_from, dot);
    push_char(&mut out, '.');
    let ghost head = out@;
    let ghost frac = split_number(cs@).2;
    if dot < n {
        push_all(&mut out, &cs, dot + 1, n);
        let frac_len = n - dot - 1;
        if frac_len == 0 {
            push_char(&mut out, '0');
            push_char(&mut out, '0');
            assert(pad_right_zeros(frac, 2) =~= frac + seq!['0', '0']);
        } else if frac_len == 1 {
            push_char(&mut out, '0');
            assert(pad_right_zeros(frac, 2) =~= frac + seq!['0']);
        }
        assert(out@ =~= head + pad_right_zeros(frac, 2));
    } else {
        push_char(&mut out, '0');
        push_char(&mut out, '0');
        assert(out@ =~= head + pad_right_zeros(frac, 2));
    }
    out
}

} // verus!
