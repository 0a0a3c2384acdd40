//! The cents datatype. Each cent is the smallest atomic unit of the asset type.

use crate::digits::all_digits;
use crate::digits::all_digits_in;
use crate::digits::decimal_digits;
use crate::digits::digits_value;
use crate::digits::is_digit;
use crate::digits::lemma_decimal_digits_of_value;
use crate::digits::lemma_digits_value_bound;
use crate::digits::lemma_padded_digits_scaled;
use crate::digits::lemma_pow10_values;
use crate::digits::lemma_value_of_decimal_digits;
use crate::digits::lemma_value_of_padded_digits;
use crate::digits::padded_digits;
use crate::digits::pow10;
use crate::digits::push_decimal;
use crate::digits::push_padded;
use crate::digits::read_digits;
use crate::digits::without_leading_zeros;
use crate::digits::zeros;
use crate::text::chars_of;
use vstd::prelude::*;
use vstd::std_specs::ops::AddSpecImpl;
use vstd::std_specs::ops::SubSpecImpl;

verus! {

/// Number of fractional decimal digits that an amount can carry.
pub const MAX_DECIMAL_PLACES: usize = 4;

/// Number of cents in one whole unit.
pub const WHOLE_MULTIPLIER: u64 = 10_000;

/// An amount of money, counted in cents.
#[derive(Debug, Copy, Clone, PartialEq, Eq, Structural)]
pub struct Cents(pub u64);

impl Cents {
    /// The amount of `cents` cents.
    pub fn new(cents: u64) -> (c: Self)
        ensures
            c == Cents(cents),
    {
        Self(cents)
    }

    /// The number of cents.
    pub fn value(&self) -> (v: u64)
        ensures
            v == self.0,
    {
        self.0
    }
}

/// The sum of two amounts, if it fits in 64 bits.
pub open spec fn checked_sum(a: Cents, b: Cents) -> Option<Cents> {
    if a.0 + b.0 <= u64::MAX {
        Some(Cents((a.0 + b.0) as u64))
    } else {
        None
    }
}

/// What is left of `a` without `b`, if `a` holds that much.
pub open spec fn checked_difference(a: Cents, b: Cents) -> Option<Cents> {
    if b.0 <= a.0 {
        Some(Cents((a.0 - b.0) as u64))
    } else {
        None
    }
}

/// Checked add: `None` exactly when the sum does not fit.
impl core::ops::Add<Cents> for Cents {
    type Output = Option<Cents>;

    fn add(self, rhs: Cents) -> (sum: Option<Cents>) {
        match self.0.checked_add(rhs.0) {
            Some(v) => Some(Cents(v)),
            None => None,
        }
    }
}

impl AddSpecImpl<Cents> for Cents {
    open spec fn obeys_add_spec() -> bool {
        true
    }

    open spec fn add_req(self, rhs: Cents) -> bool {
        true
    }

    open spec fn add_spec(self, rhs: Cents) -> Option<Cents> {
        checked_sum(self, rhs)
    }
}

/// Checked sub: `None` exactly when `rhs` is the larger amount.
impl core::ops::Sub<Cents> for Cents {
    type Output = Option<Cents>;

    fn sub(self, rhs: Cents) -> (difference: Option<Cents>) {
        match self.0.checked_sub(rhs.0) {
            Some(v) => Some(Cents(v)),
            None => None,
        }
    }
}

impl SubSpecImpl<Cents> for Cents {
    open spec fn obeys_sub_spec() -> bool {
        true
    }

    open spec fn sub_req(self, rhs: Cents) -> bool {
        true
    }

    open spec fn sub_spec(self, rhs: Cents) -> Option<Cents> {
        checked_difference(self, rhs)
    }
}

/// Sums and differences are exact or absent, never wrapped: the sum is absent
/// exactly when it does not fit in 64 bits, the difference exactly when it
/// would be negative.
pub proof fn lemma_arithmetic_is_checked(a: Cents, b: Cents)
    ensures
        match checked_sum(a, b) {
            Some(sum) => sum.0 == a.0 + b.0,
            None => a.0 + b.0 > u64::MAX,
        },
        match checked_difference(a, b) {
            Some(difference) => difference.0 == a.0 - b.0,
            None => a.0 - b.0 < 0,
        },
{
}

/// Why a text is not an amount.
#[derive(Debug, Copy, Clone, PartialEq, Eq, Structural)]
pub enum ParseError {
    /// More than `MAX_DECIMAL_PLACES` characters follow the decimal point.
    TooManyDecimalPlaces,
    /// A part of the number is missing or holds something other than digits.
    Malformed,
    /// The amount does not fit in 64 bits of cents.
    Overflow,
}

/// Where the first decimal point of `s` stands; the length of `s` if it has
/// none.
pub open spec fn point_index(s: Seq<char>) -> int
    decreases s.len(),
{
    if s.len() == 0 || s[0] == '.' {
        0
    } else {
        1 + point_index(s.drop_first())
    }
}

/// `s` holds a decimal point.
pub open spec fn has_point(s: Seq<char>) -> bool {
    point_index(s) < s.len()
}

/// What stands before the first decimal point: the whole units.
pub open spec fn whole_part(s: Seq<char>) -> Seq<char> {
    s.take(point_index(s))
}

/// What stands after the first decimal point: the fraction of a unit. Empty
/// where there is no point.
pub open spec fn decimal_part(s: Seq<char>) -> Seq<char> {
    if has_point(s) {
        s.skip(point_index(s) + 1)
    } else {
        Seq::empty()
    }
}

/// `s` is digits, optionally followed by a point and one to
/// `MAX_DECIMAL_PLACES` digits.
pub open spec fn well_formed(s: Seq<char>) -> bool {
    &&& whole_part(s).len() > 0
    &&& all_digits(whole_part(s))
    &&& has_point(s) ==> {
        &&& 0 < decimal_part(s).len() <= MAX_DECIMAL_PLACES
        &&& all_digits(decimal_part(s))
    }
}

/// The number of cents that a well-formed `s` denotes: missing decimal places
/// count as zeros.
pub open spec fn cents_value(s: Seq<char>) -> nat {
    digits_value(whole_part(s)) * WHOLE_MULTIPLIER as nat + digits_value(decimal_part(s)) * pow10(
        (MAX_DECIMAL_PLACES - decimal_part(s).len()) as nat,
    )
}

/// The amount that `s` denotes, or why it denotes none.
pub open spec fn parse_spec(s: Seq<char>) -> Result<Cents, ParseError> {
    if decimal_part(s).len() > MAX_DECIMAL_PLACES {
        Err(ParseError::TooManyDecimalPlaces)
    } else if !well_formed(s) {
        Err(ParseError::Malformed)
    } else if cents_value(s) > u64::MAX {
        Err(ParseError::Overflow)
    } else {
        Ok(Cents(cents_value(s) as u64))
    }
}

/// The text of `cents` cents: the whole units, a point, and exactly
/// `MAX_DECIMAL_PLACES` decimal places.
pub open spec fn cents_text(cents: nat) -> Seq<char> {
    decimal_digits(cents / WHOLE_MULTIPLIER as nat) + seq!['.'] + padded_digits(
        cents % WHOLE_MULTIPLIER as nat,
        MAX_DECIMAL_PLACES as nat,
    )
}

/// The text with exactly `MAX_DECIMAL_PLACES` decimal places and no needless
/// leading zero that denotes the same amount as the well-formed `s`.
pub open spec fn canonical_text(s: Seq<char>) -> Seq<char> {
    without_leading_zeros(whole_part(s)) + seq!['.'] + decimal_part(s) + zeros(
        (MAX_DECIMAL_PLACES - decimal_part(s).len()) as nat,
    )
}

/// No decimal point stands before `point_index(s)`, and one stands there
/// unless the text has none.
pub proof fn lemma_point_index(s: Seq<char>)
    ensures
        0 <= point_index(s) <= s.len(),
        forall|i: int| 0 <= i < point_index(s) ==> s[i] != '.',
        has_point(s) ==> s[point_index(s)] == '.',
    decreases s.len(),
{
    if s.len() > 0 && s[0] != '.' {
        let rest = s.drop_first();
        lemma_point_index(rest);
        assert forall|i: int| 0 <= i < point_index(s) implies s[i] != '.' by {
            if i > 0 {
                assert(rest[i - 1] == s[i]);
            }
        }
    }
}

/// Reading an amount and writing it out again gives its canonical text.
pub proof fn lemma_parse_then_write(s: Seq<char>)
    requires
        parse_spec(s) is Ok,
    ensures
        cents_text(parse_spec(s).unwrap().0 as nat) == canonical_text(s),
{
    let whole = whole_part(s);
    let decimal = decimal_part(s);
    let places = (MAX_DECIMAL_PLACES - decimal.len()) as nat;
    let units = digits_value(whole);
    let fraction = digits_value(decimal) * pow10(places);
    assert(all_digits(decimal));
    lemma_fraction_below_unit(decimal);
    lemma_decimal_digits_of_value(whole);
    lemma_padded_digits_scaled(decimal, MAX_DECIMAL_PLACES as nat);
    assert(cents_value(s) == units * 10000 + fraction);
    assert((units * 10000 + fraction) / 10000 == units && (units * 10000 + fraction) % 10000
        == fraction) by (nonlinear_arith)
        requires
            0 <= fraction < 10000,
    ;
}

/// Writing an amount out and reading it again gives the amount.
pub proof fn lemma_write_then_parse(cents: Cents)
    ensures
        parse_spec(cents_text(cents.0 as nat)) == Ok::<Cents, ParseError>(cents),
{
    let units = cents.0 as nat / WHOLE_MULTIPLIER as nat;
    let fraction = cents.0 as nat % WHOLE_MULTIPLIER as nat;
    let whole = decimal_digits(units);
    let decimal = padded_digits(fraction, MAX_DECIMAL_PLACES as nat);
    let s = cents_text(cents.0 as nat);
    lemma_value_of_decimal_digits(units);
    lemma_value_of_padded_digits(fraction, MAX_DECIMAL_PLACES as nat);
    lemma_pow10_values();
    lemma_point_index(s);
    let p = point_index(s);
    assert(s[whole.len() as int] == '.');
    assert(p == whole.len()) by {
        if p < whole.len() {
            assert(s[p] == whole[p]);
            assert(is_digit(whole[p]));
        }
    }
    assert(whole_part(s) =~= whole);
    assert(decimal_part(s) =~= decimal);
    assert(fraction % 10000 == fraction);
    assert(well_formed(s));
    assert(cents_value(s) == units * 10000 + fraction * 1);
    assert(cents_value(s) == cents.0);
}

/// A text with more than `MAX_DECIMAL_PLACES` characters after its point is
/// no amount.
pub proof fn lemma_too_many_places(s: Seq<char>)
    requires
        decimal_part(s).len() > MAX_DECIMAL_PLACES,
    ensures
        parse_spec(s) == Err::<Cents, ParseError>(ParseError::TooManyDecimalPlaces),
{
}

/// A text that is an amount holds digits and at most one decimal point, and
/// nothing else.
pub proof fn lemma_amounts_are_numeric(s: Seq<char>, i: int)
    requires
        parse_spec(s) is Ok,
        0 <= i < s.len(),
    ensures
        is_digit(s[i]) || (s[i] == '.' && i == point_index(s)),
{
    lemma_point_index(s);
    let p = point_index(s);
    if i < p {
        assert(whole_part(s)[i] == s[i]);
    } else if i > p {
        assert(decimal_part(s)[i - p - 1] == s[i]);
    }
}

/// A text that holds anything but digits and decimal points, or a second
/// decimal point, is no amount.
pub proof fn lemma_non_numeric_fails(s: Seq<char>, i: int)
    requires
        0 <= i < s.len(),
        !is_digit(s[i]),
        s[i] != '.' || i != point_index(s),
    ensures
        parse_spec(s) is Err,
{
    if parse_spec(s) is Ok {
        lemma_amounts_are_numeric(s, i);
    }
}

/// The index of the first decimal point in `s`, or its length.
fn find_point(s: &Vec<char>) -> (at: usize)
    ensures
        at == point_index(s@),
        at <= s.len(),
{
    let mut i: usize = 0;
    assert(s@.skip(0) == s@);
    while i < s.len() && s[i] != '.'
        invariant
            i <= s.len(),
            point_index(s@) == i + point_index(s@.skip(i as int)),
        decreases s.len() - i,
    {
        assert(s@.skip(i as int).drop_first() == s@.skip(i + 1));
        i += 1;
    }
    i
}

/// Ten to the power `k`, for the few `k` that decimal places need.
fn scale_of(k: usize) -> (p: u64)
    requires
        k <= MAX_DECIMAL_PLACES,
    ensures
        p == pow10(k as nat),
{
    let mut p: u64 = 1;
    let mut i: usize = 0;
    while i < k
        invariant
            i <= k <= MAX_DECIMAL_PLACES,
            p == pow10(i as nat),
            p <= WHOLE_MULTIPLIER,
        decreases k - i,
    {
        proof {
            lemma_pow10_values();
        }
        p = p * 10;
        i += 1;
    }
    p
}

/// A fraction of up to four digits, scaled to cents, stays below one unit.
proof fn lemma_fraction_below_unit(decimal: Seq<char>)
    requires
        all_digits(decimal),
        decimal.len() <= MAX_DECIMAL_PLACES,
    ensures
        digits_value(decimal) * pow10((MAX_DECIMAL_PLACES - decimal.len()) as nat)
            < WHOLE_MULTIPLIER,
{
    lemma_digits_value_bound(decimal);
    let k = decimal.len();
    let v = digits_value(decimal);
    let scale = pow10((MAX_DECIMAL_PLACES - k) as nat);
    lemma_pow10_values();
    assert(pow10(k) * scale == WHOLE_MULTIPLIER) by {
        if k == 0 {
        } else if k == 1 {
        } else if k == 2 {
        } else if k == 3 {
        } else {
            assert(k == 4);
        }
    }
    assert(v * scale < WHOLE_MULTIPLIER) by (nonlinear_arith)
        requires
            v < pow10(k),
            scale > 0,
            pow10(k) * scale == WHOLE_MULTIPLIER,
    ;
}

impl Cents {
    /// Reads an amount: digits, optionally followed by a point and one to
    /// four digits. Missing decimal places count as zeros, so `"1.1"` is
    /// 11000 cents.
    pub fn parse(text: &str) -> (r: Result<Cents, ParseError>)
        ensures
            r == parse_spec(text@),
    {
        let s = chars_of(text);
        let n = s.len();
        let point = find_point(&s);
        let decimal_places: usize = if point < n {
            n - point - 1
        } else {
            0
        };
        if decimal_places > MAX_DECIMAL_PLACES {
            return Err(ParseError::TooManyDecimalPlaces);
        }
        assert(whole_part(s@) == s@.subrange(0, point as int));
        if point == 0 || !all_digits_in(&s, 0, point) {
            return Err(ParseError::Malformed);
        }
        let whole = read_digits(&s, 0, point);
        let mut decimal_cents: u64 = 0;
        if point < n {
            assert(decimal_part(s@) == s@.subrange(point + 1, n as int));
            if decimal_places == 0 || !all_digits_in(&s, point + 1, n) {
                return Err(ParseError::Malformed);
            }
            proof {
                lemma_digits_value_bound(decimal_part(s@));
                lemma_fraction_below_unit(decimal_part(s@));
                lemma_pow10_values();
            }
            let decimal = read_digits(&s, point + 1, n).unwrap();
            let decimal_multiplier = scale_of(MAX_DECIMAL_PLACES - decimal_places);
            decimal_cents = decimal * decimal_multiplier;
        } else {
            proof {
                lemma_pow10_values();
            }
        }
        let ghost whole_value = digits_value(whole_part(s@));
        assert(cents_value(s@) == whole_value * WHOLE_MULTIPLIER + decimal_cents);
        assert(whole_value > u64::MAX ==> whole_value * WHOLE_MULTIPLIER > u64::MAX)
            by (nonlinear_arith);
        let whole_cents = match whole {
            Some(w) => w.checked_mul(WHOLE_MULTIPLIER),
            None => None,
        };
        match whole_cents {
            Some(w) => match w.checked_add(decimal_cents) {
                Some(cents) => Ok(Cents(cents)),
                None => Err(ParseError::Overflow),
            },
            None => Err(ParseError::Overflow),
        }
    }

    /// Writes the amount with exactly four decimal places, so 69 cents are
    /// `"0.0069"`.
    pub fn to_string(&self) -> (text: String)
        ensures
            text@ == cents_text(self.0 as nat),
    {
        let mut text = String::new();
        push_decimal(&mut text, self.0 / WHOLE_MULTIPLIER);
        text.append(".");
        push_padded(&mut text, self.0 % WHOLE_MULTIPLIER, MAX_DECIMAL_PLACES);
        proof {
            reveal_strlit(".");
            assert("."@ =~= seq!['.']);
        }
        text
    }
}

} // verus!
