//! Decimal digit strings: what they denote, how they are read and written.

use crate::text::chars_of;
use vstd::arithmetic::div_mod::lemma_mod_breakdown;
use vstd::prelude::*;

verus! {

/// `c` is one of the ten ASCII decimal digits.
pub open spec fn is_digit(c: char) -> bool {
    '0' <= c && c <= '9'
}

/// The number that the digit `c` stands for.
pub open spec fn digit_value(c: char) -> nat
    recommends
        is_digit(c),
{
    (c as int - '0' as int) as nat
}

/// The digit that stands for `d`.
pub open spec fn digit_char(d: nat) -> char
    recommends
        d < 10,
{
    (d + '0' as nat) as char
}

/// Every character of `s` is a decimal digit.
pub open spec fn all_digits(s: Seq<char>) -> bool {
    forall|i: int| 0 <= i < s.len() ==> is_digit(#[trigger] s[i])
}

/// Every character of `s` is the digit zero.
pub open spec fn all_zeros(s: Seq<char>) -> bool {
    forall|i: int| 0 <= i < s.len() ==> #[trigger] s[i] == '0'
}

/// Ten to the power `k`.
pub open spec fn pow10(k: nat) -> nat
    decreases k,
{
    if k == 0 {
        1
    } else {
        10 * pow10((k - 1) as nat)
    }
}

/// The number that the digit string `s` denotes in base ten, the empty string
/// denoting zero.
pub open spec fn digits_value(s: Seq<char>) -> nat
    decreases s.len(),
{
    if s.len() == 0 {
        0
    } else {
        digits_value(s.drop_last()) * 10 + digit_value(s.last())
    }
}

/// The number that `s` denotes if it is a non-empty digit string that denotes
/// at most `max`.
pub open spec fn unsigned_value(s: Seq<char>, max: nat) -> Option<nat> {
    if s.len() > 0 && all_digits(s) && digits_value(s) <= max {
        Some(digits_value(s))
    } else {
        None
    }
}

/// The shortest digit string that denotes `n`.
pub open spec fn decimal_digits(n: nat) -> Seq<char>
    decreases n,
{
    if n < 10 {
        seq![digit_char(n)]
    } else {
        decimal_digits(n / 10).push(digit_char(n % 10))
    }
}

/// The last `width` digits of `n`, zero-padded on the left.
pub open spec fn padded_digits(n: nat, width: nat) -> Seq<char>
    decreases width,
{
    if width == 0 {
        Seq::empty()
    } else {
        padded_digits(n / 10, (width - 1) as nat).push(digit_char(n % 10))
    }
}

/// The string of `n` zeros.
pub open spec fn zeros(n: nat) -> Seq<char> {
    Seq::new(n, |i: int| '0')
}

/// `s` without the zeros it begins with; a zero that is its last character
/// stays.
pub open spec fn without_leading_zeros(s: Seq<char>) -> Seq<char>
    decreases s.len(),
{
    if s.len() > 1 && s[0] == '0' {
        without_leading_zeros(s.drop_first())
    } else {
        s
    }
}

/// Whether `c` is a decimal digit.
pub fn is_digit_char(c: char) -> (b: bool)
    ensures
        b == is_digit(c),
{
    '0' <= c && c <= '9'
}

/// The value of the digit `c`.
pub fn digit_to_u64(c: char) -> (d: u64)
    requires
        is_digit(c),
    ensures
        d == digit_value(c),
        d < 10,
{
    (c as u32 - '0' as u32) as u64
}

/// Whether `s[from..to]` holds decimal digits only.
pub fn all_digits_in(s: &Vec<char>, from: usize, to: usize) -> (b: bool)
    requires
        from <= to <= s.len(),
    ensures
        b == all_digits(s@.subrange(from as int, to as int)),
{
    let mut i: usize = from;
    while i < to
        invariant
            from <= i <= to <= s.len(),
            all_digits(s@.subrange(from as int, i as int)),
        decreases to - i,
    {
        if !is_digit_char(s[i]) {
            assert(s@.subrange(from as int, to as int)[i - from] == s@[i as int]);
            return false;
        }
        i += 1;
    }
    true
}

/// The number that the digits `s[from..to]` denote, or `None` when it does not
/// fit in 64 bits.
pub fn read_digits(s: &Vec<char>, from: usize, to: usize) -> (r: Option<u64>)
    requires
        from <= to <= s.len(),
        all_digits(s@.subrange(from as int, to as int)),
    ensures
        match r {
            Some(v) => v == digits_value(s@.subrange(from as int, to as int)),
            None => digits_value(s@.subrange(from as int, to as int)) > u64::MAX,
        },
{
    let ghost whole = s@.subrange(from as int, to as int);
    let mut acc: u64 = 0;
    let mut i: usize = from;
    while i < to
        invariant
            from <= i <= to <= s.len(),
            whole == s@.subrange(from as int, to as int),
            all_digits(whole),
            acc == digits_value(whole.take(i - from)),
        decreases to - i,
    {
        let ghost next = whole.take(i - from + 1);
        proof {
            assert(next.drop_last() == whole.take(i - from));
            assert(next.last() == s@[i as int]);
            assert(is_digit(whole[i - from]));
            lemma_prefix_value_le(whole, i - from + 1);
        }
        let d = digit_to_u64(s[i]);
        let shifted = match acc.checked_mul(10) {
            Some(v) => v,
            None => {
                return None;
            },
        };
        acc = match shifted.checked_add(d) {
            Some(v) => v,
            None => {
                return None;
            },
        };
        i += 1;
    }
    assert(whole.take(to - from) == whole);
    Some(acc)
}

/// Reads an unsigned decimal number that is at most `max`.
pub fn read_unsigned(text: &str, max: u64) -> (r: Option<u64>)
    ensures
        match r {
            Some(v) => unsigned_value(text@, max as nat) == Some(v as nat),
            None => unsigned_value(text@, max as nat) is None,
        },
{
    let s = chars_of(text);
    assert(s@.subrange(0, s.len() as int) == s@);
    if s.len() == 0 || !all_digits_in(&s, 0, s.len()) {
        return None;
    }
    match read_digits(&s, 0, s.len()) {
        Some(v) => if v <= max {
            Some(v)
        } else {
            None
        },
        None => None,
    }
}

/// The one-character text of the digit `d`.
pub fn digit_str(d: u64) -> (s: &'static str)
    requires
        d < 10,
    ensures
        s@ == seq![digit_char(d as nat)],
{
    proof {
        reveal_strlit("0");
        reveal_strlit("1");
        reveal_strlit("2");
        reveal_strlit("3");
        reveal_strlit("4");
        reveal_strlit("5");
        reveal_strlit("6");
        reveal_strlit("7");
        reveal_strlit("8");
        reveal_strlit("9");
    }
    let s = match d {
        0 => "0",
        1 => "1",
        2 => "2",
        3 => "3",
        4 => "4",
        5 => "5",
        6 => "6",
        7 => "7",
        8 => "8",
        _ => "9",
    };
    assert(s@ =~= seq![digit_char(d as nat)]);
    s
}

/// Appends the shortest decimal text of `n`.
pub fn push_decimal(out: &mut String, n: u64)
    ensures
        final(out)@ == old(out)@ + decimal_digits(n as nat),
    decreases n,
{
    if n >= 10 {
        push_decimal(out, n / 10);
    }
    out.append(digit_str(n % 10));
    assert(out@ =~= old(out)@ + decimal_digits(n as nat));
}

/// Appends the last `width` decimal digits of `n`, zero-padded on the left.
pub fn push_padded(out: &mut String, n: u64, width: usize)
    ensures
        final(out)@ == old(out)@ + padded_digits(n as nat, width as nat),
    decreases width,
{
    if width > 0 {
        push_padded(out, n / 10, width - 1);
        out.append(digit_str(n % 10));
    }
    assert(out@ =~= old(out)@ + padded_digits(n as nat, width as nat));
}

/// The powers of ten up to ten thousand.
pub proof fn lemma_pow10_values()
    ensures
        pow10(0) == 1,
        pow10(1) == 10,
        pow10(2) == 100,
        pow10(3) == 1000,
        pow10(4) == 10000,
{
    reveal_with_fuel(pow10, 5);
}

/// Powers of ten are positive.
pub proof fn lemma_pow10_positive(k: nat)
    ensures
        pow10(k) > 0,
    decreases k,
{
    if k > 0 {
        lemma_pow10_positive((k - 1) as nat);
    }
}

/// A digit and its value stand for each other.
pub proof fn lemma_digit_round_trip(c: char)
    requires
        is_digit(c),
    ensures
        digit_value(c) < 10,
        digit_char(digit_value(c)) == c,
{
}

/// A value below ten and its digit stand for each other.
pub proof fn lemma_value_round_trip(d: nat)
    requires
        d < 10,
    ensures
        is_digit(digit_char(d)),
        digit_value(digit_char(d)) == d,
{
}

/// A digit string denotes at least what any of its prefixes denotes.
pub proof fn lemma_prefix_value_le(s: Seq<char>, k: int)
    requires
        0 <= k <= s.len(),
    ensures
        digits_value(s.take(k)) <= digits_value(s),
    decreases s.len(),
{
    if k == s.len() {
        assert(s.take(k) == s);
    } else {
        assert(s.drop_last().take(k) == s.take(k));
        lemma_prefix_value_le(s.drop_last(), k);
    }
}

/// A string of `n` digits denotes less than ten to the `n`.
pub proof fn lemma_digits_value_bound(s: Seq<char>)
    requires
        all_digits(s),
    ensures
        digits_value(s) < pow10(s.len()),
    decreases s.len(),
{
    if s.len() > 0 {
        assert(is_digit(s[s.len() - 1]));
        lemma_digits_value_bound(s.drop_last());
    }
}

/// A digit string denotes zero exactly when all its digits are zeros.
pub proof fn lemma_zero_value_is_all_zeros(s: Seq<char>)
    requires
        all_digits(s),
    ensures
        digits_value(s) == 0 <==> all_zeros(s),
    decreases s.len(),
{
    if s.len() > 0 {
        let t = s.drop_last();
        lemma_zero_value_is_all_zeros(t);
        lemma_digit_round_trip(s.last());
        if all_zeros(s) {
            assert(s[s.len() - 1] == '0');
            assert forall|i: int| 0 <= i < t.len() implies #[trigger] t[i] == '0' by {
                assert(s[i] == '0');
            }
        }
        if digits_value(s) == 0 {
            assert(all_zeros(t));
            assert forall|i: int| 0 <= i < s.len() implies #[trigger] s[i] == '0' by {
                if i < t.len() {
                    assert(t[i] == '0');
                }
            }
        }
    }
}

/// Appending a digit to a string of zeros leaves the digit alone; appending
/// it to any other string appends it to what the leading zeros leave.
pub proof fn lemma_leading_zeros_before_last(t: Seq<char>, d: char)
    ensures
        without_leading_zeros(t.push(d)) == if all_zeros(t) {
            seq![d]
        } else {
            without_leading_zeros(t).push(d)
        },
    decreases t.len(),
{
    let s = t.push(d);
    if t.len() == 0 {
        assert(s =~= seq![d]);
    } else if t[0] == '0' {
        let rest = t.drop_first();
        assert(s.drop_first() =~= rest.push(d));
        lemma_leading_zeros_before_last(rest, d);
        if all_zeros(rest) {
            assert forall|i: int| 0 <= i < t.len() implies #[trigger] t[i] == '0' by {
                if i > 0 {
                    assert(rest[i - 1] == '0');
                }
            }
        } else {
            if all_zeros(t) {
                assert forall|i: int| 0 <= i < rest.len() implies #[trigger] rest[i] == '0' by {
                    assert(t[i + 1] == '0');
                }
            }
            assert(t.len() > 1) by {
                if t.len() == 1 {
                    assert(rest.len() == 0);
                }
            }
        }
    } else {
        assert(s[0] == t[0]);
    }
}

/// Writing out what a digit string denotes gives the string back, without its
/// leading zeros.
pub proof fn lemma_decimal_digits_of_value(s: Seq<char>)
    requires
        all_digits(s),
        s.len() > 0,
    ensures
        decimal_digits(digits_value(s)) == without_leading_zeros(s),
    decreases s.len(),
{
    let t = s.drop_last();
    let d = s.last();
    assert(s =~= t.push(d));
    lemma_digit_round_trip(d);
    lemma_leading_zeros_before_last(t, d);
    lemma_zero_value_is_all_zeros(t);
    if !all_zeros(t) {
        lemma_decimal_digits_of_value(t);
    }
}

/// Writing out what a digit string denotes, at the width of the string, gives
/// the string back.
pub proof fn lemma_padded_digits_of_value(s: Seq<char>)
    requires
        all_digits(s),
    ensures
        padded_digits(digits_value(s), s.len()) == s,
    decreases s.len(),
{
    if s.len() > 0 {
        let t = s.drop_last();
        lemma_digit_round_trip(s.last());
        lemma_padded_digits_of_value(t);
        assert(s =~= t.push(s.last()));
    } else {
        assert(s =~= Seq::<char>::empty());
    }
}

/// Scaling what a digit string denotes by a power of ten appends zeros.
pub proof fn lemma_padded_digits_scaled(s: Seq<char>, width: nat)
    requires
        all_digits(s),
        s.len() <= width,
    ensures
        padded_digits(digits_value(s) * pow10((width - s.len()) as nat), width) == s + zeros(
            (width - s.len()) as nat,
        ),
    decreases width,
{
    let k = (width - s.len()) as nat;
    if k == 0 {
        lemma_padded_digits_of_value(s);
        assert(s + zeros(0) =~= s);
        lemma_pow10_values();
    } else {
        let v = digits_value(s);
        let lower = v * pow10((k - 1) as nat);
        assert(v * pow10(k) == lower * 10) by (nonlinear_arith)
            requires
                pow10(k) == 10 * pow10((k - 1) as nat),
                lower == v * pow10((k - 1) as nat),
        ;
        lemma_padded_digits_scaled(s, (width - 1) as nat);
        assert(s + zeros(k) =~= (s + zeros((k - 1) as nat)).push('0'));
    }
}

/// The shortest text of a number is a non-empty digit string that denotes the
/// number.
pub proof fn lemma_value_of_decimal_digits(n: nat)
    ensures
        all_digits(decimal_digits(n)),
        decimal_digits(n).len() > 0,
        digits_value(decimal_digits(n)) == n,
    decreases n,
{
    lemma_value_round_trip(n % 10);
    assert(decimal_digits(n).last() == digit_char(n % 10));
    if n >= 10 {
        lemma_value_of_decimal_digits(n / 10);
        assert(decimal_digits(n).drop_last() =~= decimal_digits(n / 10));
    } else {
        assert(decimal_digits(n).drop_last() =~= Seq::<char>::empty());
        assert(digits_value(Seq::<char>::empty()) == 0);
    }
}

/// The padded text of a number is a digit string of the given width that
/// denotes the number, as far as the width holds it.
pub proof fn lemma_value_of_padded_digits(n: nat, width: nat)
    ensures
        all_digits(padded_digits(n, width)),
        padded_digits(n, width).len() == width,
        digits_value(padded_digits(n, width)) == n % pow10(width),
    decreases width,
{
    if width > 0 {
        lemma_value_round_trip(n % 10);
        lemma_value_of_padded_digits(n / 10, (width - 1) as nat);
        let lower = pow10((width - 1) as nat);
        assert(padded_digits(n, width).drop_last() =~= padded_digits(n / 10, (width - 1) as nat));
        assert(lower > 0) by {
            lemma_pow10_positive((width - 1) as nat);
        }
        lemma_mod_breakdown(n as int, 10, lower as int);
    }
}

} // verus!
