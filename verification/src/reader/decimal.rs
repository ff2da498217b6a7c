//! Plain decimal numbers, as tag values write them: digits, with or
//! without a decimal point among them. No sign and no exponent.

use vstd::prelude::*;
use vstd::string::{is_ascii_spec_bytes, StrSliceExecFns, StringSliceAdditionalSpecFns};

verus! {

/// The ASCII code of the digit `0`.
const DIGIT_ZERO: u8 = 48;

/// The ASCII code of the digit `9`.
const DIGIT_NINE: u8 = 57;

/// The ASCII code of the decimal point.
const POINT: u8 = 46;

/// Whether a character is one of the ten digits.
pub open spec fn is_digit(c: char) -> bool {
    '0' <= c <= '9'
}

/// The number that a digit writes.
pub open spec fn digit_value(c: char) -> nat {
    (c as u32 - '0' as u32) as nat
}

/// Whether a text holds digits only.
pub open spec fn all_digits(s: Seq<char>) -> bool {
    forall|i: int| 0 <= i < s.len() ==> is_digit(#[trigger] s[i])
}

/// The number that a run of digits writes. The empty run writes zero.
pub open spec fn digits_value(s: Seq<char>) -> nat
    decreases s.len(),
{
    if s.len() == 0 {
        0
    } else {
        digits_value(s.drop_last()) * 10 + digit_value(s.last())
    }
}

/// How many digits a text starts with.
pub open spec fn leading_digits(s: Seq<char>) -> nat
    decreases s.len(),
{
    if s.len() == 0 || !is_digit(s[0]) {
        0
    } else {
        1 + leading_digits(s.drop_first())
    }
}

/// The digits before the decimal point.
pub open spec fn integer_part(s: Seq<char>) -> Seq<char> {
    s.take(leading_digits(s) as int)
}

/// What follows the character after the leading digits: in a decimal
/// number, the digits after the point.
pub open spec fn fraction_part(s: Seq<char>) -> Seq<char> {
    if leading_digits(s) < s.len() {
        s.skip(leading_digits(s) as int + 1)
    } else {
        Seq::empty()
    }
}

/// A decimal number is a run of digits, or two runs with a point between
/// them, of which one may be empty: `4`, `2.5`, `100.`, `.5`.
pub open spec fn is_decimal(s: Seq<char>) -> bool {
    &&& leading_digits(s) == s.len() || s[leading_digits(s) as int] == '.'
    &&& all_digits(fraction_part(s))
    &&& integer_part(s).len() + fraction_part(s).len() > 0
}

/// The first `places` digits after the point, with zeros where the number
/// has fewer.
pub open spec fn fraction_digits(s: Seq<char>, places: nat) -> Seq<char> {
    Seq::new(
        places,
        |i: int|
            if i < fraction_part(s).len() {
                fraction_part(s)[i]
            } else {
                '0'
            },
    )
}

/// The digits of a decimal number down to a given place after the point:
/// those before the point, then the first `places` of those after it.
pub open spec fn fixed_point_digits(s: Seq<char>, places: nat) -> Seq<char> {
    integer_part(s) + fraction_digits(s, places)
}

/// The lesser of a number and a cap.
pub open spec fn capped(value: nat, cap: u64) -> u64 {
    if value <= cap {
        value as u64
    } else {
        cap
    }
}

/// A decimal number in units of `10^-places`, rounded towards zero, and
/// `cap` where it is greater than that.
pub open spec fn fixed_point_value(s: Seq<char>, places: nat, cap: u64) -> u64 {
    capped(digits_value(fixed_point_digits(s, places)), cap)
}

/// Two more places after the point make the number a hundred times as
/// large, up to what the two further digits add: without them it is the
/// hundredth part, rounded towards zero.
pub proof fn lemma_two_places_are_a_factor_of_a_hundred(s: Seq<char>, places: nat)
    requires
        is_decimal(s),
    ensures
        digits_value(fixed_point_digits(s, places + 2)) / 100 == digits_value(
            fixed_point_digits(s, places),
        ),
{
    let short = fixed_point_digits(s, places);
    let middle = fixed_point_digits(s, places + 1);
    let long = fixed_point_digits(s, places + 2);
    assert(long.drop_last() == middle);
    assert(middle.drop_last() == short);
    assert(is_digit(long.last()) && is_digit(middle.last()));
    assert(digits_value(middle) == digits_value(short) * 10 + digit_value(middle.last()));
}

/// A text that has digits in its first `n` places and none in the next
/// starts with `n` digits.
proof fn lemma_leading_digits(s: Seq<char>, n: int)
    requires
        0 <= n <= s.len(),
        forall|i: int| 0 <= i < n ==> is_digit(#[trigger] s[i]),
        n == s.len() || !is_digit(s[n]),
    ensures
        leading_digits(s) == n,
    decreases n,
{
    if n > 0 {
        let rest = s.drop_first();
        assert forall|i: int| 0 <= i < n - 1 implies is_digit(#[trigger] rest[i]) by {}
        lemma_leading_digits(rest, n - 1);
    }
}

/// Every character of a decimal number is a digit or the point.
pub(super) proof fn lemma_decimal_is_ascii_digits_or_point(s: Seq<char>, i: int)
    requires
        is_decimal(s),
        0 <= i < s.len(),
    ensures
        is_digit(s[i]) || s[i] == '.',
{
    let n = leading_digits(s) as int;
    lemma_leading_digits_are_digits(s);
    if i > n {
        assert(s[i] == fraction_part(s)[i - n - 1]);
    }
}

/// A decimal number holds digits and at most a point, all of them ASCII.
pub(super) proof fn lemma_decimal_is_ascii(s: Seq<char>)
    requires
        is_decimal(s),
    ensures
        vstd::utf8::is_ascii_chars(s),
{
    assert forall|i: int| 0 <= i < s.len() implies '\0' <= #[trigger] s[i] <= '\u{7f}' by {
        lemma_decimal_is_ascii_digits_or_point(s, i);
    }
}

/// The digits that a text starts with are digits, and what follows them is
/// none.
proof fn lemma_leading_digits_are_digits(s: Seq<char>)
    ensures
        leading_digits(s) <= s.len(),
        forall|i: int| 0 <= i < leading_digits(s) ==> is_digit(#[trigger] s[i]),
        leading_digits(s) == s.len() || !is_digit(s[leading_digits(s) as int]),
    decreases s.len(),
{
    if s.len() > 0 && is_digit(s[0]) {
        let rest = s.drop_first();
        lemma_leading_digits_are_digits(rest);
        assert forall|i: int| 0 <= i < leading_digits(s) implies is_digit(#[trigger] s[i]) by {
            if i > 0 {
                assert(s[i] == rest[i - 1]);
            }
        }
    }
}

/// Appends one digit to a number that is held capped.
fn push_digit(
    value: u64,
    digit: u8,
    cap: u64,
    Ghost(digits): Ghost<Seq<char>>,
    Ghost(c): Ghost<char>,
) -> (next: u64)
    requires
        is_digit(c),
        digit == digit_value(c),
        value == capped(digits_value(digits), cap),
    ensures
        next == capped(digits_value(digits.push(c)), cap),
{
    assert(digits.push(c).drop_last() == digits);
    let wide: u128 = value as u128 * 10 + digit as u128;
    if wide > cap as u128 {
        cap
    } else {
        wide as u64
    }
}

/// Reads a decimal number in units of `10^-places`. Digits beyond that
/// place are dropped, and a number greater than `cap` gives `cap`.
/// A text that is no decimal number gives `None`.
pub fn parse_decimal(text: &str, places: usize, cap: u64) -> (value: Option<u64>)
    ensures
        value == if is_decimal(text@) {
            Some(fixed_point_value(text@, places as nat, cap))
        } else {
            None
        },
{
    broadcast use is_ascii_spec_bytes;

    if !text.is_ascii() {
        proof {
            if is_decimal(text@) {
                lemma_decimal_is_ascii(text@);
            }
        }
        return None;
    }
    let ghost s = text@;
    let len: usize = text.as_bytes().len();
    proof {
        is_ascii_spec_bytes(text);
    }
    // The digits before the point.
    let mut value: u64 = 0;
    let mut i: usize = 0;
    while i < len && is_ascii_digit(text.get_ascii(i))
        invariant
            text.is_ascii(),
            s == text@,
            len == s.len(),
            i <= len,
            forall|j: int| 0 <= j < i ==> is_digit(#[trigger] s[j]),
            value == capped(digits_value(s.take(i as int)), cap),
        decreases len - i,
    {
        let digit: u8 = text.get_ascii(i) - DIGIT_ZERO;
        assert(s.take(i + 1) == s.take(i as int).push(s[i as int]));
        value = push_digit(value, digit, cap, Ghost(s.take(i as int)), Ghost(s[i as int]));
        i += 1;
    }
    proof {
        lemma_leading_digits(s, i as int);
    }
    let ghost whole = integer_part(s);
    let ghost fraction = fraction_part(s);
    // The point, where the digits are not all there is.
    let mut start: usize = i;
    if i < len {
        if text.get_ascii(i) != POINT {
            return None;
        }
        start = i + 1;
    }
    if len - start == 0 && i == 0 {
        return None;
    }
    // The places after the point that count, with a zero for each that the
    // number does not have.
    let mut pos: usize = start;
    let mut k: usize = 0;
    while k < places
        invariant
            text.is_ascii(),
            s == text@,
            len == s.len(),
            whole == integer_part(s),
            fraction == fraction_part(s),
            fraction.len() == len - start,
            forall|j: int| 0 <= j < fraction.len() ==> fraction[j] == s[start + j],
            k <= places,
            start <= pos <= len,
            pos - start == if k <= len - start { k as int } else { len - start },
            forall|j: int| 0 <= j < pos - start ==> is_digit(#[trigger] fraction[j]),
            value == capped(digits_value(whole + fraction_digits(s, k as nat)), cap),
        decreases places - k,
    {
        let ghost so_far = whole + fraction_digits(s, k as nat);
        let ghost next = fraction_digits(s, (k + 1) as nat)[k as int];
        let mut digit: u8 = 0;
        if pos < len {
            let byte = text.get_ascii(pos);
            if !is_ascii_digit(byte) {
                return None;
            }
            digit = byte - DIGIT_ZERO;
            pos += 1;
        }
        assert(whole + fraction_digits(s, (k + 1) as nat) == so_far.push(next));
        value = push_digit(value, digit, cap, Ghost(so_far), Ghost(next));
        k += 1;
    }
    // The places beyond those add nothing, but they have to be digits.
    while pos < len
        invariant
            text.is_ascii(),
            s == text@,
            len == s.len(),
            fraction == fraction_part(s),
            fraction.len() == len - start,
            start <= pos <= len,
            forall|j: int| 0 <= j < fraction.len() ==> fraction[j] == s[start + j],
            forall|j: int| 0 <= j < pos - start ==> is_digit(#[trigger] fraction[j]),
        decreases len - pos,
    {
        if !is_ascii_digit(text.get_ascii(pos)) {
            assert(!is_digit(fraction[pos - start]));
            return None;
        }
        pos += 1;
    }
    Some(value)
}

/// Whether an ASCII code is that of a digit.
fn is_ascii_digit(byte: u8) -> (r: bool)
    ensures
        r == (DIGIT_ZERO <= byte <= DIGIT_NINE),
{
    DIGIT_ZERO <= byte && byte <= DIGIT_NINE
}

} // verus!
