//! Decimal text as a signed 64-bit number.

use vstd::prelude::*;
use crate::text::chars_of;

verus! {

/// Whether `c` is one of the ten decimal digits.
pub open spec fn is_digit(c: char) -> bool {
    '0' <= c <= '9'
}

/// The number that the digit `c` stands for.
pub open spec fn digit_value(c: char) -> int {
    c as int - '0' as int
}

/// Whether `text` holds decimal digits only.
pub open spec fn all_digits(text: Seq<char>) -> bool {
    forall|i: int| 0 <= i < text.len() ==> is_digit(#[trigger] text[i])
}

/// The number that a run of decimal digits writes, most significant digit first.
pub open spec fn digits_value(digits: Seq<char>) -> int
    decreases digits.len(),
{
    if digits.len() == 0 {
        0
    } else {
        10 * digits_value(digits.drop_last()) + digit_value(digits.last())
    }
}

/// Whether `text` starts with a sign.
pub open spec fn has_sign(text: Seq<char>) -> bool {
    text.len() > 0 && (text[0] == '-' || text[0] == '+')
}

/// The number that `text` writes: an optional `+` or `-`, then at least one
/// decimal digit, and a value that fits in 64 bits. Any other text writes none.
pub open spec fn decimal(text: Seq<char>) -> Option<i64> {
    let digits = if has_sign(text) { text.skip(1) } else { text };
    let magnitude = digits_value(digits);
    let value = if has_sign(text) && text[0] == '-' { -magnitude } else { magnitude };
    if digits.len() > 0 && all_digits(digits) && i64::MIN <= value <= i64::MAX {
        Some(value as i64)
    } else {
        None
    }
}

/// A run of digits writes no negative number.
pub proof fn lemma_digits_value_nonnegative(digits: Seq<char>)
    requires
        all_digits(digits),
    ensures
        digits_value(digits) >= 0,
    decreases digits.len(),
{
    if digits.len() > 0 {
        assert(is_digit(digits[digits.len() - 1]));
        lemma_digits_value_nonnegative(digits.drop_last());
    }
}

/// A run of digits writes at least what any of its prefixes writes.
pub proof fn lemma_digits_value_prefix(digits: Seq<char>, k: int)
    requires
        all_digits(digits),
        0 <= k <= digits.len(),
    ensures
        digits_value(digits.take(k)) <= digits_value(digits),
    decreases digits.len(),
{
    if k == digits.len() {
        assert(digits.take(k) =~= digits);
    } else {
        assert(is_digit(digits[digits.len() - 1]));
        assert(digits.drop_last().take(k) =~= digits.take(k));
        lemma_digits_value_prefix(digits.drop_last(), k);
        lemma_digits_value_nonnegative(digits.drop_last());
    }
}

/// The character that writes the digit `d`.
pub open spec fn digit_char(d: int) -> char {
    ('0' as int + d) as char
}

/// The digits that write `n`, most significant first, without leading zeros.
pub open spec fn digits_of(n: nat) -> Seq<char>
    decreases n,
{
    if n < 10 {
        seq![digit_char(n as int)]
    } else {
        digits_of(n / 10).push(digit_char(n as int % 10))
    }
}

/// The text that writes `number`: its digits, behind `-` where it is negative.
pub open spec fn decimal_text(number: i64) -> Seq<char> {
    if number < 0 {
        seq!['-'] + digits_of((-number) as nat)
    } else {
        digits_of(number as nat)
    }
}

/// The digits that write `n` are digits, and the number that they write is `n`.
pub proof fn lemma_digits_of(n: nat)
    ensures
        digits_of(n).len() > 0,
        all_digits(digits_of(n)),
        digits_value(digits_of(n)) == n,
    decreases n,
{
    if n < 10 {
        let digits = digits_of(n);
        assert(digits.drop_last() =~= Seq::<char>::empty());
        assert(digits_value(digits.drop_last()) == 0);
        assert(digit_value(digits.last()) == n);
    } else {
        lemma_digits_of(n / 10);
        let front = digits_of(n / 10);
        let digits = digits_of(n);
        assert(digits.drop_last() =~= front);
        assert(digit_value(digits.last()) == n as int % 10);
        assert forall|i: int| 0 <= i < digits.len() implies is_digit(#[trigger] digits[i]) by {
            if i < front.len() {
                assert(digits[i] == front[i]);
            }
        }
    }
}

/// The text that writes a number reads as that number.
pub proof fn lemma_decimal_text(number: i64)
    ensures
        decimal(decimal_text(number)) == Some(number),
{
    let text = decimal_text(number);
    if number < 0 {
        let digits = digits_of((-number) as nat);
        lemma_digits_of((-number) as nat);
        assert(text[0] == '-');
        assert(text.skip(1) =~= digits);
    } else {
        lemma_digits_of(number as nat);
        assert(is_digit(text[0]));
    }
}

/// The text that writes a number holds digits and, at most, a `-`.
pub proof fn lemma_decimal_text_plain(number: i64)
    ensures
        forall|i: int|
            0 <= i < decimal_text(number).len() ==> is_digit(#[trigger] decimal_text(number)[i])
                || decimal_text(number)[i] == '-',
{
    let text = decimal_text(number);
    if number < 0 {
        let digits = digits_of((-number) as nat);
        lemma_digits_of((-number) as nat);
        assert forall|i: int| 0 <= i < text.len() implies is_digit(#[trigger] text[i]) || text[i]
            == '-' by {
            if i > 0 {
                assert(text[i] == digits[i - 1]);
            }
        }
    } else {
        lemma_digits_of(number as nat);
    }
}

/// Reads a signed decimal number.
pub fn parse_decimal(text: &str) -> (number: Option<i64>)
    ensures
        number == decimal(text@),
{
    let chars = chars_of(text);
    let n: usize = chars.len();
    if n == 0 {
        return None;
    }
    let first = chars[0];
    let negative = first == '-';
    let start: usize = if first == '-' || first == '+' { 1 } else { 0 };
    if start == n {
        return None;
    }
    let ghost digits = if has_sign(text@) { text@.skip(1) } else { text@ };
    let mut value: i64 = 0;
    let mut i: usize = start;
    while i < n
        invariant
            start <= i <= n,
            chars@ == text@,
            n == text@.len(),
            start == (if has_sign(text@) { 1int } else { 0int }),
            negative == (has_sign(text@) && text@[0] == '-'),
            digits == (if has_sign(text@) { text@.skip(1) } else { text@ }),
            all_digits(digits.take(i - start)),
            value == (if negative { -digits_value(digits.take(i - start)) } else {
                digits_value(digits.take(i - start))
            }),
        decreases n - i,
    {
        let c = chars[i];
        assert(c == digits[i - start]);
        if !('0' <= c && c <= '9') {
            return None;
        }
        let digit: i64 = (c as u8 - '0' as u8) as i64;
        proof {
            let seen = digits.take(i - start + 1);
            assert(seen.drop_last() =~= digits.take(i - start));
            assert(seen.last() == c);
            assert(digit == digit_value(c));
            assert(all_digits(seen));
            lemma_digits_value_nonnegative(digits.take(i - start));
            if all_digits(digits) {
                lemma_digits_value_prefix(digits, i - start + 1);
            }
        }
        let step = match value.checked_mul(10) {
            Some(tenfold) => if negative {
                tenfold.checked_sub(digit)
            } else {
                tenfold.checked_add(digit)
            },
            None => None,
        };
        match step {
            Some(next) => {
                value = next;
            },
            None => {
                return None;
            },
        }
        i += 1;
    }
    assert(digits.take(i - start) =~= digits);
    Some(value)
}

} // verus!
