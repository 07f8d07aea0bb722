//! Decimal integers as text.

use vstd::prelude::*;
use vstd::utf8::is_ascii_chars;

verus! {

/// `c` is one of the ten ASCII digits.
pub open spec fn is_digit(c: char) -> bool {
    '0' <= c <= '9'
}

/// The value of the digit `c`.
pub open spec fn digit_value(c: char) -> int {
    c as int - '0' as int
}

/// Every character of `s` is an ASCII digit.
pub open spec fn all_digits(s: Seq<char>) -> bool {
    forall|i: int| 0 <= i < s.len() ==> is_digit(#[trigger] s[i])
}

/// The number that the digits `s` write in base ten; zero for no digits.
pub open spec fn decimal_value(s: Seq<char>) -> int
    decreases s.len(),
{
    if s.len() == 0 {
        0
    } else {
        decimal_value(s.drop_last()) * 10 + digit_value(s.last())
    }
}

/// The value of at least one digit, or nothing.
pub open spec fn digits_number(s: Seq<char>) -> Option<int> {
    if s.len() > 0 && all_digits(s) {
        Some(decimal_value(s))
    } else {
        None
    }
}

/// The number written by `s`: digits, which a single `+` may precede.
pub open spec fn unsigned_number(s: Seq<char>) -> Option<int> {
    if s.len() > 0 && s[0] == '+' {
        digits_number(s.skip(1))
    } else {
        digits_number(s)
    }
}

/// The digits of a number never write less than a leading part of them does.
pub proof fn lemma_decimal_value_grows(s: Seq<char>, n: int)
    requires
        all_digits(s),
        0 <= n <= s.len(),
    ensures
        0 <= decimal_value(s.take(n)) <= decimal_value(s),
    decreases s.len() - n,
{
    if n == s.len() {
        assert(s.take(n) =~= s);
        lemma_decimal_value_nonnegative(s);
    } else {
        lemma_decimal_value_grows(s, n + 1);
        let longer = s.take(n + 1);
        assert(longer.drop_last() =~= s.take(n));
        lemma_decimal_value_nonnegative(s.take(n));
        assert(is_digit(longer.last()));
    }
}

/// Digits write a number that is not negative.
pub proof fn lemma_decimal_value_nonnegative(s: Seq<char>)
    requires
        all_digits(s),
    ensures
        0 <= decimal_value(s),
    decreases s.len(),
{
    if s.len() > 0 {
        lemma_decimal_value_nonnegative(s.drop_last());
        assert(is_digit(s.last()));
    }
}

/// Two digits write tens and ones.
pub proof fn lemma_two_digits(field: Seq<char>)
    requires
        field.len() == 2,
        is_digit(field[0]),
        is_digit(field[1]),
    ensures
        digits_number(field) == Some(digit_value(field[0]) * 10 + digit_value(field[1])),
{
    reveal_with_fuel(decimal_value, 3);
    assert(field.drop_last().len() == 1);
    assert(field.drop_last().drop_last().len() == 0);
    assert(field.drop_last().last() == field[0]);
}

/// Four digits write thousands, hundreds, tens and ones.
pub proof fn lemma_four_digits(field: Seq<char>)
    requires
        field.len() == 4,
        is_digit(field[0]),
        is_digit(field[1]),
        is_digit(field[2]),
        is_digit(field[3]),
    ensures
        digits_number(field) == Some(
            digit_value(field[0]) * 1000 + digit_value(field[1]) * 100 + digit_value(field[2]) * 10
                + digit_value(field[3]),
        ),
{
    reveal_with_fuel(decimal_value, 5);
    let hundreds = field.drop_last();
    let tens = hundreds.drop_last();
    let ones = tens.drop_last();
    assert(ones.drop_last().len() == 0);
    assert(hundreds.last() == field[2] && tens.last() == field[1] && ones.last() == field[0]);
}

/// Digits are ASCII.
pub proof fn lemma_digits_are_ascii(s: Seq<char>)
    requires
        all_digits(s),
    ensures
        is_ascii_chars(s),
{
    assert forall|i: int| 0 <= i < s.len() implies '\0' <= #[trigger] s[i] <= '\u{7f}' by {
        assert(is_digit(s[i]));
    }
}

/// The value of the digits `text`, if it is at most `limit`.
fn digits_up_to(text: &[char], limit: u64) -> (value: Option<u64>)
    requires
        limit <= 0xffff_ffff,
    ensures
        value is Some <==> digits_number(text@) is Some && digits_number(text@)->0 <= limit,
        value is Some ==> value->0 == digits_number(text@)->0,
{
    if text.len() == 0 {
        return None;
    }
    let mut value: u64 = 0;
    let mut i: usize = 0;
    while i < text.len()
        invariant
            i <= text.len(),
            limit <= 0xffff_ffff,
            all_digits(text@.take(i as int)),
            value == decimal_value(text@.take(i as int)),
            value <= limit,
        decreases text.len() - i,
    {
        let c: char = text[i];
        if c < '0' || c > '9' {
            assert(!is_digit(text@[i as int]));
            return None;
        }
        let digit: u64 = (c as u32 - '0' as u32) as u64;
        proof {
            let longer = text@.take(i + 1);
            assert(longer.drop_last() =~= text@.take(i as int));
            assert(longer.last() == c);
            assert(all_digits(longer)) by {
                assert forall|j: int| 0 <= j < longer.len() implies is_digit(#[trigger] longer[j]) by {
                    if j < i {
                        assert(longer[j] == text@.take(i as int)[j]);
                    }
                }
            }
        }
        value = value * 10 + digit;
        i = i + 1;
        if value > limit {
            proof {
                if all_digits(text@) {
                    lemma_decimal_value_grows(text@, i as int);
                }
            }
            return None;
        }
    }
    assert(text@.take(i as int) =~= text@);
    Some(value)
}

/// Reads `text` as a `u32` written with digits alone, at least one.
pub fn parse_digits(text: &[char]) -> (value: Option<u32>)
    ensures
        value is Some <==> digits_number(text@) is Some && digits_number(text@)->0 <= u32::MAX,
        value is Some ==> value->0 == digits_number(text@)->0,
{
    match digits_up_to(text, 0xffff_ffff) {
        Some(value) => Some(value as u32),
        None => None,
    }
}

/// Reads `text` as a `u32`: digits, which a single `+` may precede.
pub fn parse_u32(text: &[char]) -> (value: Option<u32>)
    ensures
        value is Some <==> unsigned_number(text@) is Some && unsigned_number(text@)->0
            <= u32::MAX,
        value is Some ==> value->0 == unsigned_number(text@)->0,
{
    if text.len() > 0 && text[0] == '+' {
        parse_digits(skip_first(text))
    } else {
        parse_digits(text)
    }
}

/// The digit that writes `n`.
pub open spec fn digit_char(n: int) -> char {
    ('0' as u8 + n) as u8 as char
}

/// The digits that write `n` in base ten, without leading zeros.
pub open spec fn decimal_text(n: nat) -> Seq<char>
    decreases n,
{
    if n < 10 {
        seq![digit_char(n as int)]
    } else {
        decimal_text(n / 10).push(digit_char((n % 10) as int))
    }
}

/// Appends to `out` the digits that write `n` in base ten.
pub fn push_decimal(out: &mut String, n: u32)
    ensures
        final(out)@ == old(out)@ + decimal_text(n as nat),
    decreases n,
{
    if n >= 10 {
        push_decimal(out, n / 10);
    }
    let digit: u8 = (n % 10) as u8;
    let c: char = (48u8 + digit) as char;
    out.push(c);
    proof {
        if n >= 10 {
            assert(old(out)@ + decimal_text(n as nat) =~= (old(out)@ + decimal_text((n / 10) as nat)).push(c));
        } else {
            assert(old(out)@ + decimal_text(n as nat) =~= old(out)@.push(c));
        }
    }
}

/// `text` without its first character.
fn skip_first(text: &[char]) -> (rest: &[char])
    requires
        text@.len() > 0,
    ensures
        rest@ == text@.skip(1),
{
    let rest = &text[1..text.len()];
    assert(rest@ =~= text@.skip(1));
    rest
}

} // verus!
