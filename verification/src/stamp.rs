//! The nineteen characters that write a date and a time of day.

use crate::calendar::{is_calendar_date, is_clock_time, Timestamp};
use crate::number::{
    digit_value, digits_number, is_digit, lemma_digits_are_ascii, lemma_four_digits,
    lemma_two_digits, parse_digits,
};
use crate::text::part;
use vstd::prelude::*;
use vstd::utf8::is_ascii_chars;

verus! {

/// The number of characters of a written date and time.
pub const STAMP_LEN: usize = 19;

/// The characters that stand between the fields of a written date and time:
/// `date` twice between year, month and day, `middle` once between day and
/// hour, `time` twice between hour, minute and second.
#[derive(Clone, Copy, Debug)]
pub struct Separators {
    pub date: char,
    pub middle: char,
    pub time: char,
}

/// The separators stand at their places in the nineteen characters `body`.
pub open spec fn separators_in_place(body: Seq<char>, marks: Separators) -> bool {
    &&& body.len() == STAMP_LEN
    &&& body[4] == marks.date
    &&& body[7] == marks.date
    &&& body[10] == marks.middle
    &&& body[13] == marks.time
    &&& body[16] == marks.time
}

/// The timestamp that `body` writes as year, month, day, hour, minute and
/// second, of four, two, two, two, two and two digits, which all together
/// name a real date and time of day. Nothing but a digit stands in a field:
/// no sign, no space.
pub open spec fn stamp_of(body: Seq<char>, marks: Separators) -> Option<Timestamp> {
    if !separators_in_place(body, marks) {
        None
    } else {
        match (
            digits_number(body.subrange(0, 4)),
            digits_number(body.subrange(5, 7)),
            digits_number(body.subrange(8, 10)),
            digits_number(body.subrange(11, 13)),
            digits_number(body.subrange(14, 16)),
            digits_number(body.subrange(17, 19)),
        ) {
            (Some(year), Some(month), Some(day), Some(hour), Some(minute), Some(second)) => {
                if is_calendar_date(year, month, day) && is_clock_time(hour, minute, second) {
                    Some(
                        Timestamp {
                            year: year as i32,
                            month: month as u32,
                            day: day as u32,
                            hour: hour as u32,
                            minute: minute as u32,
                            second: second as u32,
                        },
                    )
                } else {
                    None
                }
            },
            _ => None,
        }
    }
}

/// The fields of the nineteen characters `body` are numbers: each of the
/// fourteen characters that are no separators is an ASCII digit.
pub open spec fn fields_are_numbers(body: Seq<char>) -> bool {
    &&& digits_number(body.subrange(0, 4)) is Some
    &&& digits_number(body.subrange(5, 7)) is Some
    &&& digits_number(body.subrange(8, 10)) is Some
    &&& digits_number(body.subrange(11, 13)) is Some
    &&& digits_number(body.subrange(14, 16)) is Some
    &&& digits_number(body.subrange(17, 19)) is Some
}

/// The numbers that the fields of `body` write name a day that exists and a
/// time of day.
pub open spec fn fields_are_real(body: Seq<char>) -> bool {
    &&& is_calendar_date(
        digits_number(body.subrange(0, 4))->0,
        digits_number(body.subrange(5, 7))->0,
        digits_number(body.subrange(8, 10))->0,
    )
    &&& is_clock_time(
        digits_number(body.subrange(11, 13))->0,
        digits_number(body.subrange(14, 16))->0,
        digits_number(body.subrange(17, 19))->0,
    )
}

/// A timestamp is read from exactly those texts that have the length, the
/// separators at their places, numbers as fields, and in them a real date
/// and time; and the timestamp read is valid.
pub proof fn lemma_stamp_of(body: Seq<char>, marks: Separators)
    ensures
        stamp_of(body, marks) is Some <==> separators_in_place(body, marks) && fields_are_numbers(
            body,
        ) && fields_are_real(body),
        stamp_of(body, marks) is Some ==> stamp_of(body, marks)->0.valid(),
{
}

/// A text of digits, with the separators at their places, writes the
/// numbers that its digits write, if they name a real date and time.
pub proof fn lemma_stamp_of_digits(body: Seq<char>, marks: Separators)
    requires
        separators_in_place(body, marks),
        forall|i: int|
            0 <= i < STAMP_LEN && i != 4 && i != 7 && i != 10 && i != 13 && i != 16 ==> is_digit(
                #[trigger] body[i],
            ),
    ensures
        fields_are_numbers(body),
        digits_number(body.subrange(0, 4)) == Some(
            digit_value(body[0]) * 1000 + digit_value(body[1]) * 100 + digit_value(body[2]) * 10
                + digit_value(body[3]),
        ),
        digits_number(body.subrange(5, 7)) == Some(
            digit_value(body[5]) * 10 + digit_value(body[6]),
        ),
        digits_number(body.subrange(8, 10)) == Some(
            digit_value(body[8]) * 10 + digit_value(body[9]),
        ),
        digits_number(body.subrange(11, 13)) == Some(
            digit_value(body[11]) * 10 + digit_value(body[12]),
        ),
        digits_number(body.subrange(14, 16)) == Some(
            digit_value(body[14]) * 10 + digit_value(body[15]),
        ),
        digits_number(body.subrange(17, 19)) == Some(
            digit_value(body[17]) * 10 + digit_value(body[18]),
        ),
{
    assert(is_digit(body[0]) && is_digit(body[1]) && is_digit(body[2]) && is_digit(body[3]));
    assert(is_digit(body[5]) && is_digit(body[6]) && is_digit(body[8]) && is_digit(body[9]));
    assert(is_digit(body[11]) && is_digit(body[12]) && is_digit(body[14]) && is_digit(body[15]));
    assert(is_digit(body[17]) && is_digit(body[18]));
    lemma_four_digits(body.subrange(0, 4));
    lemma_two_digits(body.subrange(5, 7));
    lemma_two_digits(body.subrange(8, 10));
    lemma_two_digits(body.subrange(11, 13));
    lemma_two_digits(body.subrange(14, 16));
    lemma_two_digits(body.subrange(17, 19));
}

/// In a text from which a timestamp is read, every character that is no
/// separator is an ASCII digit: a sign or a space in a field, or any other
/// character, leaves no timestamp.
pub proof fn lemma_stamp_fields_are_digits(body: Seq<char>, marks: Separators, i: int)
    requires
        stamp_of(body, marks) is Some,
        0 <= i < STAMP_LEN,
        i != 4 && i != 7 && i != 10 && i != 13 && i != 16,
    ensures
        is_digit(body[i]),
{
    if i < 4 {
        assert(body[i] == body.subrange(0, 4)[i]);
    } else if i < 7 {
        assert(body[i] == body.subrange(5, 7)[i - 5]);
    } else if i < 10 {
        assert(body[i] == body.subrange(8, 10)[i - 8]);
    } else if i < 13 {
        assert(body[i] == body.subrange(11, 13)[i - 11]);
    } else if i < 16 {
        assert(body[i] == body.subrange(14, 16)[i - 14]);
    } else {
        assert(body[i] == body.subrange(17, 19)[i - 17]);
    }
}

/// A text from which a timestamp is read is ASCII, where the separators are.
pub proof fn lemma_stamp_is_ascii(body: Seq<char>, marks: Separators)
    requires
        stamp_of(body, marks) is Some,
        marks.date <= '\u{7f}',
        marks.middle <= '\u{7f}',
        marks.time <= '\u{7f}',
    ensures
        is_ascii_chars(body),
{
    lemma_digits_are_ascii(body.subrange(0, 4));
    lemma_digits_are_ascii(body.subrange(5, 7));
    lemma_digits_are_ascii(body.subrange(8, 10));
    lemma_digits_are_ascii(body.subrange(11, 13));
    lemma_digits_are_ascii(body.subrange(14, 16));
    lemma_digits_are_ascii(body.subrange(17, 19));
    assert forall|i: int| 0 <= i < body.len() implies '\0' <= #[trigger] body[i] <= '\u{7f}' by {
        if i < 4 {
            assert(body[i] == body.subrange(0, 4)[i]);
        } else if 5 <= i < 7 {
            assert(body[i] == body.subrange(5, 7)[i - 5]);
        } else if 8 <= i < 10 {
            assert(body[i] == body.subrange(8, 10)[i - 8]);
        } else if 11 <= i < 13 {
            assert(body[i] == body.subrange(11, 13)[i - 11]);
        } else if 14 <= i < 16 {
            assert(body[i] == body.subrange(14, 16)[i - 14]);
        } else if 17 <= i < 19 {
            assert(body[i] == body.subrange(17, 19)[i - 17]);
        }
    }
}

/// Reads `body` as a date and time whose fields `marks` separate.
pub fn read_stamp(body: &[char], marks: Separators) -> (stamp: Option<Timestamp>)
    ensures
        stamp == stamp_of(body@, marks),
        stamp is Some ==> stamp->0.valid(),
{
    if body.len() != STAMP_LEN || body[4] != marks.date || body[7] != marks.date || body[10]
        != marks.middle || body[13] != marks.time || body[16] != marks.time {
        return None;
    }
    let year: i32 = match parse_digits(part(body, 0, 4)) {
        Some(year) => {
            if year > 0x7fff_ffff {
                return None;
            }
            year as i32
        },
        None => { return None; },
    };
    let month: u32 = match parse_digits(part(body, 5, 7)) {
        Some(month) => month,
        None => { return None; },
    };
    let day: u32 = match parse_digits(part(body, 8, 10)) {
        Some(day) => day,
        None => { return None; },
    };
    let hour: u32 = match parse_digits(part(body, 11, 13)) {
        Some(hour) => hour,
        None => { return None; },
    };
    let minute: u32 = match parse_digits(part(body, 14, 16)) {
        Some(minute) => minute,
        None => { return None; },
    };
    let second: u32 = match parse_digits(part(body, 17, 19)) {
        Some(second) => second,
        None => { return None; },
    };
    Timestamp::new(year, month, day, hour, minute, second)
}

} // verus!
