//! The names of log files: `output_log_YYYY-MM-DD_HH-MM-SS.txt`.

use crate::calendar::Timestamp;
use crate::stamp::{
    fields_are_numbers, fields_are_real, lemma_stamp_is_ascii, lemma_stamp_of,
    lemma_stamp_of_digits, read_stamp,
    separators_in_place, stamp_of, Separators, STAMP_LEN,
};
use crate::text::{chars_of, matches_at, occurs_at, part};
use vstd::prelude::*;
use vstd::utf8::{encode_utf8, is_ascii_chars, is_ascii_chars_encode_utf8};

verus! {

/// What every log file's name begins with.
pub open spec fn name_prefix() -> Seq<char> {
    "output_log_"@
}

/// What every log file's name ends with.
pub open spec fn name_suffix() -> Seq<char> {
    ".txt"@
}

/// The separators of the date and time in a log file's name.
pub open spec fn name_marks() -> Separators {
    Separators { date: '-', middle: '_', time: '-' }
}

/// The timestamp in the file name `name`: the name is the prefix, nineteen
/// characters that write a real date and time, and the suffix, with nothing
/// before, between or after them.
pub open spec fn log_file_timestamp(name: Seq<char>) -> Option<Timestamp> {
    let start = name_prefix().len() as int;
    let end = start + STAMP_LEN;
    if name.len() == end + name_suffix().len() && occurs_at(name, 0, name_prefix()) && occurs_at(
        name,
        end,
        name_suffix(),
    ) {
        stamp_of(name.subrange(start, end), name_marks())
    } else {
        None
    }
}

/// The number of characters, and of bytes, of a log file's name.
pub const NAME_LEN: usize = 34;

/// `name` is written as a log file's name is: it has the length, the prefix
/// and the suffix, the separators at their places, numbers as fields, and in
/// them a real date and time.
pub open spec fn is_log_file_name(name: Seq<char>) -> bool {
    &&& name.len() == NAME_LEN
    &&& name.subrange(0, 11) == name_prefix()
    &&& name.subrange(30, 34) == name_suffix()
    &&& separators_in_place(name.subrange(11, 30), name_marks())
    &&& fields_are_numbers(name.subrange(11, 30))
    &&& fields_are_real(name.subrange(11, 30))
}

/// A name carries a timestamp exactly if it is written as a log file's name
/// is: a name of another length, with another separator, with a field that
/// is no number or with a date or time that does not exist carries none. A
/// name that carries one is ASCII, and has as many bytes as characters.
pub proof fn lemma_log_file_names(name: Seq<char>)
    ensures
        log_file_timestamp(name) is Some <==> is_log_file_name(name),
        log_file_timestamp(name) is Some ==> log_file_timestamp(name)->0.valid(),
        log_file_timestamp(name) is Some ==> is_ascii_chars(name) && encode_utf8(name).len()
            == NAME_LEN,
{
    reveal_strlit("output_log_");
    reveal_strlit(".txt");
    let body = name.subrange(11, 30);
    lemma_stamp_of(body, name_marks());
    if log_file_timestamp(name) is Some {
        lemma_stamp_is_ascii(body, name_marks());
        assert forall|i: int| 0 <= i < name.len() implies '\0' <= #[trigger] name[i] <= '\u{7f}' by {
            if i < 11 {
                assert(name[i] == name.subrange(0, 11)[i]);
            } else if i < 30 {
                assert(name[i] == body[i - 11]);
            } else {
                assert(name[i] == name.subrange(30, 34)[i - 30]);
            }
        }
        is_ascii_chars_encode_utf8(name);
    }
}

/// A worked example: a name with the last second but one of January 2024,
/// and the same name with a thirteenth month.
pub proof fn example_log_file_names()
    ensures
        log_file_timestamp("output_log_2024-01-31_23-59-58.txt"@) == Some(
            Timestamp { year: 2024, month: 1, day: 31, hour: 23, minute: 59, second: 58 },
        ),
        log_file_timestamp("output_log_2024-13-31_23-59-58.txt"@) is None,
{
    reveal_strlit("output_log_");
    reveal_strlit(".txt");
    reveal_strlit("output_log_2024-01-31_23-59-58.txt");
    reveal_strlit("output_log_2024-13-31_23-59-58.txt");
    let name = "output_log_2024-01-31_23-59-58.txt"@;
    assert(name.subrange(0, 11) =~= name_prefix());
    assert(name.subrange(30, 34) =~= name_suffix());
    lemma_stamp_of_digits(name.subrange(11, 30), name_marks());
    let other = "output_log_2024-13-31_23-59-58.txt"@;
    lemma_stamp_of_digits(other.subrange(11, 30), name_marks());
}

/// Reads the timestamp out of a log file's name; `None` for any other name.
pub fn parse_log_file_name(name: &str) -> (stamp: Option<Timestamp>)
    ensures
        stamp == log_file_timestamp(name@),
        stamp is Some ==> stamp->0.valid(),
{
    let chars = chars_of(name);
    let prefix = chars_of("output_log_");
    let suffix = chars_of(".txt");
    proof {
        reveal_strlit("output_log_");
        reveal_strlit(".txt");
    }
    let start: usize = prefix.len();
    let end: usize = start + STAMP_LEN;
    if chars.len() != end + suffix.len() {
        return None;
    }
    if !matches_at(chars.as_slice(), 0, prefix.as_slice()) {
        return None;
    }
    if !matches_at(chars.as_slice(), end, suffix.as_slice()) {
        return None;
    }
    let marks = Separators { date: '-', middle: '_', time: '-' };
    read_stamp(part(chars.as_slice(), start, end), marks)
}

} // verus!
