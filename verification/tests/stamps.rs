use where_am_i::calendar::Timestamp;
use where_am_i::stamp::{read_stamp, Separators, STAMP_LEN};

fn chars(text: &str) -> Vec<char> {
    text.chars().collect()
}

const DOTS: Separators = Separators { date: '.', middle: ' ', time: ':' };
const DASHES: Separators = Separators { date: '-', middle: '_', time: '-' };

#[test]
fn a_date_and_time_has_nineteen_characters() {
    assert_eq!(STAMP_LEN, 19);
}

#[test]
fn a_date_and_time_is_read_with_the_separators_asked_for() {
    let expected =
        Some(Timestamp { year: 2024, month: 12, day: 31, hour: 1, minute: 2, second: 3 });
    assert_eq!(read_stamp(&chars("2024.12.31 01:02:03"), DOTS), expected);
    assert_eq!(read_stamp(&chars("2024-12-31_01-02-03"), DASHES), expected);
    assert_eq!(read_stamp(&chars("2024-12-31_01-02-03"), DOTS), None);
    assert_eq!(read_stamp(&chars("2024.12.31 01:02:03"), DASHES), None);
}

#[test]
fn a_date_and_time_of_another_length_is_not_read() {
    assert_eq!(read_stamp(&chars("2024.12.31 01:02:0"), DOTS), None);
    assert_eq!(read_stamp(&chars("2024.12.31 01:02:030"), DOTS), None);
    assert_eq!(read_stamp(&chars(""), DOTS), None);
}

#[test]
fn a_date_and_time_with_a_sign_is_not_read() {
    assert_eq!(read_stamp(&chars("2024.+1.01 00:00:00"), DOTS), None);
    assert_eq!(read_stamp(&chars("-024.01.01 00:00:00"), DOTS), None);
    assert_eq!(read_stamp(&chars("2024-01-01_00-00-+0"), DASHES), None);
}
