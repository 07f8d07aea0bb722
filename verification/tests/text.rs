use where_am_i::text::{
    chars_of, find, is_whitespace, matches_at, part, position_of, string_of, trim_end,
};

fn chars(text: &str) -> Vec<char> {
    text.chars().collect()
}

#[test]
fn the_characters_of_a_text_come_in_order() {
    assert_eq!(chars_of("a\u{e9}\u{3000}z"), vec!['a', '\u{e9}', '\u{3000}', 'z']);
    assert_eq!(chars_of(""), Vec::<char>::new());
}

#[test]
fn characters_make_the_text_they_came_from() {
    assert_eq!(string_of(&chars("hidden(usr)")), "hidden(usr)");
    assert_eq!(string_of(&chars("")), "");
    assert_eq!(string_of(&chars_of("gr\u{fc}n")), "gr\u{fc}n");
}

#[test]
fn a_pattern_matches_only_where_it_stands() {
    let text = chars("Debug      -  [Behaviour]");
    assert!(matches_at(&text, 0, &chars("Debug")));
    assert!(!matches_at(&text, 1, &chars("Debug")));
    assert!(matches_at(&text, 11, &chars("-  ")));
    assert!(matches_at(&text, 25, &chars("")));
    assert!(!matches_at(&text, 26, &chars("")));
    assert!(!matches_at(&text, 20, &chars("aviour]x")));
}

#[test]
fn the_first_occurrence_is_found() {
    let text = chars("a-  b-  c");
    assert_eq!(find(&text, 0, &chars("-  ")), Some(1));
    assert_eq!(find(&text, 2, &chars("-  ")), Some(5));
    assert_eq!(find(&text, 6, &chars("-  ")), None);
    assert_eq!(find(&text, 0, &chars("-   ")), None);
    assert_eq!(find(&text, 0, &chars("")), Some(0));
    assert_eq!(find(&text, 9, &chars("")), Some(9));
    assert_eq!(find(&text, 10, &chars("")), None);
}

#[test]
fn the_position_of_a_mark_is_that_of_the_first() {
    assert_eq!(position_of(&chars("46115~a(b)~c(d)"), '~'), 5);
    assert_eq!(position_of(&chars("~x"), '~'), 0);
    assert_eq!(position_of(&chars("46115"), '~'), 5);
    assert_eq!(position_of(&chars(""), '~'), 0);
}

#[test]
fn a_part_is_cut_out_by_its_positions() {
    let text = chars("0123456789");
    assert_eq!(part(&text, 2, 5), &['2', '3', '4'][..]);
    assert_eq!(part(&text, 10, 10), &[][..]);
    assert_eq!(part(&text, 0, 10), &text[..]);
}

#[test]
fn white_space_is_what_unicode_says_it_is() {
    for c in [
        '\t', '\n', '\u{b}', '\u{c}', '\r', ' ', '\u{85}', '\u{a0}', '\u{1680}', '\u{2000}',
        '\u{2005}', '\u{200a}', '\u{2028}', '\u{2029}', '\u{202f}', '\u{205f}', '\u{3000}',
    ] {
        assert!(is_whitespace(c));
    }
    for c in ['a', '0', '-', '\u{8}', '\u{e}', '\u{1f}', '\u{200b}', '\u{180e}', '\u{feff}'] {
        assert!(!is_whitespace(c));
    }
}

#[test]
fn white_space_is_told_as_the_standard_library_tells_it() {
    let mut code: u32 = 0;
    while code <= 0x10ffff {
        if let Some(c) = char::from_u32(code) {
            assert_eq!(is_whitespace(c), c.is_whitespace());
        }
        code += 1;
    }
}

#[test]
fn white_space_at_the_end_is_trimmed() {
    assert_eq!(trim_end(&chars("Debug      ")), 5);
    assert_eq!(trim_end(&chars("Debug")), 5);
    assert_eq!(trim_end(&chars("  Debug \t\u{3000}")), 7);
    assert_eq!(trim_end(&chars("   ")), 0);
    assert_eq!(trim_end(&chars("")), 0);
}
