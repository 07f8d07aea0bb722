use where_am_i::ids::{Attribute, InstanceId, RoomId, WorldId};
use where_am_i::line::{
    message_start, parse_line, parse_line_chars, parse_message, LogEvent, LogEventKind,
};

const WORLD: u128 = 0x900dd077_1337_c0fe_babe_71de05ea12c4;

fn check(got: Option<LogEvent>, expected: Option<LogEvent>) {
    assert_eq!(format!("{:?}", got), format!("{:?}", expected));
}

fn chars(text: &str) -> Vec<char> {
    text.chars().collect()
}

fn left_room() -> Option<LogEvent> {
    Some(LogEvent { kind: LogEventKind::LeftRoom })
}

fn joining(id: u32, attributes: Vec<(&str, &str)>) -> Option<LogEvent> {
    Some(LogEvent {
        kind: LogEventKind::JoiningRoom(RoomId {
            world: WorldId { uuid: WORLD },
            instance: InstanceId {
                id,
                attributes: attributes
                    .into_iter()
                    .map(|(key, value)| Attribute { key: key.to_string(), value: value.to_string() })
                    .collect(),
            },
        }),
    })
}

#[test]
fn the_line_of_leaving_a_room_tells_of_it() {
    check(
        parse_line("2024.01.01 00:00:00 Debug      -  [Behaviour] Successfully left room"),
        left_room()
    );
}

#[test]
fn the_line_of_joining_a_room_tells_of_the_room() {
    check(
        parse_line(
            "2024.01.01 00:00:00 Debug      -  [Behaviour] Joining wrld_900dd077-1337-c0fe-babe-71de05ea12c4:46115~hidden(usr_38116327-5a34-4fd8-ace0-21c93fb3f163)"
        ),
        joining(46115, vec![("hidden", "usr_38116327-5a34-4fd8-ace0-21c93fb3f163")])
    );
}

#[test]
fn the_room_joined_has_world_number_and_one_attribute() {
    let event = parse_line(
        "2024.01.01 00:00:00 Debug      -  [Behaviour] Joining wrld_900dd077-1337-c0fe-babe-71de05ea12c4:46115~hidden(usr_38116327-5a34-4fd8-ace0-21c93fb3f163)",
    )
    .expect("the line tells of joining");
    match event.kind {
        LogEventKind::JoiningRoom(room) => {
            assert_eq!(room.world.to_text(), "wrld_900dd077-1337-c0fe-babe-71de05ea12c4");
            assert_eq!(room.instance.id, 46115);
            assert_eq!(room.instance.attributes.len(), 1);
            assert_eq!(room.instance.attributes[0].key, "hidden");
            assert_eq!(
                room.instance.attributes[0].value,
                "usr_38116327-5a34-4fd8-ace0-21c93fb3f163"
            );
        }
        LogEventKind::LeftRoom => panic!("the line tells of joining"),
    }
}

#[test]
fn a_room_without_attributes_is_joined() {
    check(
        parse_line(
            "2024.01.01 00:00:00 Debug      -  [Behaviour] Joining wrld_900dd077-1337-c0fe-babe-71de05ea12c4:7"
        ),
        joining(7, vec![])
    );
}

#[test]
fn a_line_shorter_than_twenty_bytes_tells_nothing() {
    check(parse_line(""), None);
    check(parse_line("2024.01.01 00:00:00"), None);
    check(parse_line("2024.01.01 00:00:0 "), None);
    check(parse_line("Debug      -  [Behaviour] Successfully left room"), None);
}

#[test]
fn a_line_of_just_the_date_and_time_tells_nothing() {
    check(parse_line("2024.01.01 00:00:00 "), None);
    check(parse_line("2024.01.01 00:00:00 Debug"), None);
}

#[test]
fn a_line_with_another_separator_in_its_date_and_time_tells_nothing() {
    let rest = "Debug      -  [Behaviour] Successfully left room";
    for head in [
        "2024-01.01 00:00:00 ",
        "2024.01-01 00:00:00 ",
        "2024.01.01_00:00:00 ",
        "2024.01.01 00-00:00 ",
        "2024.01.01 00:00-00 ",
        "2024.01.01 00:00:00_",
        "2024-01-01_00-00-00 ",
        "2024.01.01T00:00:00 ",
    ] {
        check(parse_line(&format!("{}{}", head, rest)), None);
    }
}

#[test]
fn a_line_with_a_field_that_is_no_number_tells_nothing() {
    let rest = "Debug      -  [Behaviour] Successfully left room";
    for head in [
        "20x4.01.01 00:00:00 ",
        "2024.o1.01 00:00:00 ",
        "2024.01. 1 00:00:00 ",
        "2024.01.01 0 :00:00 ",
        "2024.01.01 00:.0:00 ",
        "2024.01.01 00:00:0. ",
    ] {
        check(parse_line(&format!("{}{}", head, rest)), None);
    }
}

#[test]
fn a_line_with_a_sign_in_a_field_tells_nothing() {
    let rest = "Debug      -  [Behaviour] Successfully left room";
    for head in [
        "+024.01.01 00:00:00 ",
        "-024.01.01 00:00:00 ",
        "2024.+1.01 00:00:00 ",
        "2024.01.+1 00:00:00 ",
        "2024.01.01 +0:00:00 ",
        "2024.01.01 00:+0:00 ",
        "2024.01.01 00:00:+0 ",
    ] {
        check(parse_line(&format!("{}{}", head, rest)), None);
    }
}

#[test]
fn a_line_with_a_date_or_time_that_does_not_exist_tells_nothing() {
    let rest = "Debug      -  [Behaviour] Successfully left room";
    for head in [
        "2024.13.01 00:00:00 ",
        "2024.00.01 00:00:00 ",
        "2024.01.32 00:00:00 ",
        "2023.02.29 00:00:00 ",
        "2024.01.01 24:00:00 ",
        "2024.01.01 00:60:00 ",
        "2024.01.01 00:00:60 ",
    ] {
        check(parse_line(&format!("{}{}", head, rest)), None);
    }
    check(parse_line(&format!("2024.02.29 23:59:59 {}", rest)), left_room());
}

#[test]
fn a_line_whose_twentieth_byte_is_inside_a_character_tells_nothing() {
    check(
        parse_line("2024.01.01 00:00:00\u{a0}Debug      -  [Behaviour] Successfully left room"),
        None
    );
    check(
        parse_line("2024.01.01 00:00:0\u{660} Debug      -  [Behaviour] Successfully left room"),
        None
    );
}

#[test]
fn a_line_of_another_channel_tells_nothing() {
    for channel in ["Log", "Warning", "Error", "Exception", "debug", "DEBUG", "", " Debug", "Debug."] {
        check(
            parse_line(&format!(
                "2024.01.01 00:00:00 {}      -  [Behaviour] Successfully left room",
                channel
            )),
            None
        );
    }
}

#[test]
fn the_channel_may_be_followed_by_any_white_space() {
    for gap in ["", " ", "      ", "\t", " \u{3000}\u{a0} "] {
        check(
            parse_line(&format!(
                "2024.01.01 00:00:00 Debug{}-  [Behaviour] Successfully left room",
                gap
            )),
            left_room()
        );
    }
}

#[test]
fn a_line_without_the_divider_tells_nothing() {
    check(
        parse_line("2024.01.01 00:00:00 Debug      - [Behaviour] Successfully left room"),
        None
    );
    check(
        parse_line("2024.01.01 00:00:00 Debug         [Behaviour] Successfully left room"),
        None
    );
}

#[test]
fn the_line_is_cut_at_its_first_divider() {
    check(
        parse_line("2024.01.01 00:00:00 Debug      -  -  [Behaviour] Successfully left room"),
        None
    );
    check(
        parse_line("2024.01.01 00:00:00 Log -  Debug      -  [Behaviour] Successfully left room"),
        None
    );
    check(
        parse_line("2024.01.01 00:00:00 Debug      -   [Behaviour] Successfully left room"),
        None
    );
}

#[test]
fn a_message_that_is_not_known_tells_nothing() {
    for message in [
        "",
        "[Behaviour] Successfully left room ",
        "[Behaviour] Successfully left room.",
        " [Behaviour] Successfully left room",
        "[Behaviour] successfully left room",
        "[Behaviour] Successfully joined room",
        "[Behaviour] Entering Room: The Black Cat",
        "[Behaviour] Joining or Creating Room: The Black Cat",
        "[Behaviour] Joining",
        "[Network] Joining wrld_900dd077-1337-c0fe-babe-71de05ea12c4:46115",
    ] {
        check(parse_line(&format!("2024.01.01 00:00:00 Debug      -  {}", message)), None);
    }
}

#[test]
fn joining_what_is_no_room_tells_nothing() {
    for room in [
        "",
        "wrld_900dd077-1337-c0fe-babe-71de05ea12c4",
        "wrld_900dd077-1337-c0fe-babe-71de05ea12c4:",
        "wrld_900dd077-1337-c0fe-babe-71de05ea12c4:lobby",
        "wrld_900dd077-1337-c0fe-babe-71de05ea12c4:46115~hidden",
        "wrld_900dd077-1337-c0fe-babe-71de05ea12c4:46115~hidden(usr",
        "wrld_900dd077-1337-c0fe-babe-71de05ea12c4:46115 ",
        " wrld_900dd077-1337-c0fe-babe-71de05ea12c4:46115",
        "900dd077-1337-c0fe-babe-71de05ea12c4:46115",
        "wrld_900dd077:46115",
    ] {
        check(
            parse_line(&format!("2024.01.01 00:00:00 Debug      -  [Behaviour] Joining {}", room)),
            None
        );
    }
}

#[test]
fn a_message_alone_is_read() {
    check(parse_message(&chars("[Behaviour] Successfully left room")), left_room());
    check(
        parse_message(&chars("[Behaviour] Joining wrld_900dd077-1337-c0fe-babe-71de05ea12c4:3~a(b)")),
        joining(3, vec![("a", "b")])
    );
    check(parse_message(&chars("[Behaviour] Joining nothing")), None);
    check(parse_message(&chars("")), None);
}

#[test]
fn the_message_begins_after_the_first_divider() {
    assert_eq!(message_start(&chars("2024.01.01 00:00:00 Debug      -  text")), Some(34));
    assert_eq!(message_start(&chars("2024.01.01 00:00:00 Debug-  ")), Some(28));
    assert_eq!(message_start(&chars("2024.01.01 00:00:00 Log        -  text")), None);
    assert_eq!(message_start(&chars("2024.01.01 00:00:00 Debug      text")), None);
    assert_eq!(message_start(&chars("2024.01.01 00:00:00")), None);
}

#[test]
fn the_characters_of_a_line_are_read_as_the_line_is() {
    let line = "2024.01.01 00:00:00 Debug      -  [Behaviour] Successfully left room";
    check(parse_line_chars(&chars(line)), parse_line(line));
    check(parse_line_chars(&chars("short")), None);
}

#[test]
fn the_end_of_the_line_is_no_part_of_the_message() {
    check(
        parse_line("2024.01.01 00:00:00 Debug      -  [Behaviour] Successfully left room\r\n"),
        None
    );
}
