use where_am_i::ids::{Attribute, IdError, InstanceId, RoomId, UserId, WorldId};

const WORLD: u128 = 0x900dd077_1337_c0fe_babe_71de05ea12c4;
const USER: u128 = 0x38116327_5a34_4fd8_ace0_21c93fb3f163;

fn check<T: std::fmt::Debug>(got: T, expected: T) {
    assert_eq!(format!("{:?}", got), format!("{:?}", expected));
}

fn attribute(key: &str, value: &str) -> Attribute {
    Attribute { key: key.to_string(), value: value.to_string() }
}

#[test]
fn a_world_is_read_from_its_tag_and_uuid() {
    assert_eq!(
        WorldId::parse("wrld_900dd077-1337-c0fe-babe-71de05ea12c4"),
        Ok(WorldId { uuid: WORLD })
    );
}

#[test]
fn a_world_is_read_from_any_form_of_uuid() {
    assert_eq!(WorldId::parse("wrld_900dd0771337c0febabe71de05ea12c4"), Ok(WorldId { uuid: WORLD }));
    assert_eq!(
        WorldId::parse("wrld_900DD077-1337-C0FE-BABE-71DE05EA12C4"),
        Ok(WorldId { uuid: WORLD })
    );
    assert_eq!(
        WorldId::parse("wrld_{900dd077-1337-c0fe-babe-71de05ea12c4}"),
        Ok(WorldId { uuid: WORLD })
    );
    assert_eq!(
        WorldId::parse("wrld_urn:uuid:900dd077-1337-c0fe-babe-71de05ea12c4"),
        Ok(WorldId { uuid: WORLD })
    );
}

#[test]
fn a_world_without_its_tag_is_refused() {
    assert_eq!(WorldId::parse("900dd077-1337-c0fe-babe-71de05ea12c4"), Err(IdError::MissingTag));
    assert_eq!(
        WorldId::parse("usr_900dd077-1337-c0fe-babe-71de05ea12c4"),
        Err(IdError::MissingTag)
    );
    assert_eq!(
        WorldId::parse("WRLD_900dd077-1337-c0fe-babe-71de05ea12c4"),
        Err(IdError::MissingTag)
    );
    assert_eq!(WorldId::parse(""), Err(IdError::MissingTag));
    assert_eq!(WorldId::parse("wrld"), Err(IdError::MissingTag));
}

#[test]
fn a_world_with_what_is_no_uuid_is_refused() {
    assert_eq!(WorldId::parse("wrld_"), Err(IdError::InvalidUuid));
    assert_eq!(
        WorldId::parse("wrld_900dd077-1337-c0fe-babe-71de05ea12c"),
        Err(IdError::InvalidUuid)
    );
    assert_eq!(
        WorldId::parse("wrld_900dd077-1337-c0fe-babe-71de05ea12cg"),
        Err(IdError::InvalidUuid)
    );
    assert_eq!(
        WorldId::parse("wrld_wrld_900dd077-1337-c0fe-babe-71de05ea12c4"),
        Err(IdError::InvalidUuid)
    );
}

#[test]
fn a_world_is_written_with_its_tag_and_hyphenated_uuid() {
    assert_eq!(WorldId { uuid: WORLD }.to_text(), "wrld_900dd077-1337-c0fe-babe-71de05ea12c4");
    assert_eq!(WorldId { uuid: 0 }.to_text(), "wrld_00000000-0000-0000-0000-000000000000");
    assert_eq!(
        WorldId { uuid: u128::MAX }.to_text(),
        "wrld_ffffffff-ffff-ffff-ffff-ffffffffffff"
    );
    assert_eq!(
        WorldId { uuid: 0x0123456789abcdef0123456789abcdef }.to_text(),
        "wrld_01234567-89ab-cdef-0123-456789abcdef"
    );
}

#[test]
fn a_written_world_is_read_back() {
    for uuid in [0, 1, WORLD, USER, u128::MAX] {
        let id = WorldId { uuid };
        assert_eq!(WorldId::parse(&id.to_text()), Ok(id));
    }
}

#[test]
fn a_user_is_read_and_written_with_its_own_tag() {
    let id = UserId { uuid: USER };
    assert_eq!(UserId::parse("usr_38116327-5a34-4fd8-ace0-21c93fb3f163"), Ok(id));
    assert_eq!(id.to_text(), "usr_38116327-5a34-4fd8-ace0-21c93fb3f163");
    assert_eq!(
        UserId::parse("wrld_38116327-5a34-4fd8-ace0-21c93fb3f163"),
        Err(IdError::MissingTag)
    );
    assert_eq!(UserId::parse("usr_nobody"), Err(IdError::InvalidUuid));
}

#[test]
fn an_instance_is_a_number() {
    check(InstanceId::parse("46115"), Ok(InstanceId { id: 46115, attributes: vec![] }));
    check(InstanceId::parse("0"), Ok(InstanceId { id: 0, attributes: vec![] }));
    check(
        InstanceId::parse("4294967295"),
        Ok(InstanceId { id: 4294967295, attributes: vec![] })
    );
}

#[test]
fn an_instance_has_its_attributes_in_the_order_written() {
    check(
        InstanceId::parse("46115~hidden(usr_38116327-5a34-4fd8-ace0-21c93fb3f163)~region(jp)"),
        Ok(InstanceId {
            id: 46115,
            attributes: vec![
                attribute("hidden", "usr_38116327-5a34-4fd8-ace0-21c93fb3f163"),
                attribute("region", "jp"),
            ],
        })
    );
}

#[test]
fn an_attribute_may_be_empty_or_hold_parentheses() {
    check(
        InstanceId::parse("1~()~k()~(v)~a(b(c))~d(e)f)"),
        Ok(InstanceId {
            id: 1,
            attributes: vec![
                attribute("", ""),
                attribute("k", ""),
                attribute("", "v"),
                attribute("a", "b(c)"),
                attribute("d", "e)f"),
            ],
        })
    );
}

#[test]
fn an_instance_whose_number_is_no_number_is_refused() {
    check(InstanceId::parse(""), Err(IdError::InvalidInstanceNumber));
    check(InstanceId::parse("abc"), Err(IdError::InvalidInstanceNumber));
    check(InstanceId::parse("-1"), Err(IdError::InvalidInstanceNumber));
    check(InstanceId::parse("4294967296"), Err(IdError::InvalidInstanceNumber));
    check(InstanceId::parse("~hidden(x)"), Err(IdError::InvalidInstanceNumber));
    check(InstanceId::parse("12 ~hidden(x)"), Err(IdError::InvalidInstanceNumber));
}

#[test]
fn an_attribute_without_a_value_is_refused() {
    check(InstanceId::parse("1~hidden"), Err(IdError::MissingValue));
    check(InstanceId::parse("1~"), Err(IdError::MissingValue));
    check(InstanceId::parse("1~a(b)~"), Err(IdError::MissingValue));
    check(InstanceId::parse("1~a(b)~~c(d)"), Err(IdError::MissingValue));
}

#[test]
fn an_attribute_whose_value_is_not_closed_is_refused() {
    check(InstanceId::parse("1~hidden(x"), Err(IdError::UnclosedValue));
    check(InstanceId::parse("1~hidden("), Err(IdError::UnclosedValue));
    check(InstanceId::parse("1~hidden(x) "), Err(IdError::UnclosedValue));
    check(InstanceId::parse("1~a(b)c"), Err(IdError::UnclosedValue));
}

#[test]
fn the_error_of_the_number_comes_before_that_of_an_attribute() {
    check(InstanceId::parse("x~hidden"), Err(IdError::InvalidInstanceNumber));
    check(InstanceId::parse("x~hidden(y"), Err(IdError::InvalidInstanceNumber));
}

#[test]
fn the_error_of_the_first_bad_attribute_is_told() {
    check(InstanceId::parse("1~a(b~c"), Err(IdError::UnclosedValue));
    check(InstanceId::parse("1~a~c(d"), Err(IdError::MissingValue));
}

#[test]
fn an_instance_is_written_as_number_and_attributes() {
    assert_eq!(InstanceId { id: 46115, attributes: vec![] }.to_text(), "46115");
    assert_eq!(
        InstanceId {
            id: 7,
            attributes: vec![attribute("hidden", "usr_1"), attribute("region", "jp")],
        }
        .to_text(),
        "7~hidden(usr_1)~region(jp)"
    );
}

#[test]
fn a_written_instance_is_read_back() {
    let id = InstanceId { id: 99, attributes: vec![attribute("b", "2"), attribute("a", "1")] };
    check(InstanceId::parse(&id.to_text()), Ok(id));
}

#[test]
fn a_room_is_a_world_and_an_instance() {
    check(
        RoomId::parse(
            "wrld_900dd077-1337-c0fe-babe-71de05ea12c4:46115~hidden(usr_38116327-5a34-4fd8-ace0-21c93fb3f163)"
        ),
        Ok(RoomId {
            world: WorldId { uuid: WORLD },
            instance: InstanceId {
                id: 46115,
                attributes: vec![attribute("hidden", "usr_38116327-5a34-4fd8-ace0-21c93fb3f163")],
            },
        })
    );
}

#[test]
fn a_room_is_cut_at_its_first_colon() {
    check(
        RoomId::parse("wrld_900dd077-1337-c0fe-babe-71de05ea12c4:1~note(a:b)"),
        Ok(RoomId {
            world: WorldId { uuid: WORLD },
            instance: InstanceId { id: 1, attributes: vec![attribute("note", "a:b")] },
        })
    );
    check(
        RoomId::parse("wrld_urn:uuid:900dd077-1337-c0fe-babe-71de05ea12c4:1"),
        Err(IdError::InvalidUuid)
    );
}

#[test]
fn a_room_without_a_colon_is_refused() {
    check(
        RoomId::parse("wrld_900dd077-1337-c0fe-babe-71de05ea12c4"),
        Err(IdError::MissingColon)
    );
    check(RoomId::parse(""), Err(IdError::MissingColon));
}

#[test]
fn the_error_of_the_world_comes_before_that_of_the_instance() {
    check(RoomId::parse("nowhere:x"), Err(IdError::MissingTag));
    check(RoomId::parse("wrld_nowhere:x"), Err(IdError::InvalidUuid));
    check(RoomId::parse(":1"), Err(IdError::MissingTag));
    check(
        RoomId::parse("wrld_900dd077-1337-c0fe-babe-71de05ea12c4:x"),
        Err(IdError::InvalidInstanceNumber)
    );
    check(
        RoomId::parse("wrld_900dd077-1337-c0fe-babe-71de05ea12c4:"),
        Err(IdError::InvalidInstanceNumber)
    );
    check(
        RoomId::parse("wrld_900dd077-1337-c0fe-babe-71de05ea12c4:1~a"),
        Err(IdError::MissingValue)
    );
}

#[test]
fn a_room_is_written_as_world_colon_instance() {
    let room = RoomId {
        world: WorldId { uuid: WORLD },
        instance: InstanceId {
            id: 46115,
            attributes: vec![attribute("hidden", "usr_38116327-5a34-4fd8-ace0-21c93fb3f163")],
        },
    };
    assert_eq!(
        room.to_text(),
        "wrld_900dd077-1337-c0fe-babe-71de05ea12c4:46115~hidden(usr_38116327-5a34-4fd8-ace0-21c93fb3f163)"
    );
    check(RoomId::parse(&room.to_text()), Ok(room));
}

#[test]
fn the_order_of_attributes_does_not_tell_instances_apart() {
    let one = InstanceId::parse("1~a(x)~b(y)").expect("an instance");
    let other = InstanceId::parse("1~b(y)~a(x)").expect("an instance");
    assert!(one.same_as(&other));
    assert!(other.same_as(&one));
    assert!(one.same_as(&one));
    assert_ne!(one.to_text(), other.to_text());
}

#[test]
fn instances_differ_by_number_or_attributes() {
    let base = InstanceId::parse("1~a(x)~b(y)").expect("an instance");
    for text in ["2~a(x)~b(y)", "1~a(x)", "1", "1~a(x)~b(z)", "1~a(x)~c(y)", "1~a(x)~b(y)~b(y)", "1~a(x)~a(x)"] {
        let other = InstanceId::parse(text).expect("an instance");
        assert!(!base.same_as(&other));
        assert!(!other.same_as(&base));
    }
}

#[test]
fn attributes_count_as_often_as_they_are_written() {
    let twice = InstanceId::parse("1~a(x)~b(y)~a(x)").expect("an instance");
    let also_twice = InstanceId::parse("1~a(x)~a(x)~b(y)").expect("an instance");
    let other_twice = InstanceId::parse("1~b(y)~a(x)~b(y)").expect("an instance");
    assert!(twice.same_as(&also_twice));
    assert!(!twice.same_as(&other_twice));
}

#[test]
fn rooms_are_the_same_by_world_and_instance() {
    let room = RoomId::parse("wrld_900dd077-1337-c0fe-babe-71de05ea12c4:1~a(x)~b(y)").expect("a room");
    let reordered =
        RoomId::parse("wrld_900dd0771337c0febabe71de05ea12c4:+1~b(y)~a(x)").expect("a room");
    let elsewhere =
        RoomId::parse("wrld_38116327-5a34-4fd8-ace0-21c93fb3f163:1~a(x)~b(y)").expect("a room");
    let other = RoomId::parse("wrld_900dd077-1337-c0fe-babe-71de05ea12c4:2~a(x)~b(y)").expect("a room");
    assert!(room.same_as(&reordered));
    assert!(!room.same_as(&elsewhere));
    assert!(!room.same_as(&other));
}

#[test]
fn the_number_of_an_instance_may_carry_a_plus_and_is_written_without_it() {
    let id = InstanceId::parse("+5~a(b)").expect("an instance");
    assert_eq!(id.id, 5);
    assert_eq!(id.to_text(), "5~a(b)");
    check(InstanceId::parse("-5"), Err(IdError::InvalidInstanceNumber));
    check(InstanceId::parse("++5"), Err(IdError::InvalidInstanceNumber));
    check(InstanceId::parse("+"), Err(IdError::InvalidInstanceNumber));
}
