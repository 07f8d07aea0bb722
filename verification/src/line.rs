//! Reading one line of a log: a timestamp, the channel that wrote the line,
//! and a message that may tell of leaving or joining a room.

use crate::ids::{room_of, room_text, RoomId, RoomIdView};
use crate::reading_back::all_writable;
use crate::stamp::{
    lemma_stamp_is_ascii, lemma_stamp_of_digits, read_stamp, stamp_of, Separators, STAMP_LEN,
};
use crate::text::{
    chars_of, find, first_offset, is_white_space, lemma_bytes_of_concat, lemma_first_offset,
    matches_at, occurs_at, part, trim_end, trimmed_end,
};
use vstd::prelude::*;
use vstd::utf8::{encode_utf8, is_ascii_chars_encode_utf8};

verus! {

/// What a line of the log tells of.
#[derive(Clone, Debug)]
pub enum LogEventKind {
    /// The user has left the room they were in.
    LeftRoom,
    /// The user is joining this room.
    JoiningRoom(RoomId),
}

/// What a line of the log tells of, over the view of the room.
pub enum EventView {
    LeftRoom,
    JoiningRoom(RoomIdView),
}

impl View for LogEventKind {
    type V = EventView;

    open spec fn view(&self) -> EventView {
        match self {
            LogEventKind::LeftRoom => EventView::LeftRoom,
            LogEventKind::JoiningRoom(room) => EventView::JoiningRoom(room@),
        }
    }
}

/// An event read from the log.
#[derive(Clone, Debug)]
pub struct LogEvent {
    pub kind: LogEventKind,
}

impl View for LogEvent {
    type V = EventView;

    open spec fn view(&self) -> EventView {
        self.kind@
    }
}

impl DeepView for LogEvent {
    type V = EventView;

    open spec fn deep_view(&self) -> EventView {
        self@
    }
}

/// The separators of the date and time at the start of a line.
pub open spec fn line_marks() -> Separators {
    Separators { date: '.', middle: ' ', time: ':' }
}

/// The channel whose lines are read.
pub open spec fn channel() -> Seq<char> {
    "Debug"@
}

/// What stands between the channel and the message.
pub open spec fn divider() -> Seq<char> {
    "-  "@
}

/// The message that tells of leaving a room.
pub open spec fn left_room_message() -> Seq<char> {
    "[Behaviour] Successfully left room"@
}

/// What a message that tells of joining a room begins with.
pub open spec fn joining_prefix() -> Seq<char> {
    "[Behaviour] Joining "@
}

/// The event that `message` tells of: leaving, where it is exactly the
/// message of leaving; joining, where it begins as such a message does and
/// goes on with a room's identifier; else none.
pub open spec fn message_event(message: Seq<char>) -> Option<EventView> {
    if message == left_room_message() {
        Some(EventView::LeftRoom)
    } else if occurs_at(message, 0, joining_prefix()) {
        match room_of(message.skip(joining_prefix().len() as int)) {
            Ok(room) => Some(EventView::JoiningRoom(room)),
            Err(_) => None,
        }
    } else {
        None
    }
}

/// The message of `line`, if the line begins with a real date and time and a
/// space, and what follows is, up to the first divider and but for white
/// space before it, the name of the channel. The message is what follows
/// that divider.
pub open spec fn line_message(line: Seq<char>) -> Option<Seq<char>> {
    if line.len() <= STAMP_LEN || line[STAMP_LEN as int] != ' ' || stamp_of(
        line.take(STAMP_LEN as int),
        line_marks(),
    ) is None {
        None
    } else {
        let rest = line.skip(STAMP_LEN + 1);
        match first_offset(rest, 0, divider()) {
            Some(at) => {
                if trimmed_end(rest.take(at)) == channel() {
                    Some(rest.skip(at + divider().len()))
                } else {
                    None
                }
            },
            None => None,
        }
    }
}

/// The event that `line` tells of, if it tells of one.
pub open spec fn line_event(line: Seq<char>) -> Option<EventView> {
    match line_message(line) {
        Some(message) => message_event(message),
        None => None,
    }
}

/// The number of bytes of a line up to and including the space after its
/// date and time.
pub const HEAD_LEN: usize = 20;

/// The bytes of `line` are at least twenty, and at the places of the
/// separators of the date and time, and after them, stand `.`, `.`, a
/// space, `:`, `:` and a space.
pub open spec fn head_in_shape(bytes: Seq<u8>) -> bool {
    &&& bytes.len() >= HEAD_LEN
    &&& bytes[4] == 0x2e
    &&& bytes[7] == 0x2e
    &&& bytes[10] == 0x20
    &&& bytes[13] == 0x3a
    &&& bytes[16] == 0x3a
    &&& bytes[19] == 0x20
}

/// The first twenty characters of a line that has a message are ASCII, and
/// so are its first twenty bytes, one for one.
pub proof fn lemma_head_is_ascii(line: Seq<char>)
    requires
        line_message(line) is Some,
    ensures
        line.len() >= HEAD_LEN,
        encode_utf8(line).len() >= HEAD_LEN,
        forall|i: int| 0 <= i < HEAD_LEN ==> line[i] as u8 == #[trigger] encode_utf8(line)[i],
        forall|i: int| 0 <= i < HEAD_LEN ==> #[trigger] line[i] <= '\u{7f}',
{
    let stamp = line.take(STAMP_LEN as int);
    let head = line.take(HEAD_LEN as int);
    lemma_stamp_is_ascii(stamp, line_marks());
    assert forall|i: int| 0 <= i < head.len() implies '\0' <= #[trigger] head[i] <= '\u{7f}' by {
        if i < STAMP_LEN {
            assert(head[i] == stamp[i]);
        }
    }
    is_ascii_chars_encode_utf8(head);
    lemma_bytes_of_concat(head, line.skip(HEAD_LEN as int));
    assert(head + line.skip(HEAD_LEN as int) =~= line);
    assert forall|i: int| 0 <= i < HEAD_LEN implies line[i] as u8 == #[trigger] encode_utf8(
        line,
    )[i] by {
        assert(head[i] == line[i]);
        assert(encode_utf8(head)[i] == encode_utf8(line)[i]);
    }
    assert forall|i: int| 0 <= i < HEAD_LEN implies #[trigger] line[i] <= '\u{7f}' by {
        assert(head[i] == line[i]);
    }
}

/// A line of fewer than twenty bytes, or with another byte at the place of a
/// separator of the date and time or of the space after them, tells of no
/// event.
pub proof fn lemma_misshaped_line_has_no_event(line: Seq<char>)
    requires
        !head_in_shape(encode_utf8(line)),
    ensures
        line_event(line) is None,
{
    if line_message(line) is Some {
        lemma_head_is_ascii(line);
        let stamp = line.take(STAMP_LEN as int);
        let bytes = encode_utf8(line);
        assert(stamp[4] == line[4] && stamp[7] == line[7] && stamp[10] == line[10] && stamp[13]
            == line[13] && stamp[16] == line[16]);
        assert(line[4] as u8 == bytes[4]);
        assert(line[7] as u8 == bytes[7]);
        assert(line[10] as u8 == bytes[10]);
        assert(line[13] as u8 == bytes[13]);
        assert(line[16] as u8 == bytes[16]);
        assert(line[19] as u8 == bytes[19]);
    }
}

/// A line with a real date and time and the channel, whose message is not
/// that of leaving and does not begin as that of joining does, or goes on
/// with what is no room's identifier, tells of no event.
pub proof fn lemma_unrecognized_message_has_no_event(line: Seq<char>)
    requires
        line_message(line) is Some,
        line_message(line)->0 != left_room_message(),
        !occurs_at(line_message(line)->0, 0, joining_prefix()) || room_of(
            line_message(line)->0.skip(joining_prefix().len() as int),
        ) is Err,
    ensures
        line_event(line) is None,
{
}

/// A worked example: the line that is written on leaving a room, at
/// midnight of the first day of 2024, tells of leaving a room.
pub proof fn example_line_of_leaving()
    ensures
        line_event("2024.01.01 00:00:00 Debug      -  [Behaviour] Successfully left room"@) == Some(
            EventView::LeftRoom,
        ),
{
    reveal_strlit("2024.01.01 00:00:00 Debug      -  [Behaviour] Successfully left room");
    reveal_strlit("Debug");
    reveal_strlit("-  ");
    reveal_strlit("[Behaviour] Successfully left room");
    let line = "2024.01.01 00:00:00 Debug      -  [Behaviour] Successfully left room"@;
    lemma_stamp_of_digits(line.take(STAMP_LEN as int), line_marks());
    let rest = line.skip(STAMP_LEN + 1);
    assert(rest.subrange(11, 14) =~= divider());
    assert forall|k: int| 0 <= k < 11 implies !occurs_at(rest, k, divider()) by {
        assert(rest.subrange(k, k + 3)[0] != divider()[0]);
    }
    lemma_first_offset(rest, 0, divider(), 11);
    let source = rest.take(11);
    reveal_with_fuel(trimmed_end, 8);
    let five = source.drop_last();
    let four = five.drop_last();
    let three = four.drop_last();
    let two = three.drop_last();
    let one = two.drop_last();
    let none = one.drop_last();
    assert(is_white_space(source.last()) && is_white_space(five.last()) && is_white_space(
        four.last(),
    ) && is_white_space(three.last()) && is_white_space(two.last()) && is_white_space(
        one.last(),
    ));
    assert(!is_white_space(none.last()));
    assert(none =~= channel());
    assert(rest.skip(14) =~= left_room_message());
}

/// Whether `text` is exactly `literal`.
fn is_exactly(text: &[char], literal: &[char]) -> (same: bool)
    ensures
        same == (text@ == literal@),
{
    if text.len() != literal.len() {
        return false;
    }
    let same = matches_at(text, 0, literal);
    assert(text@.subrange(0, literal@.len() as int) =~= text@);
    same
}

/// Reads the event that a message tells of. The message of joining, with a
/// room as `RoomId::to_text` writes it, tells of joining that room, as long
/// as no key of an attribute holds `~` or `(` and no value holds `~`.
pub fn parse_message(message: &[char]) -> (event: Option<LogEvent>)
    ensures
        event is Some <==> message_event(message@) is Some,
        event is Some ==> event->0@ == message_event(message@)->0,
        forall|written: RoomIdView|
            all_writable(written.instance.attributes) && message@ == joining_prefix()
                + #[trigger] room_text(written) ==> event is Some && event->0@
                == EventView::JoiningRoom(written),
{
    assert forall|written: RoomIdView|
        all_writable(written.instance.attributes) && message@ == joining_prefix()
            + #[trigger] room_text(written) implies {
        &&& message@ != left_room_message()
        &&& occurs_at(message@, 0, joining_prefix())
        &&& message@.skip(joining_prefix().len() as int) == room_text(written)
    } by {
        reveal_strlit("[Behaviour] Successfully left room");
        reveal_strlit("[Behaviour] Joining ");
        assert(message@[12] == 'J');
        assert(message@.subrange(0, joining_prefix().len() as int) =~= joining_prefix());
        assert(message@.skip(joining_prefix().len() as int) =~= room_text(written));
    }
    let left = chars_of("[Behaviour] Successfully left room");
    if is_exactly(message, left.as_slice()) {
        return Some(LogEvent { kind: LogEventKind::LeftRoom });
    }
    let joining = chars_of("[Behaviour] Joining ");
    if !matches_at(message, 0, joining.as_slice()) {
        return None;
    }
    let room_text = part(message, joining.len(), message.len());
    assert(room_text@ =~= message@.skip(joining_prefix().len() as int));
    match RoomId::parse_chars(room_text) {
        Ok(room) => Some(LogEvent { kind: LogEventKind::JoiningRoom(room) }),
        Err(_) => None,
    }
}

/// Finds the message of a line: the characters of `line` from the position
/// that is returned on.
pub fn message_start(line: &[char]) -> (start: Option<usize>)
    ensures
        start is Some <==> line_message(line@) is Some,
        start is Some ==> start->0 <= line@.len() && line_message(line@)->0 == line@.skip(
            start->0 as int,
        ),
{
    if line.len() <= STAMP_LEN || line[STAMP_LEN] != ' ' {
        return None;
    }
    let marks = Separators { date: '.', middle: ' ', time: ':' };
    let stamp = part(line, 0, STAMP_LEN);
    assert(stamp@ =~= line@.take(STAMP_LEN as int));
    if read_stamp(stamp, marks).is_none() {
        return None;
    }
    let rest = part(line, STAMP_LEN + 1, line.len());
    assert(rest@ =~= line@.skip(STAMP_LEN + 1));
    let divider = chars_of("-  ");
    let channel = chars_of("Debug");
    proof {
        reveal_strlit("-  ");
    }
    match find(rest, 0, divider.as_slice()) {
        Some(at) => {
            let source = part(rest, 0, at);
            assert(source@ =~= rest@.take(at as int));
            let kept = trim_end(source);
            if is_exactly(part(source, 0, kept), channel.as_slice()) {
                assert(source@.subrange(0, kept as int) =~= source@.take(kept as int));
                assert(rest@.skip(at + 3) =~= line@.skip(STAMP_LEN + 1 + at + 3));
                Some(STAMP_LEN + 1 + at + 3)
            } else {
                assert(source@.subrange(0, kept as int) =~= source@.take(kept as int));
                None
            }
        },
        None => None,
    }
}

/// Reads the event that the characters of a line tell of. A line whose message
/// is that of joining a room as `RoomId::to_text` writes it tells of joining
/// that room, as long as no key of an attribute holds `~` or `(` and no
/// value holds `~`.
pub fn parse_line_chars(line: &[char]) -> (event: Option<LogEvent>)
    ensures
        event is Some <==> line_event(line@) is Some,
        event is Some ==> event->0@ == line_event(line@)->0,
        forall|written: RoomIdView|
            all_writable(written.instance.attributes) && line_message(line@) == Some(
                joining_prefix() + #[trigger] room_text(written),
            ) ==> event is Some && event->0@ == EventView::JoiningRoom(written),
{
    match message_start(line) {
        Some(start) => {
            let message = part(line, start, line.len());
            assert(message@ =~= line@.skip(start as int));
            parse_message(message)
        },
        None => None,
    }
}

/// Reads the event that a line of the log tells of. The line is given
/// without the carriage return and line feed that end it. Any line that is
/// not one of the two messages of the channel tells of nothing. A line whose
/// message is that of joining a room as `RoomId::to_text` writes it tells of
/// joining that room, as long as no key of an attribute holds `~` or `(` and
/// no value holds `~`.
pub fn parse_line(line: &str) -> (event: Option<LogEvent>)
    ensures
        event is Some <==> line_event(line@) is Some,
        event is Some ==> event->0@ == line_event(line@)->0,
        forall|written: RoomIdView|
            all_writable(written.instance.attributes) && line_message(line@) == Some(
                joining_prefix() + #[trigger] room_text(written),
            ) ==> event is Some && event->0@ == EventView::JoiningRoom(written),
{
    let chars = chars_of(line);
    parse_line_chars(chars.as_slice())
}

} // verus!
