//! Cutting the bytes of a log file into lines, and reading the events of the
//! lines. A line ends with a carriage return followed by a line feed.

use crate::line::{line_event, parse_line, EventView, LogEvent};
use vstd::prelude::*;
use vstd::string::StringSliceAdditionalSpecFns;
use vstd::utf8::{decode_utf8, encode_utf8_decode_utf8, valid_utf8};

verus! {

/// The first byte of the end of a line.
pub const CARRIAGE_RETURN: u8 = 13;

/// The second byte of the end of a line.
pub const LINE_FEED: u8 = 10;

/// `core::str::from_utf8` gives the bytes as text exactly if they are valid
/// UTF-8, and then the text has these bytes.
#[verifier::external_body]
fn text_of(bytes: &[u8]) -> (text: Option<&str>)
    ensures
        text is Some <==> valid_utf8(bytes@),
        text is Some ==> text->0.spec_bytes() == bytes@,
{
    core::str::from_utf8(bytes).ok()
}

/// The event that the line of bytes `content` tells of: that of its text,
/// where the bytes are valid UTF-8, and none where they are not.
pub open spec fn content_event(content: Seq<u8>) -> Option<EventView> {
    if valid_utf8(content) {
        line_event(decode_utf8(content))
    } else {
        None
    }
}

/// Reads the event of one line, given as its bytes without the end of the
/// line.
pub fn decode_line(content: &[u8]) -> (event: Option<LogEvent>)
    ensures
        event is Some <==> content_event(content@) is Some,
        event is Some ==> event->0@ == content_event(content@)->0,
{
    match text_of(content) {
        Some(text) => {
            proof {
                encode_utf8_decode_utf8(text@);
            }
            parse_line(text)
        },
        None => None,
    }
}

/// A line ends at position `at` of `bytes`: there stand a carriage return and
/// a line feed.
pub open spec fn line_ends_at(bytes: Seq<u8>, at: int) -> bool {
    &&& 0 <= at
    &&& at + 1 < bytes.len()
    &&& bytes[at] == CARRIAGE_RETURN
    &&& bytes[at + 1] == LINE_FEED
}

/// The position at which the first line of `bytes` ends; the length of
/// `bytes` where no line ends in them.
pub open spec fn first_line_end(bytes: Seq<u8>) -> int
    decreases bytes.len(),
{
    if bytes.len() < 2 {
        bytes.len() as int
    } else if bytes[0] == CARRIAGE_RETURN && bytes[1] == LINE_FEED {
        0
    } else {
        1 + first_line_end(bytes.skip(1))
    }
}

/// No line ends in `bytes`.
pub open spec fn unended(bytes: Seq<u8>) -> bool {
    forall|at: int| !line_ends_at(bytes, at)
}

/// The bytes of `bytes` after the end of its last complete line: the line
/// that has not ended yet.
pub open spec fn unfinished(bytes: Seq<u8>) -> Seq<u8>
    decreases bytes.len(),
{
    let at = first_line_end(bytes);
    if 0 <= at && at + 2 <= bytes.len() {
        unfinished(bytes.skip(at + 2))
    } else {
        bytes
    }
}

/// No event or one, as a sequence.
pub open spec fn event_seq(event: Option<EventView>) -> Seq<EventView> {
    match event {
        Some(event) => seq![event],
        None => Seq::empty(),
    }
}

/// The events of the complete lines of `bytes`, in the order of the lines.
pub open spec fn events_of(bytes: Seq<u8>) -> Seq<EventView>
    decreases bytes.len(),
{
    let at = first_line_end(bytes);
    if 0 <= at && at + 2 <= bytes.len() {
        event_seq(content_event(bytes.take(at))) + events_of(bytes.skip(at + 2))
    } else {
        Seq::empty()
    }
}

/// The first end of a line is the one position at which a line ends and
/// before which none does; it is the length where no line ends.
pub proof fn lemma_first_line_end(bytes: Seq<u8>, at: int)
    requires
        0 <= at <= bytes.len(),
        forall|j: int| 0 <= j < at ==> !line_ends_at(bytes, j),
        line_ends_at(bytes, at) || (at == bytes.len() && !line_ends_at(bytes, at - 1)),
    ensures
        first_line_end(bytes) == at,
    decreases bytes.len(),
{
    if bytes.len() < 2 {
    } else if bytes[0] == CARRIAGE_RETURN && bytes[1] == LINE_FEED {
        assert(line_ends_at(bytes, 0));
    } else {
        assert(!line_ends_at(bytes, 0));
        let rest = bytes.skip(1);
        assert forall|j: int| 0 <= j < at - 1 implies !line_ends_at(rest, j) by {
            assert(!line_ends_at(bytes, j + 1));
        }
        if at < bytes.len() {
            assert(line_ends_at(rest, at - 1));
        } else {
            assert(!line_ends_at(bytes, at - 1));
            assert(!line_ends_at(rest, at - 2));
        }
        lemma_first_line_end(rest, at - 1);
    }
}

/// The first end of a line lies within the bytes, no line ends before it, and
/// one ends at it unless it is the length.
pub proof fn lemma_first_line_end_bounds(bytes: Seq<u8>)
    ensures
        0 <= first_line_end(bytes) <= bytes.len(),
        forall|j: int| 0 <= j < first_line_end(bytes) ==> !line_ends_at(bytes, j),
        first_line_end(bytes) < bytes.len() ==> line_ends_at(bytes, first_line_end(bytes)),
        first_line_end(bytes) == bytes.len() <==> unended(bytes),
    decreases bytes.len(),
{
    if bytes.len() < 2 {
    } else if bytes[0] == CARRIAGE_RETURN && bytes[1] == LINE_FEED {
        assert(line_ends_at(bytes, 0));
    } else {
        let rest = bytes.skip(1);
        lemma_first_line_end_bounds(rest);
        let at = first_line_end(bytes);
        assert forall|j: int| 0 <= j < at implies !line_ends_at(bytes, j) by {
            if j > 0 {
                assert(!line_ends_at(rest, j - 1));
            }
        }
        if at < bytes.len() {
            assert(line_ends_at(rest, at - 1));
            assert(line_ends_at(bytes, at));
        } else {
            assert forall|j: int| !line_ends_at(bytes, j) by {
                if j > 0 {
                    assert(!line_ends_at(rest, j - 1));
                }
            }
        }
    }
}

/// No line ends within the unfinished line.
pub proof fn lemma_unfinished_is_unended(bytes: Seq<u8>)
    ensures
        unended(unfinished(bytes)),
    decreases bytes.len(),
{
    let at = first_line_end(bytes);
    lemma_first_line_end_bounds(bytes);
    if at < bytes.len() {
        lemma_unfinished_is_unended(bytes.skip(at + 2));
    }
}

/// What one more byte does to the unfinished line and to the events: where
/// the byte is a line feed after a carriage return, the unfinished line ends,
/// gives its event and leaves nothing; else the byte joins the unfinished
/// line.
pub proof fn lemma_one_more_byte(bytes: Seq<u8>, byte: u8)
    ensures
        ({
            let line = unfinished(bytes);
            if line.len() > 0 && line.last() == CARRIAGE_RETURN && byte == LINE_FEED {
                &&& unfinished(bytes.push(byte)) == Seq::<u8>::empty()
                &&& events_of(bytes.push(byte)) == events_of(bytes) + event_seq(
                    content_event(line.drop_last()),
                )
            } else {
                &&& unfinished(bytes.push(byte)) == line.push(byte)
                &&& events_of(bytes.push(byte)) == events_of(bytes)
            }
        }),
    decreases bytes.len(),
{
    let at = first_line_end(bytes);
    let more = bytes.push(byte);
    lemma_first_line_end_bounds(bytes);
    if at < bytes.len() {
        assert forall|j: int| 0 <= j < at implies !line_ends_at(more, j) by {
            assert(!line_ends_at(bytes, j));
        }
        assert(line_ends_at(more, at));
        lemma_first_line_end(more, at);
        assert(more.skip(at + 2) =~= bytes.skip(at + 2).push(byte));
        assert(more.take(at) =~= bytes.take(at));
        lemma_one_more_byte(bytes.skip(at + 2), byte);
        let rest = bytes.skip(at + 2);
        let line = unfinished(rest);
        if line.len() > 0 && line.last() == CARRIAGE_RETURN && byte == LINE_FEED {
            assert(events_of(more) =~= events_of(bytes) + event_seq(
                content_event(line.drop_last()),
            ));
        } else {
            assert(events_of(more) =~= events_of(bytes));
        }
    } else {
        assert(unended(bytes));
        assert(unfinished(bytes) == bytes);
        let n = bytes.len() as int;
        if n > 0 && bytes.last() == CARRIAGE_RETURN && byte == LINE_FEED {
            assert forall|j: int| 0 <= j < n - 1 implies !line_ends_at(more, j) by {
                assert(!line_ends_at(bytes, j));
            }
            assert(line_ends_at(more, n - 1));
            lemma_first_line_end(more, n - 1);
            assert(more.skip(n - 1 + 2) =~= Seq::<u8>::empty());
            assert(more.take(n - 1) =~= bytes.drop_last());
            assert(events_of(Seq::<u8>::empty()) =~= Seq::<EventView>::empty());
            assert(unfinished(Seq::<u8>::empty()) =~= Seq::<u8>::empty());
            assert(events_of(more) =~= events_of(bytes) + event_seq(
                content_event(bytes.drop_last()),
            ));
        } else {
            assert forall|j: int| !line_ends_at(more, j) by {
                if j < n - 1 {
                    assert(!line_ends_at(bytes, j));
                }
            }
            lemma_first_line_end_bounds(more);
            assert(events_of(more) =~= events_of(bytes));
        }
    }
}

/// However the bytes of a file are cut into pieces, the events are the same
/// and none is lost or comes twice: the events of two pieces together are
/// those of the first, and then those of the second read after the line that
/// the first left unfinished.
pub proof fn lemma_events_of_pieces(first: Seq<u8>, second: Seq<u8>)
    ensures
        events_of(first + second) == events_of(first) + events_of(unfinished(first) + second),
        unfinished(first + second) == unfinished(unfinished(first) + second),
    decreases second.len(),
{
    let line = unfinished(first);
    lemma_unfinished_is_unended(first);
    lemma_first_line_end_bounds(line);
    if second.len() == 0 {
        assert(first + second =~= first);
        assert(line + second =~= line);
        assert(events_of(first) + events_of(line) =~= events_of(first));
    } else {
        let most = second.drop_last();
        let byte = second.last();
        lemma_events_of_pieces(first, most);
        assert(first + second =~= (first + most).push(byte));
        assert(line + second =~= (line + most).push(byte));
        lemma_one_more_byte(first + most, byte);
        lemma_one_more_byte(line + most, byte);
        assert(events_of(first + second) =~= events_of(first) + events_of(line + second));
    }
}

/// The views of no event or one, as a sequence.
pub open spec fn event_views(event: Option<LogEvent>) -> Seq<EventView> {
    match event {
        Some(event) => seq![event@],
        None => Seq::empty(),
    }
}

/// The bytes of a log file that were read and belong to a line that has not
/// ended yet.
#[derive(Debug)]
pub struct LineBuffer {
    pending: Vec<u8>,
}

impl View for LineBuffer {
    type V = Seq<u8>;

    closed spec fn view(&self) -> Seq<u8> {
        self.pending@
    }
}

impl LineBuffer {
    /// No line ends within the bytes that are held.
    #[verifier::type_invariant]
    spec fn holds_no_line_end(self) -> bool {
        unended(self.pending@)
    }

    /// A buffer that holds nothing.
    pub fn new() -> (buffer: LineBuffer)
        ensures
            buffer@ == Seq::<u8>::empty(),
    {
        LineBuffer { pending: Vec::new() }
    }

    /// The number of bytes of the line that has not ended yet.
    pub fn len(&self) -> (len: usize)
        ensures
            len == self@.len(),
    {
        self.pending.len()
    }

    /// Takes one more byte of the file. Where it ends a line, the event of
    /// that line is returned, if the line tells of one, and the buffer is
    /// empty again; where it does not, the byte is kept.
    pub fn push_byte(&mut self, byte: u8) -> (event: Option<LogEvent>)
        ensures
            final(self)@ == unfinished(old(self)@.push(byte)),
            event_views(event) == events_of(old(self)@.push(byte)),
            unended(final(self)@),
    {
        proof {
            use_type_invariant(&*self);
            lemma_first_line_end_bounds(self@);
            lemma_one_more_byte(self@, byte);
            lemma_unfinished_is_unended(self@.push(byte));
            assert(events_of(self@) =~= Seq::<EventView>::empty());
        }
        let mut held: Vec<u8> = Vec::new();
        core::mem::swap(&mut self.pending, &mut held);
        let len: usize = held.len();
        if byte == LINE_FEED && len > 0 && held[len - 1] == CARRIAGE_RETURN {
            held.truncate(len - 1);
            assert(held@ =~= old(self)@.drop_last());
            let event = decode_line(held.as_slice());
            held.clear();
            self.pending = held;
            assert(event_views(event) =~= event_seq(content_event(old(self)@.drop_last())));
            event
        } else {
            held.push(byte);
            self.pending = held;
            None
        }
    }

    /// Takes the next bytes of the file, and returns the events of the lines
    /// that end within them, in the order of the lines. The first of these
    /// lines begins with the bytes that the buffer held; the bytes after the
    /// last end of a line are held for the next call.
    pub fn push(&mut self, chunk: &[u8]) -> (events: Vec<LogEvent>)
        ensures
            final(self)@ == unfinished(old(self)@ + chunk@),
            events.deep_view() == events_of(old(self)@ + chunk@),
            unended(final(self)@),
    {
        let mut events: Vec<LogEvent> = Vec::new();
        let mut i: usize = 0;
        proof {
            use_type_invariant(&*self);
            lemma_first_line_end_bounds(self@);
            assert(old(self)@ + chunk@.take(0) =~= old(self)@);
            assert(events.deep_view() =~= events_of(self@));
        }
        while i < chunk.len()
            invariant
                i <= chunk.len(),
                self@ == unfinished(old(self)@ + chunk@.take(i as int)),
                events.deep_view() == events_of(old(self)@ + chunk@.take(i as int)),
            decreases chunk.len() - i,
        {
            let ghost read = old(self)@ + chunk@.take(i as int);
            let ghost before = events.deep_view();
            proof {
                lemma_events_of_pieces(read, seq![chunk@[i as int]]);
                assert(read + seq![chunk@[i as int]] =~= old(self)@ + chunk@.take(i + 1));
                assert(self@ + seq![chunk@[i as int]] =~= self@.push(chunk@[i as int]));
            }
            match self.push_byte(chunk[i]) {
                Some(event) => {
                    events.push(event);
                    assert(events.deep_view() =~= before + seq![event@]);
                },
                None => {},
            }
            i = i + 1;
        }
        assert(old(self)@ + chunk@.take(i as int) =~= old(self)@ + chunk@);
        proof {
            use_type_invariant(&*self);
        }
        events
    }
}

} // verus!
