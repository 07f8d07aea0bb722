//! Following a file that grows: what to do after each attempt to read more
//! of it. The end of the file is never the end of the stream; a read that
//! brings nothing is tried again after a fixed time.

use vstd::prelude::*;

verus! {

/// The time to wait after a read that brought nothing, in milliseconds.
pub const POLL_INTERVAL_MILLIS: u64 = 100;

/// What a timer does about ticks that it could not deliver in time.
#[derive(Clone, Copy, Debug, PartialEq, Eq, Structural)]
pub enum MissedTicks {
    /// Deliver them all at once, as fast as they can be taken.
    Burst,
    /// Deliver the next tick a full interval after the late one.
    Delay,
    /// Drop them, and keep to the schedule set at the start.
    Skip,
}

/// How the timer of a reader is set up.
#[derive(Clone, Copy, Debug, PartialEq, Eq, Structural)]
pub struct TimerPolicy {
    pub interval_millis: u64,
    pub missed_ticks: MissedTicks,
}

/// The timer of a reader: it ticks every tenth of a second, and a tick that
/// comes late pushes the following ones back, so that ticks never come in a
/// burst.
pub fn timer_policy() -> (policy: TimerPolicy)
    ensures
        policy == (TimerPolicy {
            interval_millis: POLL_INTERVAL_MILLIS,
            missed_ticks: MissedTicks::Delay,
        }),
{
    TimerPolicy { interval_millis: POLL_INTERVAL_MILLIS, missed_ticks: MissedTicks::Delay }
}

/// What an attempt to read from the file came to.
#[derive(Debug, PartialEq, Eq)]
pub enum ReadOutcome<E> {
    /// The file is not ready to be read.
    Pending,
    /// Reading failed.
    Failed(E),
    /// The read returned; `filled` bytes of the buffer are filled now.
    Done { filled: usize },
}

/// What the reader does after an attempt to read.
#[derive(Debug, PartialEq, Eq)]
pub enum AfterRead<E> {
    /// Hand the bytes that were read to the caller.
    Deliver,
    /// Hand the failure to the caller.
    Fail(E),
    /// Tell the caller that nothing is ready.
    Suspend,
    /// Start the timer anew and wait for it.
    Wait,
}

/// What the reader does after waiting for the timer.
#[derive(Clone, Copy, Debug, PartialEq, Eq, Structural)]
pub enum AfterTick {
    /// Tell the caller that nothing is ready.
    Suspend,
    /// Try to read again.
    Retry,
}

/// What follows an attempt to read into a buffer of which `filled_before`
/// bytes were filled before it.
pub open spec fn step_after_read<E>(filled_before: usize, outcome: ReadOutcome<E>) -> AfterRead<E> {
    match outcome {
        ReadOutcome::Pending => AfterRead::Suspend,
        ReadOutcome::Failed(error) => AfterRead::Fail(error),
        ReadOutcome::Done { filled } => if filled == filled_before {
            AfterRead::Wait
        } else {
            AfterRead::Deliver
        },
    }
}

/// Decides what follows an attempt to read into a buffer of which
/// `filled_before` bytes were filled before it. Bytes that were read are
/// delivered at once, however few; a read that brought none is never
/// delivered, and waits for the timer.
pub fn after_read<E>(filled_before: usize, outcome: ReadOutcome<E>) -> (step: AfterRead<E>)
    ensures
        step == step_after_read(filled_before, outcome),
{
    match outcome {
        ReadOutcome::Pending => AfterRead::Suspend,
        ReadOutcome::Failed(error) => AfterRead::Fail(error),
        ReadOutcome::Done { filled } => {
            if filled == filled_before {
                AfterRead::Wait
            } else {
                AfterRead::Deliver
            }
        },
    }
}

/// All the bytes that these reads brought, in their order.
pub open spec fn all_bytes(reads: Seq<Seq<u8>>) -> Seq<u8>
    decreases reads.len(),
{
    if reads.len() == 0 {
        Seq::empty()
    } else {
        all_bytes(reads.drop_last()) + reads.last()
    }
}

/// The bytes that the reader has handed to its caller after these reads,
/// each of which brought the bytes given: none where the file had not grown
/// since the read before. The bytes of a read are handed on where the step
/// after it is to deliver.
pub open spec fn delivered(reads: Seq<Seq<u8>>) -> Seq<u8>
    decreases reads.len(),
{
    if reads.len() == 0 {
        Seq::empty()
    } else {
        let before = delivered(reads.drop_last());
        let outcome = ReadOutcome::<()>::Done { filled: reads.last().len() as usize };
        if step_after_read(0, outcome) == AfterRead::<()>::Deliver {
            before + reads.last()
        } else {
            before
        }
    }
}

/// Through any turns of idling and growing, the reader hands on every byte
/// that was read, once and in order: reads that brought nothing add
/// nothing, and no other read is held back.
pub proof fn lemma_every_byte_is_delivered_once(reads: Seq<Seq<u8>>)
    requires
        forall|i: int| 0 <= i < reads.len() ==> (#[trigger] reads[i]).len() <= usize::MAX,
    ensures
        delivered(reads) == all_bytes(reads),
    decreases reads.len(),
{
    if reads.len() > 0 {
        let before = reads.drop_last();
        assert forall|i: int| 0 <= i < before.len() implies (#[trigger] before[i]).len()
            <= usize::MAX by {
            assert(before[i] == reads[i]);
        }
        lemma_every_byte_is_delivered_once(before);
        assert(reads.last() == reads[reads.len() - 1]);
        if reads.last().len() == 0 {
            assert(all_bytes(before) + reads.last() =~= all_bytes(before));
        }
    }
}

/// Decides what follows waiting for the timer: to read again once it has
/// fired, and to suspend until it does.
pub fn after_tick(fired: bool) -> (step: AfterTick)
    ensures
        step == if fired {
            AfterTick::Retry
        } else {
            AfterTick::Suspend
        },
{
    if fired {
        AfterTick::Retry
    } else {
        AfterTick::Suspend
    }
}

} // verus!
