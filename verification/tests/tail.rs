use where_am_i::tail::{
    after_read, after_tick, timer_policy, AfterRead, AfterTick, MissedTicks, ReadOutcome,
    TimerPolicy, POLL_INTERVAL_MILLIS,
};

#[test]
fn the_timer_ticks_every_tenth_of_a_second_and_delays_late_ticks() {
    assert_eq!(POLL_INTERVAL_MILLIS, 100);
    assert_eq!(
        timer_policy(),
        TimerPolicy { interval_millis: 100, missed_ticks: MissedTicks::Delay }
    );
}

#[test]
fn bytes_that_were_read_are_delivered_at_once() {
    let step: AfterRead<&str> = after_read(0, ReadOutcome::Done { filled: 4096 });
    assert_eq!(step, AfterRead::Deliver);
}

#[test]
fn a_single_byte_is_delivered_at_once() {
    let step: AfterRead<&str> = after_read(10, ReadOutcome::Done { filled: 11 });
    assert_eq!(step, AfterRead::Deliver);
}

#[test]
fn a_read_that_brought_nothing_waits_for_the_timer() {
    let step: AfterRead<&str> = after_read(0, ReadOutcome::Done { filled: 0 });
    assert_eq!(step, AfterRead::Wait);
    let step: AfterRead<&str> = after_read(17, ReadOutcome::Done { filled: 17 });
    assert_eq!(step, AfterRead::Wait);
}

#[test]
fn a_file_that_is_not_ready_suspends_the_reader() {
    let step: AfterRead<&str> = after_read(0, ReadOutcome::Pending);
    assert_eq!(step, AfterRead::Suspend);
}

#[test]
fn a_failure_to_read_is_handed_on() {
    assert_eq!(after_read(0, ReadOutcome::Failed("gone")), AfterRead::Fail("gone"));
}

#[test]
fn the_reader_tries_again_once_the_timer_has_fired() {
    assert_eq!(after_tick(true), AfterTick::Retry);
    assert_eq!(after_tick(false), AfterTick::Suspend);
}

#[test]
fn idle_and_growth_in_turn_deliver_each_growth_once() {
    let reads = [0usize, 0, 5, 0, 0, 0, 3, 1, 0];
    let mut delivered = 0usize;
    let mut waits = 0usize;
    for read in reads {
        let filled_before = 0usize;
        match after_read::<&str>(filled_before, ReadOutcome::Done { filled: filled_before + read }) {
            AfterRead::Deliver => delivered += read,
            AfterRead::Wait => waits += 1,
            other => panic!("unexpected step {:?}", other),
        }
    }
    assert_eq!(delivered, 9);
    assert_eq!(waits, 6);
}
