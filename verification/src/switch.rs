//! Following the latest of a stream of streams: each stream that arrives
//! takes the place of the one followed before, which is dropped as it is. A
//! failure, of the stream of streams or of the stream followed, is handed on
//! and ends the switch: nothing comes after it.

use vstd::prelude::*;

verus! {

/// What polling a stream that may fail came to.
#[derive(Debug, PartialEq, Eq)]
pub enum Polled<T, E> {
    /// Nothing is ready.
    Pending,
    /// The stream has ended.
    Finished,
    /// The stream gave a value.
    Item(T),
    /// The stream failed.
    Failed(E),
}

/// What the switch does first when it is polled.
#[derive(Clone, Copy, Debug, PartialEq, Eq, Structural)]
pub enum SwitchStart {
    /// Poll the stream of streams.
    PollOuter,
    /// Tell the caller that the switch has ended, and poll nothing.
    End,
}

/// What the switch does after polling the stream of streams.
#[derive(Debug, PartialEq, Eq)]
pub enum SwitchStep<E> {
    /// Hand the failure to the caller.
    Fail(E),
    /// Poll the stream that is followed.
    Forward,
    /// Tell the caller that nothing is ready.
    Suspend,
    /// Tell the caller that the switch has ended.
    End,
}

/// A stream of streams, the one of them that is followed, and whether a
/// failure has ended the switch.
#[derive(Debug)]
pub struct Switch<T, U> {
    pub stream_stream: T,
    pub current_stream: Option<U>,
    pub ended: bool,
}

impl<T, U> Switch<T, U> {
    /// What the switch does first when it is polled: it polls the stream of
    /// streams, unless it has ended.
    pub open spec fn first_step(self) -> SwitchStart {
        if self.ended {
            SwitchStart::End
        } else {
            SwitchStart::PollOuter
        }
    }

    /// The switch after the stream of streams was polled: a stream that
    /// arrived is followed in place of the one before, a failure ends the
    /// switch, and else nothing changes. A switch that has ended stays as it
    /// is.
    pub open spec fn after_outer<E>(self, polled: Polled<U, E>) -> Switch<T, U> {
        if self.ended {
            self
        } else {
            match polled {
                Polled::Item(stream) => Switch {
                    stream_stream: self.stream_stream,
                    current_stream: Some(stream),
                    ended: false,
                },
                Polled::Failed(_) => Switch {
                    stream_stream: self.stream_stream,
                    current_stream: self.current_stream,
                    ended: true,
                },
                _ => self,
            }
        }
    }

    /// What the switch does after the stream of streams was polled: a
    /// failure is handed on; else the stream that is followed then is
    /// polled, and where none is followed yet the switch suspends. A switch
    /// that has ended only says so.
    pub open spec fn step_after_outer<E>(self, polled: Polled<U, E>) -> SwitchStep<E> {
        if self.ended {
            SwitchStep::End
        } else {
            match polled {
                Polled::Failed(error) => SwitchStep::Fail(error),
                _ => if self.after_outer(polled).current_stream is Some {
                    SwitchStep::Forward
                } else {
                    SwitchStep::Suspend
                },
            }
        }
    }

    /// The switch after the stream that is followed was polled: a failure
    /// ends the switch, and else nothing changes.
    pub open spec fn after_inner<V, E>(self, polled: Polled<V, E>) -> Switch<T, U> {
        Switch {
            stream_stream: self.stream_stream,
            current_stream: self.current_stream,
            ended: self.ended || polled is Failed,
        }
    }

    /// What the switch hands to its caller after the stream that is followed
    /// was polled: what that stream gave, as it is. A switch that has ended
    /// hands on nothing but the end.
    pub open spec fn handed_on<V, E>(self, polled: Polled<V, E>) -> Polled<V, E> {
        if self.ended {
            Polled::Finished
        } else {
            polled
        }
    }

    /// A switch over `stream_stream` that follows no stream yet.
    pub fn new(stream_stream: T) -> (switch: Switch<T, U>)
        ensures
            switch.stream_stream == stream_stream,
            switch.current_stream is None,
            !switch.ended,
    {
        Switch { stream_stream, current_stream: None, ended: false }
    }

    /// Decides what to do first when the switch is polled.
    pub fn start(&self) -> (first: SwitchStart)
        ensures
            first == self.first_step(),
    {
        if self.ended {
            SwitchStart::End
        } else {
            SwitchStart::PollOuter
        }
    }

    /// Takes what polling the stream of streams came to, and decides what to
    /// do next.
    pub fn on_outer<E>(&mut self, polled: Polled<U, E>) -> (step: SwitchStep<E>)
        ensures
            *final(self) == old(self).after_outer(polled),
            step == old(self).step_after_outer(polled),
    {
        if self.ended {
            return SwitchStep::End;
        }
        match polled {
            Polled::Item(stream) => {
                self.current_stream = Some(stream);
                SwitchStep::Forward
            },
            Polled::Failed(error) => {
                self.ended = true;
                SwitchStep::Fail(error)
            },
            _ => {
                if self.current_stream.is_some() {
                    SwitchStep::Forward
                } else {
                    SwitchStep::Suspend
                }
            },
        }
    }

    /// Takes what polling the stream that is followed came to, and gives
    /// what the switch hands to its caller: the same, value, failure or end.
    /// A failure ends the switch.
    pub fn on_inner<V, E>(&mut self, polled: Polled<V, E>) -> (out: Polled<V, E>)
        ensures
            *final(self) == old(self).after_inner(polled),
            out == old(self).handed_on(polled),
    {
        if self.ended {
            return Polled::Finished;
        }
        match polled {
            Polled::Failed(error) => {
                self.ended = true;
                Polled::Failed(error)
            },
            other => other,
        }
    }
}

/// Once a second stream has arrived, the switch is as if the first had never
/// come: nothing of the first is kept.
pub proof fn lemma_latest_stream_replaces<T, U, E>(switch: Switch<T, U>, first: U, second: U)
    requires
        !switch.ended,
    ensures
        switch.after_outer(Polled::<U, E>::Item(first)).after_outer(Polled::<U, E>::Item(second))
            == switch.after_outer(Polled::<U, E>::Item(second)),
        switch.after_outer(Polled::<U, E>::Item(second)).current_stream == Some(second),
{
}

/// Until a stream has arrived, the switch suspends whenever the stream of
/// streams gives nothing.
pub proof fn lemma_suspends_before_first_stream<T, U, E>(outer: T)
    ensures
        (Switch::<T, U> { stream_stream: outer, current_stream: None, ended: false }).step_after_outer(
            Polled::<U, E>::Pending,
        ) == SwitchStep::<E>::Suspend,
        (Switch::<T, U> { stream_stream: outer, current_stream: None, ended: false }).step_after_outer(
            Polled::<U, E>::Finished,
        ) == SwitchStep::<E>::Suspend,
{
}

/// A failure of the stream of streams is handed on as it is, without a poll
/// of the stream that is followed, and ends the switch.
pub proof fn lemma_outer_failure_ends<T, U, E>(switch: Switch<T, U>, error: E)
    requires
        !switch.ended,
    ensures
        switch.step_after_outer(Polled::<U, E>::Failed(error)) == SwitchStep::Fail(error),
        switch.after_outer(Polled::<U, E>::Failed(error)).ended,
{
}

/// A failure of the stream that is followed is handed on as it is, and ends
/// the switch.
pub proof fn lemma_inner_failure_ends<T, U, V, E>(switch: Switch<T, U>, error: E)
    requires
        !switch.ended,
    ensures
        switch.handed_on(Polled::<V, E>::Failed(error)) == Polled::<V, E>::Failed(error),
        switch.after_inner(Polled::<V, E>::Failed(error)).ended,
{
}

/// A switch that has ended stays ended and gives nothing more: it polls
/// nothing, no step after it forwards or fails, a stream that arrives is not
/// followed, and no value is handed on.
pub proof fn lemma_nothing_comes_after_the_end<T, U, V, E>(
    switch: Switch<T, U>,
    outer: Polled<U, E>,
    inner: Polled<V, E>,
)
    requires
        switch.ended,
    ensures
        switch.first_step() == SwitchStart::End,
        switch.step_after_outer(outer) == SwitchStep::<E>::End,
        switch.after_outer(outer) == switch,
        switch.after_inner(inner) == switch,
        switch.handed_on(inner) == Polled::<V, E>::Finished,
{
}

/// What the stream that is followed gives is handed on unchanged while the
/// switch has not ended.
pub proof fn lemma_values_are_handed_on<T, U, V, E>(switch: Switch<T, U>, polled: Polled<V, E>)
    requires
        !switch.ended,
    ensures
        switch.handed_on(polled) == polled,
{
}

} // verus!
