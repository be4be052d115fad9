//! The stop flag of the acceptor and the race between it and incoming
//! connections.

use vstd::prelude::*;

verus! {

/// What a poll comes to.
#[derive(Debug, PartialEq, Eq)]
pub enum Turn<T> {
    /// The answer is there.
    Ready(T),
    /// Nothing yet; the waker that was handed in will be woken.
    Pending,
}

/// The stop flag, with the waker of the task that waits on it. `W` is the
/// handle by which a suspended task is woken.
pub struct Stopper<W> {
    is_stopped: bool,
    waker: Option<W>,
}

impl<W> Stopper<W> {
    /// Whether stop was asked for.
    pub closed spec fn stopped(&self) -> bool {
        self.is_stopped
    }

    /// The waker of the task that waits, if one does.
    pub closed spec fn waiting(&self) -> Option<W> {
        self.waker
    }

    /// A flag that is not set, with nobody waiting.
    pub fn new() -> (stopper: Stopper<W>)
        ensures
            !stopper.stopped(),
            stopper.waiting() is None,
    {
        Stopper { is_stopped: false, waker: None }
    }

    /// Sets the flag and hands out the waker of the waiting task, which the
    /// caller has to wake. Setting a flag that is set changes nothing; the
    /// flag is never cleared.
    pub fn stop(&mut self) -> (wake: Option<W>)
        ensures
            final(self).stopped(),
            final(self).waiting() is None,
            wake == old(self).waiting(),
    {
        self.is_stopped = true;
        self.waker.take()
    }

    /// One poll of the wait for the flag: ready once the flag is set, else
    /// the waker is kept for `stop`.
    pub fn poll(&mut self, waker: W) -> (turn: Turn<()>)
        ensures
            final(self).stopped() == old(self).stopped(),
            old(self).stopped() ==> turn == Turn::Ready(()) && final(self).waiting() == old(
                self,
            ).waiting(),
            !old(self).stopped() ==> turn == Turn::<()>::Pending && final(self).waiting() == Some(
                waker,
            ),
    {
        if self.is_stopped {
            Turn::Ready(())
        } else {
            self.waker = Some(waker);
            Turn::Pending
        }
    }

    /// Whether the wait must not be polled again. It may always be polled
    /// again: a set flag answers every poll.
    pub fn is_terminated(&self) -> (done: bool)
        ensures
            !done,
    {
        false
    }

    /// One poll of `accept`: the race between the stop flag and the next
    /// incoming connection. `incoming` is what the listener has ready, if
    /// anything.
    ///
    /// Once the flag is set the answer is `Ready(None)`, whatever the
    /// listener has. Before that a ready connection, or a ready error, is
    /// handed on, and without one the task waits for the flag or the
    /// listener.
    pub fn accept<C, E>(&mut self, incoming: Turn<Option<Result<C, E>>>, waker: W) -> (turn: Turn<
        Option<Result<C, E>>,
    >)
        ensures
            final(self).stopped() == old(self).stopped(),
            turn == answer(old(self).stopped(), incoming),
            old(self).stopped() ==> final(self).waiting() == old(self).waiting(),
            !old(self).stopped() ==> final(self).waiting() == Some(waker),
    {
        match self.poll(waker) {
            Turn::Ready(()) => Turn::Ready(None),
            Turn::Pending => incoming,
        }
    }
}

/// What a poll of `accept` answers.
pub open spec fn answer<C, E>(stopped: bool, incoming: Turn<Option<Result<C, E>>>) -> Turn<
    Option<Result<C, E>>,
> {
    if stopped {
        Turn::Ready(None)
    } else {
        incoming
    }
}

/// The answers to a run of polls of `accept`, where `stop_at` is the number
/// of polls made before the stop flag was set.
pub open spec fn answers<C, E>(stop_at: int, incoming: Seq<Turn<Option<Result<C, E>>>>) -> Seq<
    Turn<Option<Result<C, E>>>,
> {
    Seq::new(incoming.len(), |k: int| answer(k >= stop_at, incoming[k]))
}

/// After the stop flag is set, the very next poll of `accept` answers with
/// the terminal `None`, and so does every poll after it: no connection is
/// handed on any more.
pub proof fn lemma_stop_is_final<C, E>(stop_at: int, incoming: Seq<Turn<Option<Result<C, E>>>>)
    ensures
        forall|k: int|
            stop_at <= k && 0 <= k < incoming.len() ==> #[trigger] answers(stop_at, incoming)[k]
                == Turn::<Option<Result<C, E>>>::Ready(None),
        forall|k: int|
            0 <= k < stop_at && k < incoming.len() ==> #[trigger] answers(stop_at, incoming)[k]
                == incoming[k],
{
}

} // verus!
