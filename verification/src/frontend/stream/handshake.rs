//! The TLS handshake as a task that can be resumed: not started, under way,
//! done.

use vstd::prelude::*;
use crate::frontend::acceptor::Turn;
use crate::frontend::stream::Settled;

verus! {

/// Why a handshake came to nothing. `E` is what the engine says of a bad
/// setup.
#[derive(Debug, PartialEq, Eq)]
pub enum Error<E> {
    /// The configuration of the engine is not valid.
    Setup(E),
    /// The negotiation with the peer failed.
    Handshake,
}

/// What the engine said after it was driven once: `T` is an established
/// session, `M` a handshake that waits for the transport. Both still hold
/// the carrier, so both are taken only together with the witness that the
/// waker was taken out of the carrier again.
pub enum Progress<T, E, M> {
    Done(T, Settled),
    Failure,
    SetupFailure(E),
    WouldBlock(M, Settled),
}

/// Where a handshake stands between two polls.
pub enum Stage<A, S, M> {
    /// `ssl` has yet to be started over `stream`.
    DidNotBegin { ssl: A, stream: S },
    /// The engine is in the middle and waits for the transport.
    MidWay(M),
}

/// A handshake that is driven to its end over several polls. `A` is the
/// configured engine, `S` the carrier, `M` a handshake under way.
pub struct HandshakeFuture<A, S, M> {
    state: Option<Stage<A, S, M>>,
}

/// What the task is told after the engine was driven once.
pub open spec fn outcome<T, E, M>(progress: Progress<T, E, M>) -> Turn<Result<T, Error<E>>> {
    match progress {
        Progress::Done(session, settled) => Turn::Ready(Ok(session)),
        Progress::Failure => Turn::Ready(Err(Error::Handshake)),
        Progress::SetupFailure(e) => Turn::Ready(Err(Error::Setup(e))),
        Progress::WouldBlock(waiting, settled) => Turn::Pending,
    }
}

impl<E> Error<E> {
    /// What to tell the operator; `setup` is what the engine says of a bad
    /// setup.
    pub fn message(&self, setup: &str) -> (text: String)
        ensures
            text@ == match self {
                Error::Setup(e) => "Bad ssl setup: "@ + setup@,
                Error::Handshake => "Handshake failed"@,
            },
    {
        match self {
            Error::Setup(_) => {
                let mut text = String::from_str("Bad ssl setup: ");
                text.append(setup);
                text
            },
            Error::Handshake => String::from_str("Handshake failed"),
        }
    }
}

impl<A, S, M> HandshakeFuture<A, S, M> {
    /// Where the handshake stands; nothing while it is being driven and once
    /// it has ended.
    pub closed spec fn stage(&self) -> Option<Stage<A, S, M>> {
        self.state
    }

    /// A handshake that has yet to begin.
    pub fn new(ssl: A, stream: S) -> (future: HandshakeFuture<A, S, M>)
        ensures
            future.stage() == Some(Stage::<A, S, M>::DidNotBegin { ssl, stream }),
    {
        HandshakeFuture { state: Some(Stage::DidNotBegin { ssl, stream }) }
    }

    /// Whether the handshake can be polled: it has a stage to go on from.
    pub fn is_pending(&self) -> (pending: bool)
        ensures
            pending == self.stage() is Some,
    {
        self.state.is_some()
    }

    /// Takes the stage out, to drive the engine from it with the waker of
    /// the polling task in the carrier. A handshake that has ended, or is
    /// being driven, must not be polled.
    pub fn poll(&mut self) -> (stage: Stage<A, S, M>)
        requires
            old(self).stage() is Some,
        ensures
            old(self).stage() == Some(stage),
            final(self).stage() is None,
    {
        match self.state.take() {
            Some(stage) => stage,
            None => vstd::pervasive::unreached(),
        }
    }

    /// Takes in what the engine said. A handshake that waits for the
    /// transport is kept for the next poll and the task is suspended; every
    /// other answer ends the handshake.
    ///
    /// Neither `Ready(Ok(..))` nor `Pending` is returned without the waker
    /// having been taken out of a carrier: a session and a waiting handshake
    /// come with the witness of it, which only `StreamWrap::settle` makes.
    pub fn process_handshake_res<T, E>(&mut self, res: Progress<T, E, M>) -> (turn: Turn<
        Result<T, Error<E>>,
    >)
        ensures
            turn == outcome(res),
            final(self).stage() == match res {
                Progress::WouldBlock(waiting, settled) => Some(Stage::<A, S, M>::MidWay(waiting)),
                _ => old(self).stage(),
            },
    {
        match res {
            Progress::Done(session, _) => Turn::Ready(Ok(session)),
            Progress::Failure => Turn::Ready(Err(Error::Handshake)),
            Progress::SetupFailure(e) => Turn::Ready(Err(Error::Setup(e))),
            Progress::WouldBlock(waiting, _) => {
                self.state = Some(Stage::MidWay(waiting));
                Turn::Pending
            },
        }
    }
}

} // verus!
