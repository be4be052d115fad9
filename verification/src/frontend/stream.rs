//! The bridge between a TLS engine that reads and writes synchronously and a
//! transport that is polled.
//!
//! The engine calls into the carrier from places of its own choosing, so the
//! waker of the task that drives the engine is put into the carrier before
//! each call and taken out after it. When the transport is not ready the
//! carrier tells the engine that the call would block, and the adapter turns
//! that into a suspended task.

use vstd::prelude::*;
use crate::frontend::acceptor::Turn;

pub mod handshake;

verus! {

/// The carrier under the TLS engine: the transport `S`, and the waker `W` of
/// the task that is driving the engine right now.
pub struct StreamWrap<S, W> {
    stream: S,
    waker: Option<W>,
}

/// The witness that the waker was taken out of a carrier after the engine
/// had returned. Only `StreamWrap::settle` makes one.
#[derive(Debug)]
pub struct Settled {
    done: (),
}

/// What a carrier call hands to the engine: the result once the transport is
/// ready, else the error that says the call would block.
pub open spec fn carried<T, E>(turn: Turn<Result<T, E>>, would_block: E) -> Result<T, E> {
    match turn {
        Turn::Ready(result) => result,
        Turn::Pending => Err(would_block),
    }
}

/// What an adapter call comes to for the task: a would-block error of the
/// engine suspends the task, every other result is ready.
pub open spec fn surfaced<T, E>(result: Result<T, E>, would_block: bool) -> Turn<Result<T, E>> {
    match result {
        Ok(value) => Turn::Ready(Ok(value)),
        Err(e) => if would_block {
            Turn::Pending
        } else {
            Turn::Ready(Err(e))
        },
    }
}

impl<S, W> StreamWrap<S, W> {
    /// The transport.
    pub closed spec fn transport(&self) -> S {
        self.stream
    }

    /// The waker that is in the carrier, if one is.
    pub closed spec fn waiting(&self) -> Option<W> {
        self.waker
    }

    /// A carrier over `stream` with no task driving it.
    pub fn new(stream: S) -> (wrap: StreamWrap<S, W>)
        ensures
            wrap.transport() == stream,
            wrap.waiting() is None,
    {
        StreamWrap { stream, waker: None }
    }

    /// Puts the waker of the driving task in, before the engine is called.
    pub fn enter(&mut self, waker: W)
        ensures
            final(self).waiting() == Some(waker),
            final(self).transport() == old(self).transport(),
    {
        self.waker = Some(waker);
    }

    /// Takes the waker out, after the engine has returned.
    pub fn clear(&mut self)
        ensures
            final(self).waiting() is None,
            final(self).transport() == old(self).transport(),
    {
        self.waker = None;
    }

    /// Takes the waker out after a step of the handshake, and bears witness
    /// to it.
    pub fn settle(&mut self) -> (settled: Settled)
        ensures
            final(self).waiting() is None,
            final(self).transport() == old(self).transport(),
    {
        self.clear();
        Settled { done: () }
    }

    /// Takes the waker out after the engine has returned, whatever it
    /// returned, and says what the call comes to for the task.
    /// `would_block` tells whether an error of the engine is the one that
    /// says the transport was not ready.
    pub fn leave<T, E>(&mut self, result: Result<T, E>, would_block: bool) -> (turn: Turn<
        Result<T, E>,
    >)
        ensures
            final(self).waiting() is None,
            final(self).transport() == old(self).transport(),
            turn == surfaced(result, would_block),
    {
        self.clear();
        match result {
            Ok(value) => Turn::Ready(Ok(value)),
            Err(e) => if would_block {
                Turn::Pending
            } else {
                Turn::Ready(Err(e))
            },
        }
    }

    /// The transport, to look at.
    pub fn get_ref(&self) -> (stream: &S)
        ensures
            *stream == self.transport(),
    {
        &self.stream
    }

    /// The waker that is in the carrier, if one is.
    pub fn waker(&self) -> (waker: Option<&W>)
        ensures
            waker == match self.waiting() {
                Some(w) => Some(&w),
                None => None,
            },
    {
        self.waker.as_ref()
    }

    /// Whether a waker is in the carrier, as it is inside a call of the
    /// engine.
    pub fn is_driven(&self) -> (driven: bool)
        ensures
            driven == self.waiting() is Some,
    {
        self.waker.is_some()
    }

    /// The transport and the waker to poll it with, inside a call of the
    /// engine.
    pub fn parts(&mut self) -> (parts: (&mut S, &W))
        requires
            old(self).waiting() is Some,
        ensures
            *parts.0 == old(self).transport(),
            Some(*parts.1) == old(self).waiting(),
            final(self).transport() == *final(parts.0),
            final(self).waiting() == old(self).waiting(),
    {
        match &self.waker {
            Some(waker) => (&mut self.stream, waker),
            None => vstd::pervasive::unreached(),
        }
    }

    /// Turns what a poll of the transport gave into what the engine is told.
    pub fn carry<T, E>(turn: Turn<Result<T, E>>, would_block: E) -> (result: Result<T, E>)
        ensures
            result == carried(turn, would_block),
    {
        match turn {
            Turn::Ready(result) => result,
            Turn::Pending => Err(would_block),
        }
    }
}

/// An established TLS stream: the session `T` of the engine over its
/// carrier.
pub struct Stream<T> {
    pub inner: T,
}

impl<T> Stream<T> {
    /// The stream over a session whose handshake is done.
    pub fn wrap(inner: T) -> (stream: Stream<T>)
        ensures
            stream.inner == inner,
    {
        Stream { inner }
    }

    /// Closing does nothing at this layer and is done at once; the socket
    /// goes when the task ends.
    pub fn poll_close<E>(&self) -> (turn: Turn<Result<(), E>>)
        ensures
            turn == Turn::<Result<(), E>>::Ready(Ok(())),
    {
        Turn::Ready(Ok(()))
    }
}

} // verus!
